use ekg::display::ClockTime;
use ekg::hooks::{HookKind, Hooks};
use ekg::pinger::PingEvent;
use ekg::recorder::Recorder;
use ekg::session::{
    cap_notice, fire_hooks, fmt_short, log_event, outage_summary, summary_lines, OutageLine,
    Session, Transition,
};
use ekg::stats::Stats;
use ekg::time::{to_ms, Duration, SystemTime};

fn secs(n: u64) -> Duration {
    Duration::from_secs(n)
}

fn wall(n: u64) -> SystemTime {
    SystemTime::after_epoch(secs(1_000_000 + n))
}

fn reply() -> PingEvent {
    PingEvent::Reply(Duration::from_millis(10))
}

/// Feeds the outcomes of `pattern` at one-second intervals from `at` on: `.` a
/// reply, `x` a timeout. Returns the transitions that are not steady.
fn feed(s: &mut Session, at: u64, pattern: &str) -> Vec<(u64, Transition)> {
    let mut out = Vec::new();
    for (i, c) in pattern.chars().enumerate() {
        let t = at + i as u64;
        let event = if c == '.' { reply() } else { PingEvent::Timeout };
        assert!(s.can_take(event));
        let transition = s.apply_event(event, secs(t), wall(t));
        if transition != Transition::Steady {
            out.push((t, transition));
        }
    }
    out
}

#[test]
fn third_timeout_declares_and_reply_ends() {
    let mut s = Session::new(60, None);
    let ts = feed(&mut s, 0, "..xxxx.");
    assert_eq!(
        ts,
        vec![
            (4, Transition::Declared { started: wall(4) }),
            (
                6,
                Transition::Recovered {
                    started: wall(4),
                    ended: wall(6),
                    duration: secs(2),
                    line: OutageLine::Shown,
                }
            ),
        ]
    );
    assert_eq!(s.outage_count, 1);
    assert_eq!(s.stats.sent, 7);
    assert_eq!(s.stats.received, 3);
}

#[test]
fn blips_are_no_outages() {
    let mut s = Session::new(60, None);
    assert_eq!(feed(&mut s, 0, ".xx.x.xx."), vec![]);
    assert_eq!(s.outage_count, 0);
    assert_eq!(s.uptime(secs(9)), Some(secs(9)));
    assert_eq!(s.down_for(secs(9)), None);
}

#[test]
fn uptime_restarts_at_recovery() {
    let mut s = Session::new(60, None);
    feed(&mut s, 0, ".xxx");
    assert_eq!(s.uptime(secs(5)), None);
    assert_eq!(s.down_for(secs(5)), Some(secs(2)));
    feed(&mut s, 6, ".");
    assert_eq!(s.uptime(secs(10)), Some(secs(4)));
    feed(&mut s, 10, "xx.");
    assert_eq!(s.uptime(secs(13)), Some(secs(7)));
    // A reading before the recovery counts as no time at all.
    assert_eq!(s.uptime(secs(1)), Some(secs(0)));
}

#[test]
fn outage_lines_stop_at_the_cap() {
    let lines = |cap: Option<u32>| -> Vec<OutageLine> {
        let mut s = Session::new(60, cap);
        feed(&mut s, 0, "xxx.xxx.xxx.xxx.")
            .into_iter()
            .filter_map(|(_, t)| match t {
                Transition::Recovered { line, .. } => Some(line),
                _ => None,
            })
            .collect()
    };
    assert_eq!(lines(None), vec![OutageLine::Shown; 4]);
    assert_eq!(
        lines(Some(2)),
        vec![
            OutageLine::Shown,
            OutageLine::Shown,
            OutageLine::CapNotice(2),
            OutageLine::Silent,
        ]
    );
    assert_eq!(lines(Some(0)), vec![OutageLine::Silent; 4]);
    assert_eq!(lines(Some(4)), vec![OutageLine::Shown; 4]);
}

#[test]
fn cap_does_not_touch_log_and_hooks() {
    let run = |cap: Option<u32>| -> (String, usize, u32) {
        let mut s = Session::new(60, cap);
        let mut rec = Recorder::new();
        let mut hooks = Hooks::new();
        let mut started = 0;
        for (i, c) in "xxx.xxx.xxx.".chars().enumerate() {
            let event = if c == '.' { reply() } else { PingEvent::Timeout };
            let t = s.apply_event(event, secs(i as u64), wall(i as u64));
            log_event(&mut rec, "h", wall(i as u64), event, t);
            if let Some((kind, _)) = fire_hooks(&mut hooks, "h", t, Some("a"), Some("b"), None) {
                started += 1;
                hooks.finished(kind);
            }
        }
        (rec.take(), started, s.outage_count)
    };
    let (log, started, outages) = run(None);
    assert_eq!(started, 6);
    assert_eq!(outages, 3);
    assert_eq!(log.lines().count(), 18);
    assert_eq!(run(Some(0)), (log.clone(), started, outages));
    assert_eq!(run(Some(1)), (log, started, outages));
}

#[test]
fn log_follows_the_outage() {
    let mut s = Session::new(60, None);
    let mut rec = Recorder::new();
    for (i, c) in "xxx.".chars().enumerate() {
        let event = if c == '.' { reply() } else { PingEvent::Timeout };
        let t = s.apply_event(event, secs(i as u64), wall(i as u64));
        log_event(&mut rec, "h", wall(i as u64), event, t);
    }
    assert_eq!(
        rec.take(),
        "{\"ts\":1000000000,\"host\":\"h\",\"rtt_ms\":null}\n\
         {\"ts\":1000001000,\"host\":\"h\",\"rtt_ms\":null}\n\
         {\"ts\":1000002000,\"host\":\"h\",\"rtt_ms\":null}\n\
         {\"ts\":1000002000,\"host\":\"h\",\"event\":\"outage_start\"}\n\
         {\"ts\":1000003000,\"host\":\"h\",\"rtt_ms\":10}\n\
         {\"ts\":1000003000,\"host\":\"h\",\"event\":\"outage_end\",\"duration_ms\":1000}\n"
    );
}

#[test]
fn hooks_get_the_outage() {
    let mut hooks = Hooks::new();
    let declared = Transition::Declared { started: wall(0) };
    let recovered = Transition::Recovered {
        started: wall(0),
        ended: wall(36),
        duration: secs(36),
        line: OutageLine::Silent,
    };
    assert!(fire_hooks(&mut hooks, "h", Transition::Steady, Some("a"), Some("b"), None).is_none());
    assert!(fire_hooks(&mut hooks, "h", declared, None, Some("b"), None).is_none());
    assert!(fire_hooks(&mut hooks, "h", recovered, Some("a"), None, None).is_none());

    let (kind, c) = fire_hooks(&mut hooks, "h", declared, Some("a"), Some("b"), None).unwrap();
    assert_eq!(kind, HookKind::Outage);
    assert_eq!(c.args[4], "a");
    assert_eq!(c.env.len(), 2);
    assert_eq!(c.env[1].1, to_ms(wall(0)).to_string());
    assert!(fire_hooks(&mut hooks, "h", declared, Some("a"), Some("b"), None).is_none());

    let shell = Some("/bin/zsh".to_string());
    let (kind, c) = fire_hooks(&mut hooks, "h", recovered, Some("a"), Some("b"), shell).unwrap();
    assert_eq!(kind, HookKind::Recovery);
    assert_eq!(c.args[3], "/bin/zsh");
    assert_eq!(c.args[4], "b");
    assert_eq!(c.env[2], ("EKG_OUTAGE_SECS".to_string(), "36".to_string()));
}

#[test]
fn counted_session_completes() {
    let mut s = Session::new(60, None);
    assert!(!s.is_complete(None));
    assert!(s.is_complete(Some(0)));
    feed(&mut s, 0, "..");
    assert!(!s.is_complete(Some(3)));
    feed(&mut s, 2, "x");
    assert!(s.is_complete(Some(3)));
}

#[test]
fn exit_status_by_loss() {
    let mut s = Session::new(1, None);
    assert_eq!(s.exit_status(0), 0);
    feed(&mut s, 0, "...................");
    assert_eq!(s.exit_status(0), 0);
    feed(&mut s, 19, "x");
    assert_eq!(s.exit_status(0), 1);
    assert_eq!(s.exit_status(49_999), 1);
    assert_eq!(s.exit_status(50_000), 0);
}

#[test]
fn full_counters_take_no_more() {
    let mut s = Session::new(1, None);
    s.consecutive_timeouts = u32::MAX;
    assert!(!s.can_take(PingEvent::Timeout));
    assert!(s.can_take(reply()));
    s.stats.sent = u64::MAX;
    assert!(!s.can_take(reply()));
}

#[test]
fn summary_of_an_empty_session() {
    let lines = summary_lines(&Stats::new(5), secs(0), 0);
    assert_eq!(
        lines,
        vec![
            "\n--- ekg summary ---",
            "session duration: 0s",
            "sent: 0  received: 0",
            "loss: 0.0%",
            "outages: 0",
        ]
    );
}

#[test]
fn summary_of_a_session() {
    let mut s = Session::new(60, None);
    for n in [5, 50, 200] {
        s.apply_event(PingEvent::Reply(Duration::from_millis(n)), secs(0), wall(0));
    }
    feed(&mut s, 1, "xxx");
    let lines = summary_lines(&s.stats, secs(125), s.outage_count);
    assert_eq!(
        lines,
        vec![
            "\n--- ekg summary ---",
            "session duration: 2m5s",
            "sent: 6  received: 3",
            "loss: 50.0%",
            "avg: 85ms  min: 5ms  max: 200ms",
            "outages: 0",
        ]
    );
}

#[test]
fn summary_covers_replies_that_left_the_window() {
    let mut s = Session::new(1, None);
    s.apply_event(PingEvent::Reply(Duration::from_millis(12)), secs(0), wall(0));
    s.apply_event(PingEvent::Timeout, secs(1), wall(1));
    let lines = summary_lines(&s.stats, secs(2), s.outage_count);
    assert_eq!(
        lines,
        vec![
            "\n--- ekg summary ---",
            "session duration: 2s",
            "sent: 2  received: 1",
            "loss: 50.0%",
            "avg: 12ms  min: 12ms  max: 12ms",
            "outages: 0",
        ]
    );
    for n in [20, 40] {
        s.apply_event(PingEvent::Reply(Duration::from_millis(n)), secs(2), wall(2));
    }
    let lines = summary_lines(&s.stats, secs(2), s.outage_count);
    assert_eq!(lines[4], "avg: 24ms  min: 12ms  max: 40ms");
}

#[test]
fn texts_about_outages() {
    assert_eq!(
        cap_notice(5),
        "… outage log capped at 5; later outages still counted in the summary"
    );
    let local = ClockTime {
        hour: 14,
        min: 32,
        sec: 5,
    };
    assert_eq!(
        outage_summary(wall(0), Some(local), secs(36)),
        "last outage: 14:32 (36s)"
    );
    assert_eq!(
        outage_summary(wall(0), None, secs(3600)),
        "last outage: 13:46 (1h0m)"
    );
    assert_eq!(fmt_short(secs(61)), "1m1s");
}
