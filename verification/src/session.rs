//! A monitoring session: what each ping outcome means for the statistics, for
//! the outages, and for the three places an outage shows up in (the panel's
//! permanent lines, the log and the hooks), the final summary and the exit
//! status.

use vstd::prelude::*;

use crate::display::{fmt_duration_short, local_hm, OUTAGE_THRESHOLD};
use crate::display::{clock_at, hour_minute_text, short_text};
use crate::display::ClockTime;
use crate::hooks::{fired, opt_text, outage_env, outage_vars, recovery_env, recovery_vars};
use crate::hooks::{HookCommand, HookKind, Hooks};
use crate::mean::{half_even, law_half_even_is_nearest, mean_floor};
use crate::pinger::{count_reached, reached, sample_of};
use crate::pinger::PingEvent;
use crate::recorder::{object, outage_end_fields, outage_start_fields, sample_fields};
use crate::recorder::Recorder;
use crate::screen::{lemma_numbers_one_line, lemma_short_one_line, one_line};
use crate::stats::{after, greatest, least, reply_nanos, timeouts};
use crate::stats::{law_session_average, law_session_extremes};
use crate::stats::{law_recording_keeps_wf, law_replies_and_timeouts, law_session_counters};
use crate::stats::{Sample, Stats, StatsView};
use crate::text::{all_digits, decimal, decimal_value, point_at, push_decimal, texts, two_digits};
use crate::text::{law_decimal_reads_back, lemma_decimal_digits, lemma_point_behind_digits};
use crate::time::{epoch_millis, opt_nanos, span_since};
use crate::time::{Duration, SystemTime, MAX_NANOS, NANOS_PER_MILLI};

verus! {

/// What becomes of the permanent line of an outage that has ended.
#[derive(Debug, Clone, Copy, PartialEq, Eq, Structural)]
pub enum OutageLine {
    /// It is printed.
    Shown,
    /// The cap on outage lines has just been passed: a notice says so instead.
    CapNotice(u32),
    /// It is left out.
    Silent,
}

/// What a ping outcome changes about the outages.
#[derive(Debug, Clone, Copy, PartialEq, Eq, Structural)]
pub enum Transition {
    /// Nothing.
    Steady,
    /// An outage is declared.
    Declared { started: SystemTime },
    /// A declared outage has ended.
    Recovered { started: SystemTime, ended: SystemTime, duration: Duration, line: OutageLine },
}

/// What a ping outcome changes about the outages, in plain numbers.
pub enum TransitionView {
    Steady,
    Declared { started: int },
    Recovered { started: int, duration: nat, line: OutageLine },
}

impl View for Transition {
    type V = TransitionView;

    open spec fn view(&self) -> TransitionView {
        match *self {
            Transition::Steady => TransitionView::Steady,
            Transition::Declared { started } => TransitionView::Declared { started: started@ },
            Transition::Recovered { started, ended, duration, line } => TransitionView::Recovered {
                started: started@,
                duration: duration@,
                line,
            },
        }
    }
}

/// An outage that is going on: when it was declared, on the session's clock
/// and on the wall clock.
#[derive(Debug, Clone, Copy, PartialEq, Eq, Structural)]
pub struct Down {
    pub since: Duration,
    pub wall: SystemTime,
}

/// An outage that is going on, in plain numbers.
pub struct DownView {
    pub since: nat,
    pub wall: int,
}

/// The state of a session, in plain numbers.
#[verifier::ext_equal]
pub struct SessionView {
    pub stats: StatsView,
    pub consecutive_timeouts: nat,
    pub down: Option<DownView>,
    pub last_recovery: nat,
    pub outage_count: nat,
    pub cap_notice_printed: bool,
    pub max_outages: Option<u32>,
}

/// One ping outcome with the readings of both clocks at its arrival.
pub struct Arrival {
    pub event: PingEvent,
    pub now: nat,
    pub wall: int,
}

/// The line of an outage that ends after `outage_count` earlier ones: printed
/// up to the cap; past it, one notice for the first outage over a cap above
/// zero, and nothing else.
pub open spec fn line_for(
    max_outages: Option<u32>,
    outage_count: nat,
    notice_printed: bool,
) -> OutageLine {
    match max_outages {
        Some(cap) => if outage_count < cap {
            OutageLine::Shown
        } else if outage_count == cap && cap > 0 && !notice_printed {
            OutageLine::CapNotice(cap)
        } else {
            OutageLine::Silent
        },
        None => OutageLine::Shown,
    }
}

impl SessionView {
    /// A session that begins: nothing recorded, no outage, up since now.
    pub open spec fn start(window: nat, max_outages: Option<u32>) -> SessionView {
        SessionView {
            stats: StatsView::empty(window),
            consecutive_timeouts: 0,
            down: None,
            last_recovery: 0,
            outage_count: 0,
            cap_notice_printed: false,
            max_outages,
        }
    }

    /// What `arrival` changes about the outages: the timeout that reaches the
    /// threshold declares one, and the reply that follows ends it.
    pub open spec fn transition(self, arrival: Arrival) -> TransitionView {
        match arrival.event {
            PingEvent::Reply(_) => match self.down {
                Some(down) => TransitionView::Recovered {
                    started: down.wall,
                    duration: span_since(arrival.now, down.since),
                    line: line_for(self.max_outages, self.outage_count, self.cap_notice_printed),
                },
                None => TransitionView::Steady,
            },
            PingEvent::Timeout => if self.consecutive_timeouts + 1 == OUTAGE_THRESHOLD {
                TransitionView::Declared { started: arrival.wall }
            } else {
                TransitionView::Steady
            },
        }
    }

    /// The session after `arrival`.
    pub open spec fn next(self, arrival: Arrival) -> SessionView {
        let transition = self.transition(arrival);
        SessionView {
            stats: self.stats.recorded(sample_of(arrival.event)),
            consecutive_timeouts: if arrival.event is Timeout {
                self.consecutive_timeouts + 1
            } else {
                0
            },
            down: if arrival.event is Reply {
                None
            } else if transition is Declared {
                Some(DownView { since: arrival.now, wall: arrival.wall })
            } else {
                self.down
            },
            last_recovery: if transition is Recovered {
                arrival.now
            } else {
                self.last_recovery
            },
            outage_count: if transition is Recovered {
                self.outage_count + 1
            } else {
                self.outage_count
            },
            cap_notice_printed: self.cap_notice_printed || (transition matches
                TransitionView::Recovered { started, duration, line } && line is CapNotice),
            max_outages: self.max_outages,
        }
    }

    /// The statistics are well formed, and an outage is going on exactly from
    /// the threshold on.
    pub open spec fn wf(self) -> bool {
        &&& self.stats.wf()
        &&& self.down is Some <==> self.consecutive_timeouts >= OUTAGE_THRESHOLD
        &&& self.down matches Some(down) ==> down.wall <= MAX_NANOS
    }

    /// The counters have room for `event`.
    pub open spec fn has_room(self, event: PingEvent) -> bool {
        &&& self.stats.sent < u64::MAX
        &&& event is Timeout ==> self.consecutive_timeouts < u32::MAX
        &&& event is Reply && self.down is Some ==> self.outage_count < u32::MAX
    }
}

/// The state of a session with one target.
pub struct Session {
    pub stats: Stats,
    pub consecutive_timeouts: u32,
    pub down: Option<Down>,
    pub last_recovery: Duration,
    pub outage_count: u32,
    pub cap_notice_printed: bool,
    pub max_outages: Option<u32>,
}

impl View for Session {
    type V = SessionView;

    open spec fn view(&self) -> SessionView {
        SessionView {
            stats: self.stats@,
            consecutive_timeouts: self.consecutive_timeouts as nat,
            down: match self.down {
                Some(down) => Some(DownView { since: down.since@, wall: down.wall@ }),
                None => None,
            },
            last_recovery: self.last_recovery@,
            outage_count: self.outage_count as nat,
            cap_notice_printed: self.cap_notice_printed,
            max_outages: self.max_outages,
        }
    }
}

impl Session {
    /// A session over a rolling window of `window` samples that prints at most
    /// `max_outages` outage lines.
    pub fn new(window: usize, max_outages: Option<u32>) -> (s: Session)
        ensures
            s@ == SessionView::start(window as nat, max_outages),
            s@.wf(),
    {
        Session {
            stats: Stats::new(window),
            consecutive_timeouts: 0,
            down: None,
            last_recovery: Duration::from_secs(0),
            outage_count: 0,
            cap_notice_printed: false,
            max_outages,
        }
    }

    /// Whether the counters have room for `event`.
    pub fn can_take(&self, event: PingEvent) -> (r: bool)
        ensures
            r == self@.has_room(event),
    {
        self.stats.sent() < u64::MAX && match event {
            PingEvent::Timeout => self.consecutive_timeouts < u32::MAX,
            PingEvent::Reply(_) => self.down.is_none() || self.outage_count < u32::MAX,
        }
    }

    /// Takes in one ping outcome: `now` is the time since the session began,
    /// `wall` the wall-clock time.
    pub fn apply_event(&mut self, event: PingEvent, now: Duration, wall: SystemTime) -> (t:
        Transition)
        requires
            old(self)@.wf(),
            old(self)@.has_room(event),
            wall@ <= MAX_NANOS,
        ensures
            t@ == old(self)@.transition(Arrival { event, now: now@, wall: wall@ }),
            t matches Transition::Recovered { started, ended, duration, line } ==> ended@
                == started@ + duration@ && started@ <= MAX_NANOS,
            final(self)@ == old(self)@.next(Arrival { event, now: now@, wall: wall@ }),
            final(self)@.wf(),
    {
        let mut transition = Transition::Steady;
        match event {
            PingEvent::Reply(_) => {
                // A reply after only a sub-threshold blip is not a recovery:
                // uptime keeps counting from the session start or from the
                // last real outage.
                if let Some(down) = self.down {
                    let duration = now.saturating_sub(down.since);
                    let line = self.outage_line();
                    if let OutageLine::CapNotice(_) = line {
                        self.cap_notice_printed = true;
                    }
                    transition = Transition::Recovered {
                        started: down.wall,
                        ended: down.wall.plus(duration),
                        duration,
                        line,
                    };
                    self.outage_count += 1;
                    self.last_recovery = now;
                }
                self.consecutive_timeouts = 0;
                self.down = None;
            },
            PingEvent::Timeout => {
                self.consecutive_timeouts += 1;
                if self.consecutive_timeouts == OUTAGE_THRESHOLD {
                    self.down = Some(Down { since: now, wall });
                    transition = Transition::Declared { started: wall };
                }
            },
        }
        let sample: Sample = Sample::from(event);
        self.stats.record(sample);
        transition
    }

    /// What becomes of the line of an outage that ends now.
    fn outage_line(&self) -> (line: OutageLine)
        ensures
            line == line_for(self.max_outages, self.outage_count as nat, self.cap_notice_printed),
    {
        match self.max_outages {
            Some(cap) => if self.outage_count < cap {
                OutageLine::Shown
            } else if self.outage_count == cap && cap > 0 && !self.cap_notice_printed {
                OutageLine::CapNotice(cap)
            } else {
                OutageLine::Silent
            },
            None => OutageLine::Shown,
        }
    }

    /// For how long the connection has been down, if it is.
    pub fn down_for(&self, now: Duration) -> (d: Option<Duration>)
        ensures
            opt_nanos(d) == (match self@.down {
                Some(down) => Some(span_since(now@, down.since)),
                None => None,
            }),
    {
        match self.down {
            Some(down) => Some(now.saturating_sub(down.since)),
            None => None,
        }
    }

    /// For how long the connection has been up, if it is: since the last
    /// recovery, or since the session began.
    pub fn uptime(&self, now: Duration) -> (d: Option<Duration>)
        ensures
            opt_nanos(d) == (match self@.down {
                Some(_) => None,
                None => Some(span_since(now@, self@.last_recovery)),
            }),
    {
        match self.down {
            Some(_) => None,
            None => Some(now.saturating_sub(self.last_recovery)),
        }
    }

    /// Whether the session has taken in its `count` pings.
    pub fn is_complete(&self, count: Option<u64>) -> (r: bool)
        ensures
            r == reached(self@.stats.sent, count),
    {
        count_reached(self.stats.sent(), count)
    }

    /// The exit status of a counted session: 0 if the loss stayed within
    /// `max_loss_ppm` lost pings out of a million, 1 otherwise.
    pub fn exit_status(&self, max_loss_ppm: u64) -> (status: u8)
        requires
            self@.wf(),
        ensures
            status == status_for(self@.stats, max_loss_ppm as nat),
    {
        if self.stats.lifetime_loss_pct().is_within(max_loss_ppm) {
            0
        } else {
            1
        }
    }
}

/// The exit status of a counted session that may lose `ppm` out of a million
/// pings.
pub open spec fn status_for(stats: StatsView, ppm: nat) -> u8 {
    if (stats.sent - stats.received) * 1_000_000 <= ppm * stats.sent {
        0
    } else {
        1
    }
}

/// The RTT of an event, none for a timeout.
pub open spec fn rtt_of(event: PingEvent) -> Option<nat> {
    match event {
        PingEvent::Reply(d) => Some(d@),
        PingEvent::Timeout => None,
    }
}

/// The log records of one ping outcome that arrived at `wall`: its sample, and
/// the start or the end of an outage.
pub open spec fn records_of(
    host: Seq<char>,
    wall: int,
    event: PingEvent,
    transition: TransitionView,
) -> Seq<char> {
    object(sample_fields(epoch_millis(wall), host, rtt_of(event))) + seq!['\n'] + match transition {
        TransitionView::Steady => seq![],
        TransitionView::Declared { started } => object(
            outage_start_fields(epoch_millis(started), host),
        ) + seq!['\n'],
        TransitionView::Recovered { started, duration, line } => object(
            outage_end_fields(
                epoch_millis(started + duration),
                host,
                duration / (NANOS_PER_MILLI as nat),
            ),
        ) + seq!['\n'],
    }
}

/// Logs one ping outcome that arrived at `wall`, and the start or the end of an
/// outage that it meant.
pub fn log_event(
    recorder: &mut Recorder,
    host: &str,
    wall: SystemTime,
    event: PingEvent,
    transition: Transition,
)
    requires
        transition matches Transition::Recovered { started, ended, duration, line } ==> ended@
            == started@ + duration@,
    ensures
        final(recorder)@ == old(recorder)@ + records_of(host@, wall@, event, transition@),
{
    let rtt: Option<Duration> = match event {
        PingEvent::Reply(d) => Some(d),
        PingEvent::Timeout => None,
    };
    recorder.log_sample(wall, host, rtt);
    match transition {
        Transition::Steady => {},
        Transition::Declared { started } => {
            recorder.log_outage_start(host, started);
        },
        Transition::Recovered { started, ended, duration, line } => {
            recorder.log_outage_end(host, ended, duration);
        },
    }
    assert(recorder@ =~= old(recorder)@ + records_of(host@, wall@, event, transition@));
}

/// Fires the hook that a transition calls for, if the user gave a command for
/// it: the kind of hook and the process to start. Nothing where a hook of that
/// kind is still running.
pub fn fire_hooks(
    hooks: &mut Hooks,
    host: &str,
    transition: Transition,
    on_outage: Option<&str>,
    on_recovery: Option<&str>,
    shell_var: Option<String>,
) -> (run: Option<(HookKind, HookCommand)>)
    ensures
        match transition@ {
            TransitionView::Declared { started } if on_outage is Some => {
                &&& final(hooks)@ == old(hooks)@.with(HookKind::Outage, true)
                &&& run matches Some((kind, c)) ==> kind == HookKind::Outage
                &&& fired(
                    old(hooks)@.running(HookKind::Outage),
                    on_outage->0@,
                    outage_vars(host@, started),
                    opt_text(shell_var),
                    command_of(run),
                )
            },
            TransitionView::Recovered { started, duration, line } if on_recovery is Some => {
                &&& final(hooks)@ == old(hooks)@.with(HookKind::Recovery, true)
                &&& run matches Some((kind, c)) ==> kind == HookKind::Recovery
                &&& fired(
                    old(hooks)@.running(HookKind::Recovery),
                    on_recovery->0@,
                    recovery_vars(host@, started, duration),
                    opt_text(shell_var),
                    command_of(run),
                )
            },
            _ => final(hooks)@ == old(hooks)@ && run is None,
        },
{
    match transition {
        Transition::Steady => None,
        Transition::Declared { started } => match on_outage {
            Some(cmd) => {
                let env = outage_env(host, started);
                match hooks.fire_outage(cmd, env.as_slice(), shell_var) {
                    Some(c) => Some((HookKind::Outage, c)),
                    None => None,
                }
            },
            None => None,
        },
        Transition::Recovered { started, ended, duration, line } => match on_recovery {
            Some(cmd) => {
                let env = recovery_env(host, started, duration);
                match hooks.fire_recovery(cmd, env.as_slice(), shell_var) {
                    Some(c) => Some((HookKind::Recovery, c)),
                    None => None,
                }
            },
            None => None,
        },
    }
}

/// The process of a hook that was fired.
pub open spec fn command_of(run: Option<(HookKind, HookCommand)>) -> Option<HookCommand> {
    match run {
        Some((kind, c)) => Some(c),
        None => None,
    }
}

/// A span in its two highest units.
pub fn fmt_short(d: Duration) -> (out: String)
    ensures
        out@ == short_text(d@),
{
    fmt_duration_short(d)
}

/// The notice that no more outage lines than `cap` are printed.
pub open spec fn cap_notice_text(cap: nat) -> Seq<char> {
    "… outage log capped at "@ + decimal(cap) + "; later outages still counted in the summary"@
}

/// The notice holds no line break.
pub(crate) proof fn lemma_cap_notice_one_line(cap: nat)
    ensures
        one_line(cap_notice_text(cap)),
{
    reveal_strlit("… outage log capped at ");
    reveal_strlit("; later outages still counted in the summary");
    lemma_numbers_one_line(cap);
}

/// The notice that no more outage lines are printed.
pub fn cap_notice(cap: u32) -> (out: String)
    ensures
        out@ == cap_notice_text(cap as nat),
{
    let mut out = String::new();
    out.append("… outage log capped at ");
    push_decimal(&mut out, cap as u128);
    out.append("; later outages still counted in the summary");
    assert(out@ =~= cap_notice_text(cap as nat));
    out
}

/// The panel's line about an outage that began at the time of day `start`.
pub open spec fn outage_summary_text(start: ClockTime, duration: nat) -> Seq<char> {
    "last outage: "@ + hour_minute_text(start) + " ("@ + short_text(duration) + ")"@
}

/// What the session has printed about outages is always a single line.
pub proof fn law_outage_texts_are_single_lines(start: ClockTime, duration: nat, cap: nat)
    ensures
        one_line(outage_summary_text(start, duration)),
        one_line(cap_notice_text(cap)),
{
    reveal_strlit("last outage: ");
    reveal_strlit(":");
    reveal_strlit(" (");
    reveal_strlit(")");
    lemma_numbers_one_line(start.hour as nat);
    lemma_numbers_one_line(start.min as nat);
    lemma_short_one_line(Some(duration));
    let span = crate::display::short_or_dash(Some(duration));
    assert(one_line(span) && span == short_text(duration));
    lemma_cap_notice_one_line(cap);
}

/// The panel's line about the last outage: when it began, to the minute, and
/// how long it took.
pub fn outage_summary(
    started_wall: SystemTime,
    started_local: Option<ClockTime>,
    duration: Duration,
) -> (out: String)
    ensures
        out@ == outage_summary_text(clock_at(started_wall@, started_local), duration@),
{
    let mut out = String::new();
    out.append("last outage: ");
    out.append(local_hm(started_wall, started_local).as_str());
    out.append(" (");
    out.append(fmt_short(duration).as_str());
    out.append(")");
    assert(out@ =~= outage_summary_text(clock_at(started_wall@, started_local), duration@));
    out
}

/// A number of tenths with its decimal point.
pub open spec fn tenths_text(tenths: nat) -> Seq<char> {
    decimal(tenths / 10) + "."@ + decimal(tenths % 10)
}

/// The loss over the whole session, in tenths of a percent.
pub open spec fn session_loss_tenths(stats: StatsView) -> nat {
    if stats.sent == 0 {
        0
    } else {
        half_even(((stats.sent - stats.received) * 1000) as nat, stats.sent)
    }
}

/// A span in whole milliseconds, without a unit.
pub open spec fn millis_text(nanos: nat) -> Seq<char> {
    decimal(nanos / (NANOS_PER_MILLI as nat))
}

/// The lines of the session summary. The average, the minimum and the maximum
/// are those of all replies of the session.
pub open spec fn summary(stats: StatsView, duration: nat, outage_count: nat) -> Seq<Seq<char>> {
    seq![
        "\n--- ekg summary ---"@,
        "session duration: "@ + short_text(duration),
        "sent: "@ + decimal(stats.sent) + "  received: "@ + decimal(stats.received),
        "loss: "@ + tenths_text(session_loss_tenths(stats)) + "%"@,
    ] + if stats.received > 0 {
        seq![
            "avg: "@ + millis_text(stats.session_avg()->0) + "ms  min: "@ + millis_text(
                stats.min_rtt->0@,
            ) + "ms  max: "@ + millis_text(stats.max_rtt->0@) + "ms"@,
        ]
    } else {
        seq![]
    } + seq!["outages: "@ + decimal(outage_count)]
}

/// The line of the summary with the average, the minimum and the maximum RTT.
fn rtt_line(avg: Duration, min: Duration, max: Duration) -> (out: String)
    ensures
        out@ == "avg: "@ + millis_text(avg@) + "ms  min: "@ + millis_text(min@) + "ms  max: "@
            + millis_text(max@) + "ms"@,
{
    let mut out = String::new();
    out.append("avg: ");
    push_decimal(&mut out, avg.as_millis());
    out.append("ms  min: ");
    push_decimal(&mut out, min.as_millis());
    out.append("ms  max: ");
    push_decimal(&mut out, max.as_millis());
    out.append("ms");
    assert(out@ =~= "avg: "@ + millis_text(avg@) + "ms  min: "@ + millis_text(min@) + "ms  max: "@
        + millis_text(max@) + "ms"@);
    out
}

/// The lines of the summary on what was sent, received and lost.
fn count_lines(stats: &Stats) -> (lines: (String, String))
    requires
        stats@.wf(),
    ensures
        lines.0@ == "sent: "@ + decimal(stats@.sent) + "  received: "@ + decimal(stats@.received),
        lines.1@ == "loss: "@ + tenths_text(session_loss_tenths(stats@)) + "%"@,
{
    let mut counts = String::new();
    counts.append("sent: ");
    push_decimal(&mut counts, stats.sent() as u128);
    counts.append("  received: ");
    push_decimal(&mut counts, stats.received() as u128);
    assert(counts@ =~= "sent: "@ + decimal(stats@.sent) + "  received: "@ + decimal(
        stats@.received,
    ));
    let tenths = stats.lifetime_loss_pct().to_tenths();
    let mut loss = String::new();
    loss.append("loss: ");
    push_decimal(&mut loss, tenths / 10);
    loss.append(".");
    push_decimal(&mut loss, tenths % 10);
    loss.append("%");
    assert(loss@ =~= "loss: "@ + tenths_text(session_loss_tenths(stats@)) + "%"@);
    (counts, loss)
}

/// The lines of the session summary: duration, sent and received, loss,
/// average, minimum and maximum RTT of the whole session where it had a reply,
/// and the number of outages.
pub fn summary_lines(stats: &Stats, duration: Duration, outage_count: u32) -> (lines: Vec<String>)
    requires
        stats@.wf(),
    ensures
        texts(lines@) == summary(stats@, duration@, outage_count as nat),
{
    let mut lines: Vec<String> = Vec::new();
    lines.push("\n--- ekg summary ---".to_string());
    let mut session = String::new();
    session.append("session duration: ");
    session.append(fmt_short(duration).as_str());
    assert(session@ =~= "session duration: "@ + short_text(duration@));
    lines.push(session);
    let (counts, loss) = count_lines(stats);
    lines.push(counts);
    lines.push(loss);
    if let (Some(avg), Some(min), Some(max)) = (
        stats.session_avg_rtt(),
        stats.min_rtt(),
        stats.max_rtt(),
    ) {
        lines.push(rtt_line(avg, min, max));
    }
    let mut outages = String::new();
    outages.append("outages: ");
    push_decimal(&mut outages, outage_count as u128);
    assert(outages@ =~= "outages: "@ + decimal(outage_count as nat));
    lines.push(outages);
    assert(texts(lines@) =~= summary(stats@, duration@, outage_count as nat));
    lines
}

/// The summary tells of the whole session, whatever the window: how many pings
/// were sent, received and lost, and, exactly where there was a reply, the
/// average, the minimum and the maximum over all replies.
pub proof fn law_summary_covers_session(
    window: nat,
    history: Seq<Sample>,
    duration: nat,
    outage_count: nat,
)
    ensures
        ({
            let lines = summary(after(window, history), duration, outage_count);
            let rtts = reply_nanos(history);
            &&& lines[2] == "sent: "@ + decimal(history.len()) + "  received: "@ + decimal(
                rtts.len(),
            )
            &&& history.len() > 0 ==> lines[3] == "loss: "@ + tenths_text(
                half_even(timeouts(history) * 1000, history.len()),
            ) + "%"@
            &&& lines.len() == if rtts.len() > 0 {
                6nat
            } else {
                5
            }
            &&& rtts.len() > 0 ==> lines[4] == "avg: "@ + millis_text(mean_floor(rtts))
                + "ms  min: "@ + millis_text(least(rtts)) + "ms  max: "@ + millis_text(
                greatest(rtts),
            ) + "ms"@
            &&& lines.last() == "outages: "@ + decimal(outage_count)
        }),
{
    law_session_counters(window, history);
    law_session_extremes(window, history);
    law_session_average(window, history);
}

/// The session after `arrivals`.
pub open spec fn run(window: nat, max_outages: Option<u32>, arrivals: Seq<Arrival>) -> SessionView
    decreases arrivals.len(),
{
    if arrivals.len() == 0 {
        SessionView::start(window, max_outages)
    } else {
        run(window, max_outages, arrivals.drop_last()).next(arrivals.last())
    }
}

/// What each of `arrivals` changed about the outages.
pub open spec fn transitions(
    window: nat,
    max_outages: Option<u32>,
    arrivals: Seq<Arrival>,
) -> Seq<TransitionView>
    decreases arrivals.len(),
{
    if arrivals.len() == 0 {
        seq![]
    } else {
        transitions(window, max_outages, arrivals.drop_last()).push(
            run(window, max_outages, arrivals.drop_last()).transition(arrivals.last()),
        )
    }
}

/// The samples of `arrivals`.
pub open spec fn samples_of(arrivals: Seq<Arrival>) -> Seq<Sample> {
    arrivals.map_values(|a: Arrival| sample_of(a.event))
}

/// How many timeouts `arrivals` ends with.
pub open spec fn trailing_timeouts(arrivals: Seq<Arrival>) -> nat
    decreases arrivals.len(),
{
    if arrivals.len() == 0 || arrivals.last().event is Reply {
        0
    } else {
        trailing_timeouts(arrivals.drop_last()) + 1
    }
}

/// How many outages began and ended in `arrivals`: each reply counts that
/// follows directly on at least as many timeouts as the threshold.
pub open spec fn outages_ended(arrivals: Seq<Arrival>) -> nat
    decreases arrivals.len(),
{
    if arrivals.len() == 0 {
        0
    } else {
        let before = arrivals.drop_last();
        outages_ended(before) + if arrivals.last().event is Reply && trailing_timeouts(before)
            >= OUTAGE_THRESHOLD {
            1nat
        } else {
            0
        }
    }
}

/// How many outages were declared.
pub open spec fn declared(ts: Seq<TransitionView>) -> nat
    decreases ts.len(),
{
    if ts.len() == 0 {
        0
    } else {
        declared(ts.drop_last()) + if ts.last() is Declared {
            1nat
        } else {
            0
        }
    }
}

/// How many outages ended.
pub open spec fn recovered(ts: Seq<TransitionView>) -> nat
    decreases ts.len(),
{
    if ts.len() == 0 {
        0
    } else {
        recovered(ts.drop_last()) + if ts.last() is Recovered {
            1nat
        } else {
            0
        }
    }
}

/// How many outages ended whose line satisfies `which`.
pub open spec fn lines_where(ts: Seq<TransitionView>, which: spec_fn(OutageLine) -> bool) -> nat
    decreases ts.len(),
{
    if ts.len() == 0 {
        0
    } else {
        lines_where(ts.drop_last(), which) + if ts.last() matches TransitionView::Recovered {
            started,
            duration,
            line,
        } && which(line) {
            1nat
        } else {
            0
        }
    }
}

/// How many outage lines were printed.
pub open spec fn lines_shown(ts: Seq<TransitionView>) -> nat {
    lines_where(ts, |line: OutageLine| line is Shown)
}

/// How many times the notice about the cap was printed.
pub open spec fn notices_shown(ts: Seq<TransitionView>) -> nat {
    lines_where(ts, |line: OutageLine| line is CapNotice)
}

/// The clock readings of all `arrivals` are within range.
pub open spec fn in_range(arrivals: Seq<Arrival>) -> bool {
    forall|i: int| 0 <= i < arrivals.len() ==> (#[trigger] arrivals[i]).wall <= MAX_NANOS
}

/// The state of a session follows from the outcomes so far: its statistics are
/// those of the samples, it counts the timeouts at their end, and an outage is
/// going on exactly where these have reached the threshold.
pub proof fn law_state_follows_history(
    window: nat,
    max_outages: Option<u32>,
    arrivals: Seq<Arrival>,
)
    requires
        in_range(arrivals),
    ensures
        ({
            let s = run(window, max_outages, arrivals);
            &&& s.wf()
            &&& s.stats == after(window, samples_of(arrivals))
            &&& s.stats.sent == arrivals.len()
            &&& s.consecutive_timeouts == trailing_timeouts(arrivals)
            &&& s.down is Some <==> trailing_timeouts(arrivals) >= OUTAGE_THRESHOLD
            &&& s.max_outages == max_outages
        }),
    decreases arrivals.len(),
{
    assert(samples_of(arrivals).len() == arrivals.len());
    law_session_counters(window, samples_of(arrivals));
    if arrivals.len() > 0 {
        let before = arrivals.drop_last();
        assert forall|i: int| 0 <= i < before.len() implies (#[trigger] before[i]).wall
            <= MAX_NANOS by {
            assert(before[i] == arrivals[i]);
        }
        law_state_follows_history(window, max_outages, before);
        assert(samples_of(arrivals).drop_last() =~= samples_of(before));
        assert(arrivals[arrivals.len() - 1].wall <= MAX_NANOS);
        law_recording_keeps_wf(
            run(window, max_outages, before).stats,
            sample_of(arrivals.last().event),
        );
    }
}

/// Outages are declared and ended in turn, beginning with a declaration: at any
/// time one more was declared than ended exactly while one is going on. The
/// session counts those that ended.
pub proof fn law_outages_alternate(window: nat, max_outages: Option<u32>, arrivals: Seq<Arrival>)
    requires
        in_range(arrivals),
    ensures
        ({
            let s = run(window, max_outages, arrivals);
            let ts = transitions(window, max_outages, arrivals);
            &&& ts.len() == arrivals.len()
            &&& declared(ts) - recovered(ts) == if s.down is Some {
                1int
            } else {
                0int
            }
            &&& s.outage_count == recovered(ts)
            &&& s.outage_count == outages_ended(arrivals)
        }),
    decreases arrivals.len(),
{
    if arrivals.len() > 0 {
        let before = arrivals.drop_last();
        lemma_in_range_before(arrivals);
        law_outages_alternate(window, max_outages, before);
        law_state_follows_history(window, max_outages, before);
        let ts = transitions(window, max_outages, arrivals);
        assert(ts.drop_last() =~= transitions(window, max_outages, before));
    }
}

/// The readings before the last are within range too.
proof fn lemma_in_range_before(arrivals: Seq<Arrival>)
    requires
        in_range(arrivals),
        arrivals.len() > 0,
    ensures
        in_range(arrivals.drop_last()),
{
    let before = arrivals.drop_last();
    assert forall|i: int| 0 <= i < before.len() implies (#[trigger] before[i]).wall <= MAX_NANOS by {
        assert(before[i] == arrivals[i]);
    }
}

/// Exactly one permanent line is printed for each outage that has ended, up to
/// the cap; past a cap above zero, one notice is printed, once.
pub proof fn law_outage_lines(window: nat, max_outages: Option<u32>, arrivals: Seq<Arrival>)
    ensures
        ({
            let s = run(window, max_outages, arrivals);
            let ts = transitions(window, max_outages, arrivals);
            &&& lines_shown(ts) == match max_outages {
                Some(cap) => if s.outage_count < cap {
                    s.outage_count
                } else {
                    cap as nat
                },
                None => s.outage_count,
            }
            &&& notices_shown(ts) == if s.cap_notice_printed {
                1nat
            } else {
                0
            }
            &&& s.cap_notice_printed <==> (max_outages matches Some(cap) && 0 < cap
                < s.outage_count)
            &&& s.max_outages == max_outages
        }),
    decreases arrivals.len(),
{
    if arrivals.len() > 0 {
        let before = arrivals.drop_last();
        law_outage_lines(window, max_outages, before);
        let ts = transitions(window, max_outages, arrivals);
        assert(ts.drop_last() =~= transitions(window, max_outages, before));
    }
}

/// The transition without what becomes of its line.
pub open spec fn without_line(t: TransitionView) -> TransitionView {
    match t {
        TransitionView::Recovered { started, duration, line } => TransitionView::Recovered {
            started,
            duration,
            line: OutageLine::Silent,
        },
        _ => t,
    }
}

/// The hook that a transition calls for, with its variables.
pub open spec fn hook_vars(host: Seq<char>, t: TransitionView) -> Option<
    (HookKind, Seq<(Seq<char>, Seq<char>)>),
> {
    match t {
        TransitionView::Steady => None,
        TransitionView::Declared { started } => Some(
            (HookKind::Outage, outage_vars(host, started)),
        ),
        TransitionView::Recovered { started, duration, line } => Some(
            (HookKind::Recovery, recovery_vars(host, started, duration)),
        ),
    }
}

/// The cap on outage lines applies to those lines alone: with any other cap
/// the same outages are declared and ended at the same times, the statistics
/// and the count are the same, each outcome is logged in the same records, and
/// it calls for the same hook with the same variables.
pub proof fn law_cap_limits_lines_only(
    window: nat,
    cap: Option<u32>,
    other: Option<u32>,
    arrivals: Seq<Arrival>,
    arrival: Arrival,
    host: Seq<char>,
)
    ensures
        ({
            let a = run(window, cap, arrivals);
            let b = run(window, other, arrivals);
            let t = a.transition(arrival);
            let u = b.transition(arrival);
            &&& a.stats == b.stats
            &&& a.consecutive_timeouts == b.consecutive_timeouts
            &&& a.down == b.down
            &&& a.last_recovery == b.last_recovery
            &&& a.outage_count == b.outage_count
            &&& without_line(t) == without_line(u)
            &&& records_of(host, arrival.wall, arrival.event, t) == records_of(
                host,
                arrival.wall,
                arrival.event,
                u,
            )
            &&& hook_vars(host, t) == hook_vars(host, u)
        }),
    decreases arrivals.len(),
{
    if arrivals.len() > 0 {
        law_cap_limits_lines_only(
            window,
            cap,
            other,
            arrivals.drop_last(),
            arrivals.last(),
            host,
        );
    }
}

/// A reply after fewer timeouts than the threshold is no recovery: no outage is
/// counted, nothing is reported, and the uptime goes on from where it began.
pub proof fn law_blip_is_no_outage(
    window: nat,
    max_outages: Option<u32>,
    arrivals: Seq<Arrival>,
    arrival: Arrival,
)
    requires
        in_range(arrivals),
        trailing_timeouts(arrivals) < OUTAGE_THRESHOLD,
        arrival.event is Reply,
    ensures
        ({
            let s = run(window, max_outages, arrivals);
            &&& s.transition(arrival) == TransitionView::Steady
            &&& s.next(arrival).last_recovery == s.last_recovery
            &&& s.next(arrival).outage_count == s.outage_count
        }),
{
    law_state_follows_history(window, max_outages, arrivals);
}

/// While an outage is going on, its start is the arrival of the timeout that
/// reached the threshold, on both clocks: this is what its end reports.
pub proof fn law_outage_starts_at_threshold(
    window: nat,
    max_outages: Option<u32>,
    arrivals: Seq<Arrival>,
)
    requires
        in_range(arrivals),
        trailing_timeouts(arrivals) >= OUTAGE_THRESHOLD,
    ensures
        trailing_timeouts(arrivals) <= arrivals.len(),
        ({
            let first = arrivals.len() - trailing_timeouts(arrivals) + OUTAGE_THRESHOLD - 1;
            run(window, max_outages, arrivals).down == Some(
                DownView { since: arrivals[first].now, wall: arrivals[first].wall },
            )
        }),
    decreases arrivals.len(),
{
    let before = arrivals.drop_last();
    lemma_in_range_before(arrivals);
    lemma_trailing_bound(arrivals);
    law_state_follows_history(window, max_outages, before);
    if trailing_timeouts(before) >= OUTAGE_THRESHOLD {
        law_outage_starts_at_threshold(window, max_outages, before);
    }
}

/// There are no more timeouts at the end than outcomes.
proof fn lemma_trailing_bound(arrivals: Seq<Arrival>)
    ensures
        trailing_timeouts(arrivals) <= arrivals.len(),
    decreases arrivals.len(),
{
    if arrivals.len() > 0 {
        lemma_trailing_bound(arrivals.drop_last());
    }
}

/// The exit status tells the loss over the whole session, whatever the window:
/// 0 where the share of timeouts among all samples stays within the allowance,
/// 1 otherwise. Without an allowance any timeout makes it 1; allowing all pings
/// to be lost, none does; and a session that is within one allowance is within
/// every greater one.
pub proof fn law_exit_status_tells_loss(window: nat, history: Seq<Sample>, ppm: nat, more: nat)
    requires
        ppm <= more,
    ensures
        ({
            let stats = after(window, history);
            &&& status_for(stats, ppm) == 0 <==> timeouts(history) * 1_000_000 <= ppm
                * history.len()
            &&& status_for(stats, ppm) == 0 || status_for(stats, ppm) == 1
            &&& status_for(stats, 0) == 0 <==> timeouts(history) == 0
            &&& status_for(stats, 1_000_000) == 0
            &&& status_for(stats, ppm) == 0 ==> status_for(stats, more) == 0
        }),
{
    law_session_counters(window, history);
    law_replies_and_timeouts(history);
    let n = history.len();
    assert(0 * n == 0) by (nonlinear_arith);
    assert(ppm * n <= more * n) by (nonlinear_arith)
        requires
            ppm <= more,
    ;
}

/// What follows from the outcomes alone, whatever the clocks read.
proof fn lemma_run_counts(window: nat, max_outages: Option<u32>, arrivals: Seq<Arrival>)
    ensures
        ({
            let s = run(window, max_outages, arrivals);
            &&& s.stats.sent == arrivals.len()
            &&& s.consecutive_timeouts == trailing_timeouts(arrivals)
            &&& s.consecutive_timeouts <= arrivals.len()
            &&& s.outage_count <= arrivals.len()
            &&& s.down is Some <==> trailing_timeouts(arrivals) >= 3
        }),
    decreases arrivals.len(),
{
    if arrivals.len() > 0 {
        lemma_run_counts(window, max_outages, arrivals.drop_last());
    }
}

/// The state after some timeouts in a row.
proof fn lemma_timeouts_in_a_row(
    window: nat,
    max_outages: Option<u32>,
    before: Seq<Arrival>,
    outs: Seq<Arrival>,
)
    requires
        before.len() == 0 || before.last().event is Reply,
        forall|k: int| 0 <= k < outs.len() ==> (#[trigger] outs[k]).event is Timeout,
    ensures
        ({
            let first = run(window, max_outages, before);
            let s = run(window, max_outages, before + outs);
            &&& s.consecutive_timeouts == outs.len()
            &&& outs.len() < 3 ==> s.down is None
            &&& outs.len() >= 3 ==> s.down == Some(
                DownView { since: outs[2].now, wall: outs[2].wall },
            )
            &&& s.outage_count == first.outage_count
            &&& s.last_recovery == first.last_recovery
            &&& s.cap_notice_printed == first.cap_notice_printed
            &&& s.max_outages == first.max_outages
        }),
    decreases outs.len(),
{
    if outs.len() == 0 {
        assert(before + outs =~= before);
        lemma_run_counts(window, max_outages, before);
    } else {
        let init = outs.drop_last();
        assert forall|k: int| 0 <= k < init.len() implies (#[trigger] init[k]).event is Timeout by {
            assert(init[k] == outs[k]);
        }
        lemma_timeouts_in_a_row(window, max_outages, before, init);
        assert((before + outs).drop_last() =~= before + init);
        assert((before + outs).last() == outs[outs.len() - 1]);
    }
}

/// Timeouts in a row, after a reply or at the beginning, and the reply that
/// follows them, whatever happened before: the third timeout declares an outage
/// at its own time, and no other declares or ends one. Where there were three or
/// more, the reply ends that outage, which is reported to have begun at the
/// third timeout, on the wall clock, and to have lasted from that same timeout to
/// the reply on the session's clock. Where there were fewer, the reply ends
/// nothing.
pub proof fn law_outage_is_reported(
    window: nat,
    max_outages: Option<u32>,
    before: Seq<Arrival>,
    outs: Seq<Arrival>,
    reply: Arrival,
    k: int,
)
    requires
        before.len() == 0 || before.last().event is Reply,
        forall|j: int| 0 <= j < outs.len() ==> (#[trigger] outs[j]).event is Timeout,
        reply.event is Reply,
    ensures
        0 <= k < outs.len() ==> run(window, max_outages, before + outs.take(k)).transition(outs[k])
            == (if k == 2 {
            TransitionView::Declared { started: outs[2].wall }
        } else {
            TransitionView::Steady
        }),
        ({
            let first = run(window, max_outages, before);
            let s = run(window, max_outages, before + outs);
            let after = s.next(reply);
            if outs.len() >= 3 {
                &&& s.transition(reply) matches TransitionView::Recovered {
                    started,
                    duration,
                    line,
                } && {
                    &&& started == outs[2].wall
                    &&& outs[2].now <= reply.now ==> outs[2].now + duration == reply.now
                    &&& outs[2].now >= reply.now ==> duration == 0
                }
                &&& after.outage_count == first.outage_count + 1
                &&& after.last_recovery == reply.now
                &&& after.down is None
            } else {
                &&& s.transition(reply) == TransitionView::Steady
                &&& after.outage_count == first.outage_count
                &&& after.last_recovery == first.last_recovery
                &&& after.down is None
            }
        }),
{
    lemma_timeouts_in_a_row(window, max_outages, before, outs);
    if 0 <= k < outs.len() {
        let some = outs.take(k);
        assert forall|j: int| 0 <= j < some.len() implies (#[trigger] some[j]).event is Timeout by {
            assert(some[j] == outs[j]);
        }
        lemma_timeouts_in_a_row(window, max_outages, before, some);
        assert(outs[k].event is Timeout);
    }
}

/// While an outage is going on the panel shows for how long: since its third
/// timeout. At all other times it shows for how long the connection has been up.
pub proof fn law_down_since_third_timeout(
    window: nat,
    max_outages: Option<u32>,
    before: Seq<Arrival>,
    outs: Seq<Arrival>,
)
    requires
        before.len() == 0 || before.last().event is Reply,
        forall|j: int| 0 <= j < outs.len() ==> (#[trigger] outs[j]).event is Timeout,
    ensures
        ({
            let s = run(window, max_outages, before + outs);
            &&& s.down is Some <==> outs.len() >= 3
            &&& s.down matches Some(down) ==> down.since == outs[2].now && down.wall
                == outs[2].wall
        }),
{
    lemma_timeouts_in_a_row(window, max_outages, before, outs);
}

/// The `i`-th of `arrivals` ends an outage: it is a reply that follows directly
/// on three or more timeouts.
pub open spec fn ends_outage(arrivals: Seq<Arrival>, i: int) -> bool {
    &&& 0 <= i < arrivals.len()
    &&& arrivals[i].event is Reply
    &&& trailing_timeouts(arrivals.take(i)) >= 3
}

/// The uptime counts from the reply that ended the last outage, or from the
/// beginning of the session where none has ended.
pub proof fn law_uptime_since_last_outage(
    window: nat,
    max_outages: Option<u32>,
    arrivals: Seq<Arrival>,
)
    ensures
        ({
            let s = run(window, max_outages, arrivals);
            ||| s.last_recovery == 0 && forall|i: int| !#[trigger] ends_outage(arrivals, i)
            ||| exists|i: int|
                {
                    &&& #[trigger] ends_outage(arrivals, i)
                    &&& s.last_recovery == arrivals[i].now
                    &&& forall|j: int| j > i ==> !#[trigger] ends_outage(arrivals, j)
                }
        }),
    decreases arrivals.len(),
{
    if arrivals.len() > 0 {
        let before = arrivals.drop_last();
        let n = arrivals.len() - 1;
        law_uptime_since_last_outage(window, max_outages, before);
        lemma_run_counts(window, max_outages, before);
        assert(arrivals.take(n) =~= before);
        assert forall|i: int| i < n implies #[trigger] ends_outage(arrivals, i) == ends_outage(
            before,
            i,
        ) by {
            if 0 <= i {
                assert(arrivals.take(i) =~= before.take(i));
            }
        }
        let s = run(window, max_outages, arrivals);
        let prior = run(window, max_outages, before);
        if ends_outage(arrivals, n) {
            assert(s.last_recovery == arrivals[n].now);
            assert forall|j: int| j > n implies !#[trigger] ends_outage(arrivals, j) by {}
        } else {
            assert(s.last_recovery == prior.last_recovery);
            if exists|i: int|
                {
                    &&& #[trigger] ends_outage(before, i)
                    &&& prior.last_recovery == before[i].now
                    &&& forall|j: int| j > i ==> !#[trigger] ends_outage(before, j)
                } {
                let i = choose|i: int|
                    {
                        &&& #[trigger] ends_outage(before, i)
                        &&& prior.last_recovery == before[i].now
                        &&& forall|j: int| j > i ==> !#[trigger] ends_outage(before, j)
                    };
                assert(ends_outage(arrivals, i));
                assert forall|j: int| j > i implies !#[trigger] ends_outage(arrivals, j) by {
                    if j < n {
                        assert(!ends_outage(before, j));
                    }
                }
            } else {
                assert forall|i: int| !#[trigger] ends_outage(arrivals, i) by {
                    if i < n {
                        assert(!ends_outage(before, i));
                    }
                }
            }
        }
    }
}

/// What becomes of the line of an outage that ends after `n` earlier ones: it is
/// printed where no cap is given or `n` is below it; the first one past a cap
/// above zero gives way to a notice that names the cap; the others are left out.
pub proof fn law_cap_decides_each_line(
    window: nat,
    max_outages: Option<u32>,
    arrivals: Seq<Arrival>,
    arrival: Arrival,
)
    ensures
        ({
            let s = run(window, max_outages, arrivals);
            s.transition(arrival) matches TransitionView::Recovered { started, duration, line }
                ==> {
                &&& max_outages is None ==> line == OutageLine::Shown
                &&& max_outages matches Some(cap) ==> {
                    &&& s.outage_count < cap ==> line == OutageLine::Shown
                    &&& s.outage_count == cap && cap > 0 ==> line == OutageLine::CapNotice(cap)
                    &&& s.outage_count > cap || cap == 0 ==> line == OutageLine::Silent
                }
            }
        }),
{
    law_outage_lines(window, max_outages, arrivals);
}

/// A session has room for any outcome before its counters are full: no session
/// of fewer than 2 to the 32 outcomes less one is ever turned away.
pub proof fn law_sessions_have_room(
    window: nat,
    max_outages: Option<u32>,
    arrivals: Seq<Arrival>,
    event: PingEvent,
)
    requires
        arrivals.len() < 0xffff_ffff,
    ensures
        run(window, max_outages, arrivals).has_room(event),
{
    lemma_run_counts(window, max_outages, arrivals);
}

/// Each outcome is logged as one sample, a reply with its RTT and a timeout
/// without; the declaration of an outage is logged after it at its own time, and
/// the end of one at the start plus the duration, with its length in whole
/// milliseconds.
pub proof fn law_outcomes_are_logged(
    host: Seq<char>,
    wall: int,
    event: PingEvent,
    started: int,
    duration: nat,
    line: OutageLine,
    duration_ms: nat,
)
    requires
        duration_ms * 1_000_000 <= duration < (duration_ms + 1) * 1_000_000,
    ensures
        ({
            let sample = records_of(host, wall, event, TransitionView::Steady);
            let start = records_of(host, wall, event, TransitionView::Declared { started });
            let end = records_of(
                host,
                wall,
                event,
                TransitionView::Recovered { started, duration, line },
            );
            &&& event matches PingEvent::Reply(d) ==> sample == object(
                sample_fields(epoch_millis(wall), host, Some(d@)),
            ).push('\n')
            &&& event is Timeout ==> sample == object(
                sample_fields(epoch_millis(wall), host, None),
            ).push('\n')
            &&& start == sample + object(outage_start_fields(epoch_millis(started), host)).push(
                '\n',
            )
            &&& end == sample + object(
                outage_end_fields(epoch_millis(started + duration), host, duration_ms),
            ).push('\n')
        }),
{
    assert(duration / (NANOS_PER_MILLI as nat) == duration_ms);
    let sample = records_of(host, wall, event, TransitionView::Steady);
    assert(sample =~= object(sample_fields(epoch_millis(wall), host, rtt_of(event))).push('\n'));
    let start = records_of(host, wall, event, TransitionView::Declared { started });
    assert(start =~= sample + object(outage_start_fields(epoch_millis(started), host)).push('\n'));
    let end = records_of(host, wall, event, TransitionView::Recovered { started, duration, line });
    assert(end =~= sample + object(
        outage_end_fields(epoch_millis(started + duration), host, duration_ms),
    ).push('\n'));
}

/// A number of tenths is written with one digit after its point, and reads back
/// as that number; the part before the point is written like any whole number.
pub proof fn law_tenths_read_back(tenths: nat)
    ensures
        ({
            let s = tenths_text(tenths);
            let point = point_at(s) as int;
            let before = decimal_value(s.take(point));
            let after = decimal_value(s.skip(point + 1));
            &&& point + 2 == s.len()
            &&& s[point] == '.'
            &&& all_digits(s.take(point)) && all_digits(s.skip(point + 1))
            &&& s.take(point) == decimal(before)
            &&& 10 * before + after == tenths
            &&& after < 10
        }),
{
    reveal_strlit(".");
    let whole = decimal(tenths / 10);
    let part = decimal(tenths % 10);
    let s = tenths_text(tenths);
    let rest = "."@ + part;
    lemma_decimal_digits(tenths / 10);
    lemma_decimal_digits(tenths % 10);
    law_decimal_reads_back(tenths / 10);
    law_decimal_reads_back(tenths % 10);
    lemma_point_behind_digits(whole, rest);
    assert(whole + rest =~= s);
    assert(s.take(whole.len() as int) =~= whole);
    assert(s.skip(whole.len() as int + 1) =~= part);
}

/// The loss of a session is the share of pings without a reply, to the nearest
/// tenth of a percent.
pub proof fn law_session_loss_is_nearest(window: nat, history: Seq<Sample>)
    ensures
        ({
            let tenths = session_loss_tenths(after(window, history));
            let n = history.len();
            &&& n == 0 ==> tenths == 0
            &&& n > 0 ==> 2 * (tenths * n) <= 2000 * timeouts(history) + n
            &&& n > 0 ==> 2000 * timeouts(history) <= 2 * (tenths * n) + n
        }),
{
    law_session_counters(window, history);
    if history.len() > 0 {
        law_half_even_is_nearest(timeouts(history) * 1000, history.len());
    }
}

/// A span in whole milliseconds reads back as the millisecond it ends in.
pub proof fn law_millis_read_back(nanos: nat)
    ensures
        ({
            let ms = decimal_value(millis_text(nanos));
            &&& millis_text(nanos) == decimal(ms)
            &&& ms * 1_000_000 <= nanos < (ms + 1) * 1_000_000
        }),
{
    law_decimal_reads_back(nanos / (NANOS_PER_MILLI as nat));
}

/// The summary begins with its heading and the duration, tells the loss in any
/// case, and ends with the outages.
pub proof fn law_summary_texts(stats: StatsView, duration: nat, outage_count: nat)
    ensures
        ({
            let lines = summary(stats, duration, outage_count);
            &&& lines[0] == "\n--- ekg summary ---"@
            &&& lines[1] == "session duration: "@ + short_text(duration)
            &&& lines[2] == "sent: "@ + decimal(stats.sent) + "  received: "@ + decimal(
                stats.received,
            )
            &&& lines[3] == "loss: "@ + tenths_text(session_loss_tenths(stats)) + "%"@
            &&& lines.last() == "outages: "@ + decimal(outage_count)
            &&& stats.received == 0 <==> lines.len() == 5
            &&& stats.received > 0 <==> lines.len() == 6
        }),
{
}

/// The texts about outages: the notice names the cap, and the panel's line tells
/// the time of day to the minute and the duration.
pub proof fn law_outage_texts(cap: nat, start: ClockTime, duration: nat)
    ensures
        cap_notice_text(cap) == "… outage log capped at "@ + decimal(cap)
            + "; later outages still counted in the summary"@,
        outage_summary_text(start, duration) == "last outage: "@ + two_digits(start.hour as nat)
            + ":"@ + two_digits(start.min as nat) + " ("@ + short_text(duration) + ")"@,
{
    assert(outage_summary_text(start, duration) =~= "last outage: "@ + two_digits(
        start.hour as nat,
    ) + ":"@ + two_digits(start.min as nat) + " ("@ + short_text(duration) + ")"@);
}

/// What a session and a transition are told by: their own fields.
pub proof fn law_session_is_told_by_its_fields(s: Session, t: Transition)
    ensures
        s@.stats == s.stats@,
        s@.consecutive_timeouts == s.consecutive_timeouts,
        s@.down is Some <==> s.down is Some,
        s.down matches Some(down) ==> s@.down == Some(
            DownView { since: down.since@, wall: down.wall@ },
        ),
        s@.last_recovery == s.last_recovery@,
        s@.outage_count == s.outage_count,
        s@.cap_notice_printed == s.cap_notice_printed,
        s@.max_outages == s.max_outages,
        match t {
            Transition::Steady => t@ == TransitionView::Steady,
            Transition::Declared { started } => t@ == (TransitionView::Declared {
                started: started@,
            }),
            Transition::Recovered { started, ended, duration, line } => t@ == (
            TransitionView::Recovered { started: started@, duration: duration@, line }),
        },
{
}

/// The process of a hook that was fired is the one that was handed out.
pub proof fn law_command_of_run(kind: HookKind, c: HookCommand)
    ensures
        command_of(None) is None,
        command_of(Some((kind, c))) == Some(c),
{
}

/// A session tells either for how long the connection has been down or for how
/// long it has been up, never both: the one leads from the declaration of the
/// outage to now, the other from the last recovery to now.
pub proof fn law_either_down_or_up(
    s: Session,
    now: Duration,
    down: Option<Duration>,
    up: Option<Duration>,
)
    requires
        call_ensures(Session::down_for, (&s, now), down),
        call_ensures(Session::uptime, (&s, now), up),
    ensures
        down is Some <==> s.down is Some,
        up is Some <==> s.down is None,
        (down matches Some(d) && s.down->0.since@ <= now@) ==> s.down->0.since@ + down->0@ == now@,
        (up is Some && s.last_recovery@ <= now@) ==> s.last_recovery@ + up->0@ == now@,
{
}

/// The exit status of a session is 0 exactly where the share of timeouts in its
/// history stays within the allowance, and otherwise 1; a counted session is
/// complete exactly once it has taken in that many outcomes.
pub proof fn law_counted_session(
    s: Session,
    window: nat,
    history: Seq<Sample>,
    ppm: u64,
    status: u8,
    count: Option<u64>,
    complete: bool,
)
    requires
        s@.wf(),
        s.stats@ == after(window, history),
        call_ensures(Session::exit_status, (&s, ppm), status),
        call_ensures(Session::is_complete, (&s, count), complete),
    ensures
        status == 0 <==> timeouts(history) * 1_000_000 <= ppm * history.len(),
        status == 0 || status == 1,
        count is None ==> !complete,
        count matches Some(n) ==> (complete <==> history.len() >= n),
{
    law_exit_status_tells_loss(window, history, ppm as nat, ppm as nat);
    law_session_counters(window, history);
}

/// The lines of the summary tell the whole history, whatever the window: the
/// loss is the share of its timeouts, to the nearest tenth of a percent, and the
/// average, the minimum and the maximum are those of all its replies.
pub proof fn law_summary_lines_tell_history(
    stats: &Stats,
    window: nat,
    history: Seq<Sample>,
    duration: Duration,
    outage_count: u32,
    lines: Vec<String>,
)
    requires
        stats@ == after(window, history),
        call_ensures(summary_lines, (stats, duration, outage_count), lines),
    ensures
        ({
            let xs = reply_nanos(history);
            let last = lines@.len() - 1;
            &&& lines@.len() == if xs.len() > 0 {
                6nat
            } else {
                5
            }
            &&& lines@[0]@ == "\n--- ekg summary ---"@
            &&& lines@[1]@ == "session duration: "@ + short_text(duration@)
            &&& lines@[2]@ == "sent: "@ + decimal(history.len()) + "  received: "@ + decimal(
                xs.len(),
            )
            &&& xs.len() > 0 ==> lines@[4]@ == "avg: "@ + millis_text(mean_floor(xs)) + "ms  min: "@
                + millis_text(least(xs)) + "ms  max: "@ + millis_text(greatest(xs)) + "ms"@
            &&& lines@[last]@ == "outages: "@ + decimal(outage_count as nat)
        }),
        ({
            let text = lines@[3]@;
            let n = history.len();
            exists|tenths: nat|
                {
                    &&& text == "loss: "@ + #[trigger] tenths_text(tenths) + "%"@
                    &&& n == 0 ==> tenths == 0
                    &&& n > 0 ==> 2 * (tenths * n) <= 2000 * timeouts(history) + n
                    &&& n > 0 ==> 2000 * timeouts(history) <= 2 * (tenths * n) + n
                }
        }),
{
    law_summary_covers_session(window, history, duration@, outage_count as nat);
    law_session_counters(window, history);
    law_session_loss_is_nearest(window, history);
    let all = summary(stats@, duration@, outage_count as nat);
    assert(texts(lines@).len() == lines@.len());
    assert forall|i: int| 0 <= i < lines@.len() implies all[i] == (#[trigger] lines@[i])@ by {
        assert(texts(lines@)[i] == lines@[i]@);
    }
    let tenths = session_loss_tenths(stats@);
    assert(lines@[3]@ == "loss: "@ + tenths_text(tenths) + "%"@);
}

/// A session that takes in a reply after timeouts in a row, whatever happened
/// before them: after three or more it reports the end of an outage that began
/// with the third of them, on the wall clock, and lasted from that same timeout to
/// the reply, and ended that much later; after fewer it reports nothing.
pub proof fn law_reply_after_timeouts(
    s: &mut Session,
    window: nat,
    max_outages: Option<u32>,
    before: Seq<Arrival>,
    outs: Seq<Arrival>,
    rtt: Duration,
    now: Duration,
    wall: SystemTime,
    t: Transition,
)
    requires
        before.len() == 0 || before.last().event is Reply,
        forall|j: int| 0 <= j < outs.len() ==> (#[trigger] outs[j]).event is Timeout,
        old(s)@ == run(window, max_outages, before + outs),
        call_ensures(Session::apply_event, (s, PingEvent::Reply(rtt), now, wall), t),
    ensures
        outs.len() < 3 ==> t == Transition::Steady,
        outs.len() >= 3 ==> (t matches Transition::Recovered { started, ended, duration, line } && {
            &&& started@ == outs[2].wall
            &&& ended@ == started@ + duration@
            &&& outs[2].now <= now@ ==> outs[2].now + duration@ == now@
            &&& outs[2].now >= now@ ==> duration@ == 0
        }),
        final(s).down is None,
        final(s).consecutive_timeouts == 0,
        final(s).outage_count == old(s).outage_count + if outs.len() >= 3 {
            1int
        } else {
            0
        },
        outs.len() >= 3 ==> final(s).last_recovery@ == now@,
        outs.len() < 3 ==> final(s).last_recovery@ == old(s).last_recovery@,
{
    let reply = Arrival { event: PingEvent::Reply(rtt), now: now@, wall: wall@ };
    law_outage_is_reported(window, max_outages, before, outs, reply, 0);
    lemma_timeouts_in_a_row(window, max_outages, before, outs);
}

/// A session that takes in a timeout declares an outage exactly where two
/// timeouts in a row, and no more, came before it: at this timeout, on both
/// clocks. It never ends one.
pub proof fn law_timeout_in_a_row(
    s: &mut Session,
    window: nat,
    max_outages: Option<u32>,
    before: Seq<Arrival>,
    outs: Seq<Arrival>,
    now: Duration,
    wall: SystemTime,
    t: Transition,
)
    requires
        before.len() == 0 || before.last().event is Reply,
        forall|j: int| 0 <= j < outs.len() ==> (#[trigger] outs[j]).event is Timeout,
        old(s)@ == run(window, max_outages, before + outs),
        call_ensures(Session::apply_event, (s, PingEvent::Timeout, now, wall), t),
    ensures
        outs.len() == 2 ==> (t matches Transition::Declared { started } && started@ == wall@),
        outs.len() != 2 ==> t == Transition::Steady,
        outs.len() == 2 ==> (final(s).down matches Some(down) && down.since@ == now@ && down.wall@
            == wall@),
        final(s).outage_count == old(s).outage_count,
        final(s).last_recovery@ == old(s).last_recovery@,
{
    lemma_timeouts_in_a_row(window, max_outages, before, outs);
}

/// The texts about outages that are shown: the notice with its cap, and the
/// panel's line with the time of day to the minute and the duration.
pub proof fn law_shown_outage_texts(
    cap: u32,
    notice: String,
    t: SystemTime,
    local: ClockTime,
    duration: Duration,
    line: String,
    short: String,
)
    requires
        call_ensures(cap_notice, (cap,), notice),
        call_ensures(outage_summary, (t, Some(local), duration), line),
        call_ensures(fmt_short, (duration,), short),
    ensures
        notice@ == "… outage log capped at "@ + decimal(cap as nat)
            + "; later outages still counted in the summary"@,
        line@ == "last outage: "@ + two_digits(local.hour as nat) + ":"@ + two_digits(
            local.min as nat,
        ) + " ("@ + short@ + ")"@,
{
    law_outage_texts(cap as nat, local, duration@);
}

/// A new session is one that nothing has arrived in, and a session that takes in
/// an outcome is one that it has arrived in, after what arrived before. A session
/// turns an outcome away only where a counter is full.
pub proof fn law_session_extends_history(
    window: usize,
    max_outages: Option<u32>,
    fresh: Session,
    s: &mut Session,
    arrivals: Seq<Arrival>,
    event: PingEvent,
    now: Duration,
    wall: SystemTime,
    t: Transition,
    can: bool,
)
    requires
        call_ensures(Session::new, (window, max_outages), fresh),
        old(s)@ == run(window as nat, max_outages, arrivals),
        call_ensures(Session::apply_event, (s, event, now, wall), t),
        call_ensures(Session::can_take, (&fresh, event), can),
    ensures
        can,
        fresh@ == run(window as nat, max_outages, seq![]),
        final(s)@ == run(
            window as nat,
            max_outages,
            arrivals.push(Arrival { event, now: now@, wall: wall@ }),
        ),
        final(s)@.stats.sent == arrivals.len() + 1,
        final(s)@.max_outages == max_outages,
{
    let all = arrivals.push(Arrival { event, now: now@, wall: wall@ });
    assert(all.drop_last() =~= arrivals);
    lemma_run_counts(window as nat, max_outages, all);
    law_outage_lines(window as nat, max_outages, all);
}

/// The hooks follow the outages: the declaration of one fires the user's
/// `--on-outage` command, and its end the `--on-recovery` command, if there is
/// one and none of its kind is running, with the host, the start and, at the end,
/// the length of that outage. Nothing else fires or changes any.
pub proof fn law_hooks_follow_outages(
    hooks: &mut Hooks,
    host: &str,
    t: Transition,
    on_outage: Option<&str>,
    on_recovery: Option<&str>,
    shell: Option<String>,
    fired_hook: Option<(HookKind, HookCommand)>,
)
    requires
        call_ensures(fire_hooks, (hooks, host, t, on_outage, on_recovery, shell), fired_hook),
    ensures
        t is Steady ==> fired_hook is None && final(hooks)@ == old(hooks)@,
        t matches Transition::Declared { started } ==> {
            &&& fired_hook is Some <==> on_outage is Some && !old(hooks)@.outage_running
            &&& fired_hook matches Some((kind, c)) ==> {
                &&& kind == HookKind::Outage
                &&& c@.args[4] == on_outage->0@
                &&& c@.env == outage_vars(host@, started@)
            }
            &&& final(hooks)@.outage_running == (on_outage is Some || old(hooks)@.outage_running)
            &&& final(hooks)@.recovery_running == old(hooks)@.recovery_running
        },
        t matches Transition::Recovered { started, ended, duration, line } ==> {
            &&& fired_hook is Some <==> on_recovery is Some && !old(hooks)@.recovery_running
            &&& fired_hook matches Some((kind, c)) ==> {
                &&& kind == HookKind::Recovery
                &&& c@.args[4] == on_recovery->0@
                &&& c@.env == recovery_vars(host@, started@, duration@)
            }
            &&& final(hooks)@.recovery_running == (on_recovery is Some
                || old(hooks)@.recovery_running)
            &&& final(hooks)@.outage_running == old(hooks)@.outage_running
        },
{
}

/// Each outcome is logged once: a sample and, where it declared or ended an
/// outage, that, with the start and the length that were reported.
pub proof fn law_log_follows_outages(
    r: &mut Recorder,
    host: &str,
    wall: SystemTime,
    event: PingEvent,
    t: Transition,
    unit: (),
    duration_ms: nat,
)
    requires
        call_ensures(log_event, (r, host, wall, event, t), unit),
        t matches Transition::Recovered { started, ended, duration, line } ==> duration_ms
            * 1_000_000 <= duration@ < (duration_ms + 1) * 1_000_000,
    ensures
        ({
            let rtt = match event {
                PingEvent::Reply(d) => Some(d@),
                PingEvent::Timeout => None,
            };
            let sample = object(sample_fields(epoch_millis(wall@), host@, rtt)).push('\n');
            match t {
                Transition::Steady => final(r)@ == old(r)@ + sample,
                Transition::Declared { started } => final(r)@ == old(r)@ + (sample + object(
                    outage_start_fields(epoch_millis(started@), host@),
                ).push('\n')),
                Transition::Recovered { started, ended, duration, line } => final(r)@ == old(r)@ + (
                sample + object(
                    outage_end_fields(epoch_millis(started@ + duration@), host@, duration_ms),
                ).push('\n')),
            }
        }),
{
    match t {
        Transition::Steady => {
            law_outcomes_are_logged(host@, wall@, event, 0, 0, OutageLine::Silent, 0);
        },
        Transition::Declared { started } => {
            law_outcomes_are_logged(host@, wall@, event, started@, 0, OutageLine::Silent, 0);
        },
        Transition::Recovered { started, ended, duration, line } => {
            law_outcomes_are_logged(
                host@,
                wall@,
                event,
                started@,
                duration@,
                line,
                duration_ms,
            );
        },
    }
}

} // verus!
