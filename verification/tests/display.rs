use ekg::display::{
    color_for, fmt_duration_short, fmt_hms, fmt_ms, local_hm, local_hms, quality, spark_char, ClockTime,
    Color, Display, Quality, TermOp, OUTAGE_THRESHOLD,
};
use ekg::stats::{Loss, Sample, Stats};
use ekg::time::{Duration, SystemTime};

fn ms(n: u64) -> Duration {
    Duration::from_millis(n)
}

fn no_loss() -> Loss {
    Loss { lost: 0, total: 60 }
}

fn clock(hour: u32, min: u32, sec: u32) -> ClockTime {
    ClockTime { hour, min, sec }
}

/// The text that the operations print, without colors and cursor movements.
fn printed(ops: &[TermOp]) -> String {
    let mut out = String::new();
    for op in ops {
        if let TermOp::Print(s) = op {
            out.push_str(s);
        }
    }
    out
}

/// Performs operations on a screen of rows that are `width` columns wide.
struct Screen {
    width: usize,
    row: usize,
    rows: Vec<String>,
}

impl Screen {
    fn new(width: usize) -> Screen {
        Screen {
            width,
            row: 0,
            rows: vec![String::new()],
        }
    }

    fn perform(&mut self, ops: &[TermOp]) {
        for op in ops {
            match op {
                TermOp::MoveUp(n) => self.row -= *n as usize,
                TermOp::MoveDown(n) => self.row += *n as usize,
                TermOp::ClearLine => self.rows[self.row].clear(),
                TermOp::Print(s) => {
                    for c in s.chars() {
                        if c == '\n' || self.rows[self.row].chars().count() >= self.width {
                            self.row += 1;
                        }
                        if self.rows.len() == self.row {
                            self.rows.push(String::new());
                        }
                        if c != '\n' {
                            self.rows[self.row].push(c);
                        }
                    }
                }
                _ => {}
            }
        }
    }

    fn text(&self) -> String {
        self.rows.join("\n")
    }
}

#[test]
fn quality_by_latency_and_loss() {
    assert_eq!(quality(Some(ms(59)), no_loss(), false), Quality::Good);
    assert_eq!(
        quality(Some(Duration::new(0, 59_999_999)), no_loss(), false),
        Quality::Good
    );
    assert_eq!(quality(Some(ms(60)), no_loss(), false), Quality::Elevated);
    assert_eq!(quality(None, no_loss(), false), Quality::Good);
    assert_eq!(quality(Some(ms(10)), no_loss(), true), Quality::Down);
    assert_eq!(
        quality(Some(ms(10)), Loss { lost: 1, total: 100 }, false),
        Quality::Elevated
    );
    assert_eq!(
        quality(Some(ms(10)), Loss { lost: 1, total: 101 }, false),
        Quality::Good
    );
    assert_eq!(
        quality(Some(ms(10)), Loss { lost: 12, total: 60 }, false),
        Quality::Down
    );
    assert_eq!(
        quality(Some(ms(90)), Loss { lost: 11, total: 60 }, false),
        Quality::Elevated
    );
    assert_eq!(
        quality(None, Loss { lost: 0, total: 0 }, false),
        Quality::Good
    );
}

#[test]
fn colors_of_qualities() {
    assert_eq!(color_for(Quality::Good), Color::Green);
    assert_eq!(color_for(Quality::Elevated), Color::Yellow);
    assert_eq!(color_for(Quality::Down), Color::Red);
}

#[test]
fn outage_needs_three_timeouts() {
    assert_eq!(OUTAGE_THRESHOLD, 3);
}

#[test]
fn milliseconds_are_whole() {
    assert_eq!(fmt_ms(Duration::new(0, 12_999_999)), "12ms");
    assert_eq!(fmt_ms(Duration::from_secs(0)), "0ms");
    assert_eq!(fmt_ms(Duration::from_secs(3)), "3000ms");
}

#[test]
fn durations_show_their_two_highest_units() {
    assert_eq!(fmt_duration_short(Duration::from_secs(0)), "0s");
    assert_eq!(fmt_duration_short(Duration::from_secs(36)), "36s");
    assert_eq!(fmt_duration_short(Duration::from_millis(59_999)), "59s");
    assert_eq!(fmt_duration_short(Duration::from_secs(60)), "1m0s");
    assert_eq!(fmt_duration_short(Duration::from_secs(3599)), "59m59s");
    assert_eq!(fmt_duration_short(Duration::from_secs(3600)), "1h0m");
    assert_eq!(
        fmt_duration_short(Duration::from_secs(2 * 3600 + 14 * 60 + 59)),
        "2h14m"
    );
    assert_eq!(
        fmt_duration_short(Duration::from_secs(u64::MAX)),
        "5124095576030431h0m"
    );
}

#[test]
fn clock_times_are_padded() {
    assert_eq!(fmt_hms(clock(14, 32, 5)), "14:32:05");
    assert_eq!(fmt_hms(clock(0, 0, 0)), "00:00:00");
    assert_eq!(fmt_hms(clock(23, 59, 60)), "23:59:60");
}

#[test]
fn local_time_is_used_where_known() {
    let t = SystemTime::after_epoch(Duration::from_millis(1_690_300_003_123));
    assert_eq!(local_hms(t, Some(clock(17, 46, 43))), "17:46:43");
    assert_eq!(local_hms(t, None), "15:46:43");
    let before = SystemTime::before_epoch(Duration::from_secs(1));
    assert_eq!(local_hms(before, None), "00:00:00");
}

#[test]
fn hours_and_minutes_alone() {
    let t = SystemTime::after_epoch(Duration::from_millis(1_690_300_003_123));
    assert_eq!(local_hm(t, Some(clock(7, 6, 43))), "07:06");
    assert_eq!(local_hm(t, None), "15:46");
}

#[test]
fn spark_chars_by_level() {
    let bars: String = (0..8).map(spark_char).collect();
    assert_eq!(bars, "▁▂▃▄▅▆▇█");
}

#[test]
fn cursor_is_hidden_and_restored_once() {
    let mut d = Display::new();
    assert_eq!(d.restore_cursor(), vec![]);
    assert_eq!(d.hide_cursor(), vec![TermOp::HideCursor]);
    assert_eq!(d.restore_cursor(), vec![TermOp::ShowCursor]);
    assert_eq!(d.restore_cursor(), vec![]);
}

#[test]
fn panel_before_any_sample() {
    let mut d = Display::default();
    let s = Stats::new(5);
    let ops = d.render("h", &s, None, Some(Duration::from_secs(1)), None, 20, 80);
    assert_eq!(
        printed(&ops),
        "● h   --   \n  avg -- · jitter -- · loss 0% · up 1s\n"
    );
    assert_eq!(ops[0], TermOp::SetForeground(Color::Green));
}

#[test]
fn panel_while_up() {
    let mut d = Display::new();
    let mut s = Stats::new(60);
    for n in [12, 14, 16] {
        s.record(Sample::Reply(ms(n)));
    }
    s.record(Sample::Timeout);
    let ops = d.render(
        "1.1.1.1",
        &s,
        None,
        Some(Duration::from_secs(2 * 3600 + 14 * 60)),
        Some("last outage: 14:32 (36s)"),
        20,
        80,
    );
    assert_eq!(
        printed(&ops),
        "● 1.1.1.1   16ms   ▁▅█×\n  avg 14ms · jitter 1ms · loss 25% · up 2h14m\n  last outage: 14:32 (36s)\n"
    );
    // A quarter of the window is lost.
    assert_eq!(ops[0], TermOp::SetForeground(Color::Red));
    assert_eq!(ops[1], TermOp::Print("●".to_string()));
    assert_eq!(ops[2], TermOp::ResetColor);
    // The gap of the timeout is red by itself.
    let gap = ops
        .iter()
        .position(|op| *op == TermOp::Print("×".to_string()))
        .unwrap();
    assert_eq!(ops[gap - 1], TermOp::SetForeground(Color::Red));
    assert_eq!(ops[gap + 1], TermOp::ResetColor);
}

#[test]
fn panel_while_down() {
    let mut d = Display::new();
    let mut s = Stats::new(60);
    s.record(Sample::Timeout);
    let ops = d.render("h", &s, Some(Duration::from_secs(75)), None, None, 20, 80);
    assert_eq!(
        ops,
        vec![
            TermOp::SetForeground(Color::Red),
            TermOp::Print("✗ h   no reply for 1m15s\n".to_string()),
            TermOp::ResetColor,
            TermOp::Print("  avg -- · jitter -- · loss 100% · up --\n".to_string()),
        ]
    );
}

#[test]
fn next_panel_replaces_the_last_one() {
    let mut d = Display::new();
    let s = Stats::new(5);
    d.render("h", &s, None, None, None, 20, 80);
    let ops = d.render("h", &s, None, None, None, 20, 80);
    assert_eq!(
        ops[..6],
        [
            TermOp::MoveUp(2),
            TermOp::ClearLine,
            TermOp::MoveDown(1),
            TermOp::ClearLine,
            TermOp::MoveDown(1),
            TermOp::MoveUp(2),
        ]
    );
}

#[test]
fn outage_line_is_permanent() {
    let mut d = Display::new();
    let s = Stats::new(5);
    let start = SystemTime::after_epoch(Duration::from_secs(1_690_300_000));
    d.render("h", &s, None, None, None, 20, 80);
    let ops = d.emit_outage_line(
        start,
        Duration::from_secs(36),
        Some(clock(14, 32, 5)),
        Some(clock(14, 32, 41)),
    );
    assert_eq!(ops[0], TermOp::MoveUp(2));
    assert_eq!(
        ops[6..],
        [
            TermOp::SetForeground(Color::Red),
            TermOp::Print("✗ outage 14:32:05 → 14:32:41 (36s)\n".to_string()),
            TermOp::ResetColor,
        ]
    );
    // Nothing is above the cursor any more, so nothing is cleared.
    let ops = d.emit_outage_line(start, Duration::from_secs(36), None, None);
    assert_eq!(
        printed(&ops),
        "✗ outage 15:46:40 → 15:47:16 (36s)\n".to_string()
    );
    assert_eq!(ops.len(), 3);
}

#[test]
fn panel_stays_in_place() {
    let mut screen = Screen::new(80);
    let mut d = Display::new();
    let mut s = Stats::new(5);
    for i in 0..10 {
        s.record(Sample::Reply(ms(i)));
        screen.perform(&d.render("h", &s, None, None, None, 20, 80));
    }
    assert_eq!(screen.row, 2);
    screen.perform(&d.render("h", &s, None, None, Some("x"), 20, 80));
    assert_eq!(screen.row, 3);

    // A permanent line moves the panel down by one row.
    let start = SystemTime::after_epoch(Duration::from_secs(0));
    screen.perform(&d.emit_outage_line(start, Duration::from_secs(5), None, None));
    screen.perform(&d.render("h", &s, None, None, Some("x"), 20, 80));
    assert_eq!(screen.row, 4);
    screen.perform(&d.emit_notice_line("capped"));
    screen.perform(&d.render("h", &s, None, None, None, 20, 80));
    assert_eq!(
        screen.text(),
        "✗ outage 00:00:00 → 00:00:05 (5s)\ncapped\n● h   9ms   ▁▃▅▆█\n  avg 7ms · jitter 1ms · loss 0% · up --\n"
    );
}

/// Three replies and a timeout, shown in `cols` columns.
fn panel_in(cols: usize) -> Vec<String> {
    let mut d = Display::new();
    let mut s = Stats::new(60);
    for n in [12, 14, 16] {
        s.record(Sample::Reply(ms(n)));
    }
    s.record(Sample::Timeout);
    let ops = d.render(
        "1.1.1.1",
        &s,
        None,
        Some(Duration::from_secs(2 * 3600 + 14 * 60)),
        Some("last outage: 14:32 (36s)"),
        20,
        cols,
    );
    printed(&ops).lines().map(|l| l.to_string()).collect()
}

#[test]
fn first_line_shows_the_latest_reply() {
    let mut d = Display::new();
    let mut s = Stats::new(60);
    for n in [16, 14, 12] {
        s.record(Sample::Reply(ms(n)));
    }
    let text = printed(&d.render("1.1.1.1", &s, None, None, None, 20, 80));
    assert!(text.starts_with("● 1.1.1.1   12ms   "));
    assert!(text.contains("  avg 14ms"));
}

#[test]
fn sparkline_shrinks_to_the_most_recent_samples() {
    assert_eq!(panel_in(23)[0], "● 1.1.1.1   16ms   ▁▅█×");
    assert_eq!(panel_in(22)[0], "● 1.1.1.1   16ms   ▁█×");
    assert_eq!(panel_in(21)[0], "● 1.1.1.1   16ms   ▅×");
    assert_eq!(panel_in(20)[0], "● 1.1.1.1   16ms   ×");
    assert_eq!(panel_in(19)[0], "● 1.1.1.1   16ms   ");
    assert_eq!(panel_in(10)[0], "● 1.1.1.1 ");
    assert_eq!(panel_in(1)[0], "●");
}

#[test]
fn stats_shrink_by_whole_entries() {
    let full = "  avg 14ms · jitter 1ms · loss 25% · up 2h14m";
    assert_eq!(full.chars().count(), 45);
    assert_eq!(panel_in(45)[1], full);
    assert_eq!(panel_in(44)[1], "  avg 14ms · jitter 1ms · loss 25%");
    assert_eq!(panel_in(34)[1], "  avg 14ms · jitter 1ms · loss 25%");
    assert_eq!(panel_in(33)[1], "  avg 14ms · jitter 1ms");
    assert_eq!(panel_in(22)[1], "  avg 14ms");
    assert_eq!(panel_in(9)[1], "  avg 14m");
}

#[test]
fn other_lines_are_cut_off() {
    assert_eq!(panel_in(26)[2], "  last outage: 14:32 (36s)");
    assert_eq!(panel_in(10)[2], "  last out");
    let mut d = Display::new();
    let s = Stats::new(5);
    let ops = d.render("h", &s, Some(Duration::from_secs(75)), None, None, 20, 9);
    assert_eq!(printed(&ops), "✗ h   no \n  avg --\n");
}

#[test]
fn every_line_fits_its_columns() {
    let full = panel_in(1000);
    for cols in 0..60 {
        let lines = panel_in(cols);
        assert_eq!(lines.len(), 3);
        for i in 0..3 {
            assert!(lines[i].chars().count() <= cols);
            if cols >= 45 {
                assert_eq!(lines[i], full[i]);
            }
        }
    }
}

#[test]
fn narrow_panel_stays_in_place() {
    for cols in 1..40 {
        let mut screen = Screen::new(cols);
        let mut d = Display::new();
        let mut s = Stats::new(60);
        for i in 0..30 {
            s.record(Sample::Reply(ms(i)));
            screen.perform(&d.render("1.1.1.1", &s, None, None, None, 20, cols));
        }
        assert_eq!(screen.row, 2);
        let shown = s.latest_rtt();
        screen.perform(&d.render("1.1.1.1", &s, shown, None, Some("last outage"), 20, cols));
        assert_eq!(screen.row, 3);
    }
}

#[test]
fn clearing_twice_is_clearing_once() {
    let mut d = Display::new();
    let s = Stats::new(5);
    let mut screen = Screen::new(80);
    screen.perform(&[TermOp::Print("above\n".to_string())]);
    screen.perform(&d.render("h", &s, None, None, Some("x"), 20, 80));
    assert_eq!(screen.row, 4);
    screen.perform(&d.clear_panel());
    assert_eq!(screen.row, 1);
    assert_eq!(screen.text(), "above\n\n\n\n");
    assert_eq!(d.clear_panel(), vec![]);
}

#[test]
fn failed_clearing_keeps_the_panel() {
    let mut d = Display::new();
    let s = Stats::new(5);
    d.render("h", &s, None, None, None, 20, 80);
    // Six operations clear a panel of two lines; the last was not written.
    d.clear_panel();
    d.write_failed(5);
    let ops = d.render("h", &s, None, None, Some("x"), 20, 80);
    assert_eq!(ops[0], TermOp::MoveUp(2));
    // This time the clearing was written, and the panel was not.
    d.write_failed(6);
    assert_eq!(d.clear_panel(), vec![]);
    // A failure is taken back once.
    d.write_failed(0);
    d.write_failed(0);
    assert_eq!(d.clear_panel(), vec![]);
}

#[test]
fn failed_hiding_leaves_the_cursor_shown() {
    let mut d = Display::new();
    d.hide_cursor();
    d.write_failed(0);
    assert_eq!(d.restore_cursor(), vec![]);
    d.hide_cursor();
    d.hide_cursor();
    d.write_failed(0);
    assert_eq!(d.restore_cursor(), vec![TermOp::ShowCursor]);
    // The cursor counts as shown even where that was not written.
    d.write_failed(0);
    assert_eq!(d.restore_cursor(), vec![]);
}

#[test]
fn failed_drawing_leaves_the_cursor_as_it_was() {
    let mut d = Display::new();
    let s = Stats::new(5);
    d.hide_cursor();
    d.render("h", &s, None, None, None, 20, 80);
    d.write_failed(0);
    assert_eq!(d.restore_cursor(), vec![TermOp::ShowCursor]);
}

/// Draws a run of outages on a screen, with `pings` panels before each line.
fn run_of(cols: usize, outages: u64, pings: u64) -> Screen {
    let mut screen = Screen::new(cols);
    let mut d = Display::new();
    let mut s = Stats::new(10);
    screen.perform(&[TermOp::Print("$ ekg\n".to_string())]);
    let start = SystemTime::after_epoch(Duration::from_secs(0));
    for outage in 0..outages {
        for i in 0..pings {
            s.record(Sample::Reply(ms(i)));
            let summary = if outage > 0 { Some("last outage") } else { None };
            screen.perform(&d.render("h", &s, None, None, summary, 20, cols));
        }
        screen.perform(&d.emit_outage_line(start, Duration::from_secs(36), None, None));
    }
    screen.perform(&d.emit_notice_line("capped"));
    screen.perform(&d.render("h", &s, None, None, Some("last outage"), 20, cols));
    screen
}

#[test]
fn whole_run_leaves_one_line_per_outage() {
    for pings in [0, 1, 25] {
        let screen = run_of(80, 4, pings);
        // One row above, four outages, one notice, three lines of panel.
        assert_eq!(screen.row, 1 + 4 + 1 + 3);
        assert_eq!(screen.rows[0], "$ ekg");
        for row in 1..5 {
            assert_eq!(screen.rows[row], "✗ outage 00:00:00 → 00:00:36 (36s)");
        }
        assert_eq!(screen.rows[5], "capped");
        assert!(screen.rows[6].starts_with("● h"));
        assert_eq!(screen.rows[8], "  last outage");
        assert_eq!(screen.rows[9], "");
    }
}

#[test]
fn wrapped_lines_take_the_rows_they_need() {
    // A line of 34 characters takes four rows of ten columns.
    let screen = run_of(10, 3, 7);
    assert_eq!(screen.row, 1 + 3 * 4 + 1 + 3);
    assert_eq!(screen.rows[1], "✗ outage 0");
    assert_eq!(screen.rows[4], "36s)");
    assert_eq!(screen.rows[5], "✗ outage 0");
    assert_eq!(screen.rows[13], "capped");
    assert_eq!(screen.rows[14], "● h   6ms ");
    // A line that fills the row to its end takes no other.
    let screen = run_of(34, 3, 7);
    assert_eq!(screen.row, 1 + 3 + 1 + 3);
}
