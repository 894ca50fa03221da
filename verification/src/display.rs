//! The status panel: a 2-3 line panel that is redrawn in place each tick and
//! shrinks to fit the width of the terminal, plus permanent one-line outage
//! records that scroll up into terminal history above the panel. Everything is drawn by terminal operations, which are
//! computed here and performed elsewhere.

use vstd::prelude::*;

use crate::fit::{fit, fit_parts, fit_parts_text, fit_text};
use crate::mean::{mean_absolute_deviation, mean_floor};
use crate::stats::{bucket, last_samples, latest_reply, reply_nanos, timeouts};
use crate::stats::law_sparkline_entries;
use crate::stats::{Loss, Stats, StatsView};
use crate::text::{decimal, push_decimal, push_two_digits, texts, two_digits};
use crate::time::{epoch_nanos, opt_nanos};
use crate::time::{Duration, SystemTime, MAX_NANOS, NANOS_PER_MILLI, NANOS_PER_SEC};

verus! {

/// Below this average RTT, with zero loss in the rolling window, the
/// connection reads "green". At/above it (but not down/heavy-loss) it reads
/// "yellow" (elevated latency).
pub const GOOD_AVG_MS: u64 = 60;

/// At/above this rolling loss % the connection reads "yellow" (minor loss).
pub const MINOR_LOSS_PCT: u64 = 1;

/// At/above this rolling loss % the connection reads "red" (heavy loss).
pub const HEAVY_LOSS_PCT: u64 = 20;

/// Consecutive timeouts before an outage is declared.
pub const OUTAGE_THRESHOLD: u32 = 3;

/// How the connection is doing.
#[derive(Debug, Clone, Copy, PartialEq, Eq, Structural)]
pub enum Quality {
    Good,
    Elevated,
    Down,
}

/// The colors in use.
#[derive(Debug, Clone, Copy, PartialEq, Eq, Structural)]
pub enum Color {
    Green,
    Yellow,
    Red,
}

/// The quality of a connection that is down or not, by its average RTT in
/// nanoseconds and its loss.
pub open spec fn quality_of(avg: Option<nat>, loss: Loss, is_down: bool) -> Quality {
    if is_down || loss.reaches(HEAVY_LOSS_PCT as nat) {
        Quality::Down
    } else if (avg matches Some(a) && a >= GOOD_AVG_MS * NANOS_PER_MILLI) || loss.reaches(
        MINOR_LOSS_PCT as nat,
    ) {
        Quality::Elevated
    } else {
        Quality::Good
    }
}

/// The color of a quality.
pub open spec fn quality_color(q: Quality) -> Color {
    match q {
        Quality::Good => Color::Green,
        Quality::Elevated => Color::Yellow,
        Quality::Down => Color::Red,
    }
}

/// Rates the connection by its average RTT and its loss over the window.
pub fn quality(avg: Option<Duration>, loss: Loss, is_down: bool) -> (q: Quality)
    ensures
        q == quality_of(opt_nanos(avg), loss, is_down),
{
    if is_down || loss.is_at_least(HEAVY_LOSS_PCT) {
        return Quality::Down;
    }
    let avg_elevated: bool = match avg {
        Some(a) => a.as_nanos() >= GOOD_AVG_MS as u128 * NANOS_PER_MILLI,
        None => false,
    };
    if avg_elevated || loss.is_at_least(MINOR_LOSS_PCT) {
        return Quality::Elevated;
    }
    Quality::Good
}

/// The color in which a quality is shown.
pub fn color_for(q: Quality) -> (c: Color)
    ensures
        c == quality_color(q),
{
    match q {
        Quality::Good => Color::Green,
        Quality::Elevated => Color::Yellow,
        Quality::Down => Color::Red,
    }
}

/// A span in whole milliseconds.
pub open spec fn ms_text(nanos: nat) -> Seq<char> {
    decimal(nanos / (NANOS_PER_MILLI as nat)) + "ms"@
}

/// A span in its two highest units: hours and minutes from an hour on, minutes
/// and seconds from a minute on, seconds below.
pub open spec fn short_text(nanos: nat) -> Seq<char> {
    let secs = nanos / (NANOS_PER_SEC as nat);
    let h = secs / 3600;
    let m = (secs % 3600) / 60;
    let s = secs % 60;
    if h > 0 {
        decimal(h) + "h"@ + decimal(m) + "m"@
    } else if m > 0 {
        decimal(m) + "m"@ + decimal(s) + "s"@
    } else {
        decimal(s) + "s"@
    }
}

/// A span in whole milliseconds.
pub fn fmt_ms(d: Duration) -> (out: String)
    ensures
        out@ == ms_text(d@),
{
    let mut out = String::new();
    push_decimal(&mut out, d.as_millis());
    out.append("ms");
    assert(out@ =~= ms_text(d@));
    out
}

/// A span in its two highest units.
pub fn fmt_duration_short(d: Duration) -> (out: String)
    ensures
        out@ == short_text(d@),
{
    let secs = d.as_secs();
    let h = secs / 3600;
    let m = (secs % 3600) / 60;
    let s = secs % 60;
    let mut out = String::new();
    if h > 0 {
        push_decimal(&mut out, h as u128);
        out.append("h");
        push_decimal(&mut out, m as u128);
        out.append("m");
    } else if m > 0 {
        push_decimal(&mut out, m as u128);
        out.append("m");
        push_decimal(&mut out, s as u128);
        out.append("s");
    } else {
        push_decimal(&mut out, s as u128);
        out.append("s");
    }
    assert(out@ =~= short_text(d@));
    out
}

/// A time of day.
#[derive(Debug, Clone, Copy, PartialEq, Eq, Structural)]
pub struct ClockTime {
    pub hour: u32,
    pub min: u32,
    pub sec: u32,
}

/// A time of day as `HH:MM:SS`.
pub open spec fn clock_text(c: ClockTime) -> Seq<char> {
    two_digits(c.hour as nat) + ":"@ + two_digits(c.min as nat) + ":"@ + two_digits(c.sec as nat)
}

/// A time of day as `HH:MM`.
pub open spec fn hour_minute_text(c: ClockTime) -> Seq<char> {
    two_digits(c.hour as nat) + ":"@ + two_digits(c.min as nat)
}

/// The time of day in UTC of a point in time, that of the epoch before it.
pub open spec fn utc_clock(t: int) -> ClockTime {
    let secs = epoch_nanos(t) / (NANOS_PER_SEC as nat);
    ClockTime {
        hour: ((secs / 3600) % 24) as u32,
        min: ((secs % 3600) / 60) as u32,
        sec: (secs % 60) as u32,
    }
}

/// A time of day as `HH:MM:SS`.
pub fn fmt_hms(c: ClockTime) -> (out: String)
    ensures
        out@ == clock_text(c),
{
    let mut out = String::new();
    push_two_digits(&mut out, c.hour as u64);
    out.append(":");
    push_two_digits(&mut out, c.min as u64);
    out.append(":");
    push_two_digits(&mut out, c.sec as u64);
    assert(out@ =~= clock_text(c));
    out
}

/// The time of day of the point `t` where the platform's local time of day is
/// `local`, or in UTC where it tells none.
pub open spec fn clock_at(t: int, local: Option<ClockTime>) -> ClockTime {
    match local {
        Some(c) => c,
        None => utc_clock(t),
    }
}

/// The time of day in UTC.
fn utc_time(t: SystemTime) -> (c: ClockTime)
    ensures
        c == utc_clock(t@),
{
    let secs = t.nanos_since_epoch() / NANOS_PER_SEC;
    ClockTime {
        hour: ((secs / 3600) % 24) as u32,
        min: ((secs % 3600) / 60) as u32,
        sec: (secs % 60) as u32,
    }
}

/// Formats a point in time as `HH:MM:SS`: as the local time of day that the
/// platform tells for it, or in UTC where it tells none.
pub fn local_hms(t: SystemTime, local: Option<ClockTime>) -> (out: String)
    ensures
        out@ == clock_text(clock_at(t@, local)),
{
    match local {
        Some(c) => fmt_hms(c),
        None => fmt_hms(utc_time(t)),
    }
}

/// Formats a point in time as `HH:MM`, as the same time of day.
pub fn local_hm(t: SystemTime, local: Option<ClockTime>) -> (out: String)
    ensures
        out@ == hour_minute_text(clock_at(t@, local)),
{
    let c = match local {
        Some(c) => c,
        None => utc_time(t),
    };
    let mut out = String::new();
    push_two_digits(&mut out, c.hour as u64);
    out.append(":");
    push_two_digits(&mut out, c.min as u64);
    assert(out@ =~= hour_minute_text(c));
    out
}

/// The characters of the sparkline, from the lowest level to the highest.
pub open spec fn spark_chars() -> Seq<char> {
    seq!['▁', '▂', '▃', '▄', '▅', '▆', '▇', '█']
}

/// The sparkline character of a level.
pub fn spark_char(level: u8) -> (c: char)
    requires
        level <= 7,
    ensures
        c == spark_chars()[level as int],
{
    match level {
        0 => '▁',
        1 => '▂',
        2 => '▃',
        3 => '▄',
        4 => '▅',
        5 => '▆',
        6 => '▇',
        _ => '█',
    }
}

/// One operation on the terminal.
#[derive(Debug, PartialEq, Eq)]
pub enum TermOp {
    HideCursor,
    ShowCursor,
    MoveUp(u16),
    MoveDown(u16),
    ClearLine,
    SetForeground(Color),
    ResetColor,
    Print(String),
}

/// What a terminal operation does.
#[verifier::ext_equal]
pub enum Op {
    HideCursor,
    ShowCursor,
    MoveUp(nat),
    MoveDown(nat),
    ClearLine,
    SetForeground(Color),
    ResetColor,
    Print(Seq<char>),
}

impl View for TermOp {
    type V = Op;

    open spec fn view(&self) -> Op {
        match *self {
            TermOp::HideCursor => Op::HideCursor,
            TermOp::ShowCursor => Op::ShowCursor,
            TermOp::MoveUp(n) => Op::MoveUp(n as nat),
            TermOp::MoveDown(n) => Op::MoveDown(n as nat),
            TermOp::ClearLine => Op::ClearLine,
            TermOp::SetForeground(c) => Op::SetForeground(c),
            TermOp::ResetColor => Op::ResetColor,
            TermOp::Print(s) => Op::Print(s@),
        }
    }
}

/// What a list of terminal operations does.
pub open spec fn ops_of(ops: Seq<TermOp>) -> Seq<Op> {
    ops.map_values(|op: TermOp| op@)
}

/// Clears the line under the cursor and steps down, `n` times.
pub open spec fn clear_lines(n: nat) -> Seq<Op>
    decreases n,
{
    if n == 0 {
        seq![]
    } else {
        clear_lines((n - 1) as nat) + seq![Op::ClearLine, Op::MoveDown(1)]
    }
}

/// Clears the `height` lines above the cursor and moves to the first of them.
pub open spec fn clear_ops(height: nat) -> Seq<Op> {
    if height == 0 {
        seq![]
    } else {
        seq![Op::MoveUp(height)] + clear_lines(height) + seq![Op::MoveUp(height)]
    }
}

/// A span in milliseconds, or a dash where there is none.
pub open spec fn ms_or_dash(nanos: Option<nat>) -> Seq<char> {
    match nanos {
        Some(n) => ms_text(n),
        None => "--"@,
    }
}

/// A span in its highest units, or a dash where there is none.
pub open spec fn short_or_dash(nanos: Option<nat>) -> Seq<char> {
    match nanos {
        Some(n) => short_text(n),
        None => "--"@,
    }
}

/// One entry of the sparkline: the bar of its level, or a red gap character for
/// a timeout.
pub open spec fn spark_ops(entry: Option<u8>) -> Seq<Op> {
    match entry {
        Some(level) => seq![Op::Print(seq![spark_chars()[level as int]])],
        None => seq![Op::SetForeground(Color::Red), Op::Print(seq!['×']), Op::ResetColor],
    }
}

/// The entries of the sparkline, one after the other.
pub open spec fn sparkline_ops(entries: Seq<Option<u8>>) -> Seq<Op>
    decreases entries.len(),
{
    if entries.len() == 0 {
        seq![]
    } else {
        sparkline_ops(entries.drop_last()) + spark_ops(entries.last())
    }
}

/// The average RTT of the window, if it holds a reply.
pub open spec fn window_avg(stats: StatsView) -> Option<nat> {
    if reply_nanos(stats.samples).len() == 0 {
        None
    } else {
        Some(mean_floor(reply_nanos(stats.samples)))
    }
}

/// The RTT of the latest reply in the window, if it holds one.
pub open spec fn latest_rtt(stats: StatsView) -> Option<nat> {
    latest_reply(stats.samples)
}

/// The jitter of the window, if it holds a reply.
pub open spec fn window_jitter(stats: StatsView) -> Option<nat> {
    if reply_nanos(stats.samples).len() == 0 {
        None
    } else {
        Some(mean_absolute_deviation(reply_nanos(stats.samples)))
    }
}

/// The loss over the window.
pub open spec fn window_loss(stats: StatsView) -> Loss {
    Loss { lost: timeouts(stats.samples) as u64, total: stats.samples.len() as u64 }
}

/// The sparkline entries of the last `count` samples.
pub open spec fn window_sparkline(stats: StatsView, count: nat) -> Seq<Option<u8>> {
    let slice = last_samples(stats.samples, count);
    Seq::new(slice.len(), |i: int| bucket(slice[i], slice))
}

/// The color of the panel's first line.
pub open spec fn panel_color(stats: StatsView, is_down: bool) -> Color {
    quality_color(quality_of(window_avg(stats), window_loss(stats), is_down))
}

/// The first line of the panel while the connection is down: for how long there
/// has been no reply.
pub open spec fn down_text(host: Seq<char>, down: nat) -> Seq<char> {
    "✗ "@ + host + "   no reply for "@ + short_text(down)
}

/// What stands between the dot and the sparkline on the first line of the
/// panel: the host and the latest RTT.
pub open spec fn up_text(host: Seq<char>, stats: StatsView) -> Seq<char> {
    " "@ + host + "   "@ + ms_or_dash(latest_rtt(stats)) + "   "@
}

/// The first line of the panel. While the connection is down: for how long
/// there has been no reply, in the color of the quality. Otherwise a dot in
/// that color, the host, the latest RTT and the sparkline.
pub open spec fn first_line_ops(
    host: Seq<char>,
    stats: StatsView,
    down_for: Option<nat>,
    spark_count: nat,
) -> Seq<Op> {
    match down_for {
        Some(down) => seq![
            Op::SetForeground(panel_color(stats, true)),
            Op::Print(down_text(host, down) + "\n"@),
            Op::ResetColor,
        ],
        None => seq![
            Op::SetForeground(panel_color(stats, false)),
            Op::Print("●"@),
            Op::ResetColor,
            Op::Print(up_text(host, stats)),
        ] + sparkline_ops(window_sparkline(stats, spark_count)) + seq![Op::Print("\n"@)],
    }
}

/// The entries of the panel's second line: average, jitter, loss and uptime.
pub open spec fn stats_parts(stats: StatsView, uptime: Option<nat>) -> Seq<Seq<char>> {
    seq![
        "  avg "@ + ms_or_dash(window_avg(stats)),
        " · jitter "@ + ms_or_dash(window_jitter(stats)),
        " · loss "@ + decimal(window_loss(stats).percent()) + "%"@,
        " · up "@ + short_or_dash(uptime),
    ]
}

/// The second line of the panel: average, jitter, loss and uptime.
pub open spec fn second_line(stats: StatsView, uptime: Option<nat>) -> Seq<char> {
    "  avg "@ + ms_or_dash(window_avg(stats)) + " · jitter "@ + ms_or_dash(window_jitter(stats))
        + " · loss "@ + decimal(window_loss(stats).percent()) + "%"@ + " · up "@ + short_or_dash(
        uptime,
    )
}

/// The third line of the panel.
pub open spec fn third_line(summary: Seq<char>) -> Seq<char> {
    "  "@ + summary
}

/// The whole panel: two lines, and a third with the last outage once there was
/// one.
pub open spec fn panel_ops(
    host: Seq<char>,
    stats: StatsView,
    down_for: Option<nat>,
    uptime: Option<nat>,
    last_outage: Option<Seq<char>>,
    spark_count: nat,
) -> Seq<Op> {
    first_line_ops(host, stats, down_for, spark_count) + seq![
        Op::Print(second_line(stats, uptime) + "\n"@),
    ] + match last_outage {
        Some(summary) => seq![Op::Print(third_line(summary) + "\n"@)],
        None => seq![],
    }
}

/// The smaller of two numbers.
pub open spec fn smaller(a: nat, b: nat) -> nat {
    if a <= b {
        a
    } else {
        b
    }
}

/// The columns that are left of `cols` behind the dot.
pub open spec fn room_behind_dot(cols: nat) -> nat {
    (cols - fit("●"@, cols).len()) as nat
}

/// How many entries of the sparkline `cols` columns have room for, behind the
/// rest of the panel's first line.
pub open spec fn spark_room(host: Seq<char>, stats: StatsView, cols: nat) -> nat {
    (room_behind_dot(cols) - fit(up_text(host, stats), room_behind_dot(cols)).len()) as nat
}

/// The first line of the panel in `cols` columns: the sparkline shows the most
/// recent samples that there is room for, and the text is cut off where there
/// is not even room for it.
pub open spec fn fitted_first_line_ops(
    host: Seq<char>,
    stats: StatsView,
    down_for: Option<nat>,
    spark_count: nat,
    cols: nat,
) -> Seq<Op> {
    match down_for {
        Some(down) => seq![
            Op::SetForeground(panel_color(stats, true)),
            Op::Print(fit(down_text(host, down), cols) + "\n"@),
            Op::ResetColor,
        ],
        None => seq![
            Op::SetForeground(panel_color(stats, false)),
            Op::Print(fit("●"@, cols)),
            Op::ResetColor,
            Op::Print(fit(up_text(host, stats), room_behind_dot(cols))),
        ] + sparkline_ops(
            window_sparkline(stats, smaller(spark_count, spark_room(host, stats, cols))),
        ) + seq![Op::Print("\n"@)],
    }
}

/// The panel in `cols` columns: the sparkline shrinks to the most recent
/// samples and the statistics to the first entries that there is room for, and
/// every other line is cut off.
pub open spec fn fitted_panel_ops(
    host: Seq<char>,
    stats: StatsView,
    down_for: Option<nat>,
    uptime: Option<nat>,
    last_outage: Option<Seq<char>>,
    spark_count: nat,
    cols: nat,
) -> Seq<Op> {
    fitted_first_line_ops(host, stats, down_for, spark_count, cols) + seq![
        Op::Print(fit_parts(stats_parts(stats, uptime), cols) + "\n"@),
    ] + match last_outage {
        Some(summary) => seq![Op::Print(fit(third_line(summary), cols) + "\n"@)],
        None => seq![],
    }
}

/// The height of the panel.
pub open spec fn panel_height(last_outage: Option<Seq<char>>) -> u16 {
    if last_outage is Some {
        3
    } else {
        2
    }
}

/// The permanent line of one outage.
pub open spec fn outage_line(start: ClockTime, end: ClockTime, duration: nat) -> Seq<char> {
    "✗ outage "@ + clock_text(start) + " → "@ + clock_text(end) + " ("@ + short_text(duration)
        + ")\n"@
}

/// The operations that print the permanent line of an outage.
pub open spec fn outage_ops(start: ClockTime, end: ClockTime, duration: nat) -> Seq<Op> {
    seq![
        Op::SetForeground(Color::Red),
        Op::Print(outage_line(start, end, duration)),
        Op::ResetColor,
    ]
}

/// The text of an optional string slice.
pub open spec fn opt_str(s: Option<&str>) -> Option<Seq<char>> {
    match s {
        Some(s) => Some(s@),
        None => None,
    }
}

/// What the operations that were handed out last are for, with what holds again
/// where they cannot be written.
#[derive(Debug, Clone, Copy, PartialEq, Eq, Structural)]
pub enum Pending {
    /// Nothing that would have to be taken back.
    Nothing,
    /// They hide the cursor.
    Hide { was_hidden: bool },
    /// They clear a panel and draw in its place.
    Draw { was_height: u16 },
}

/// What the display has drawn: the height of the panel above the cursor,
/// whether the cursor is hidden, and what is to be taken back where the last
/// operations fail.
#[verifier::ext_equal]
pub struct DisplayView {
    pub last_height: u16,
    pub hidden_cursor: bool,
    pub pending: Pending,
}

impl DisplayView {
    /// Nothing drawn, the cursor shown.
    pub open spec fn fresh() -> DisplayView {
        DisplayView { last_height: 0, hidden_cursor: false, pending: Pending::Nothing }
    }

    /// The display after the panel was cleared and one of `height` lines drawn
    /// in its place.
    pub open spec fn redrawn(self, height: u16) -> DisplayView {
        DisplayView {
            last_height: height,
            pending: Pending::Draw { was_height: self.last_height },
            ..self
        }
    }

    /// The display where only the first `performed` of the last operations were
    /// written. A panel that was not cleared to the end is still there; one that
    /// was is gone, and nothing counts as drawn in its place.
    pub open spec fn failed(self, performed: nat) -> DisplayView {
        match self.pending {
            Pending::Nothing => self,
            Pending::Hide { was_hidden } => DisplayView {
                hidden_cursor: was_hidden,
                pending: Pending::Nothing,
                ..self
            },
            Pending::Draw { was_height } => DisplayView {
                last_height: if performed < clear_ops(was_height as nat).len() {
                    was_height
                } else {
                    0
                },
                pending: Pending::Nothing,
                ..self
            },
        }
    }
}

/// Draws the status panel in place and the permanent outage lines.
pub struct Display {
    last_height: u16,
    hidden_cursor: bool,
    pending: Pending,
}

impl View for Display {
    type V = DisplayView;

    closed spec fn view(&self) -> DisplayView {
        DisplayView {
            last_height: self.last_height,
            hidden_cursor: self.hidden_cursor,
            pending: self.pending,
        }
    }
}

/// A one-character text.
fn char_text(c: char) -> (s: String)
    ensures
        s@ == seq![c],
{
    let mut s = String::new();
    s.push(c);
    assert(s@ =~= seq![c]);
    s
}

/// Appends the printing of `text`.
fn push_print(ops: &mut Vec<TermOp>, text: String)
    ensures
        ops_of(final(ops)@) == ops_of(old(ops)@).push(Op::Print(text@)),
{
    ops.push(TermOp::Print(text));
    assert(ops_of(ops@) =~= ops_of(old(ops)@).push(Op::Print(text@)));
}

/// Appends one operation.
fn push_op(ops: &mut Vec<TermOp>, op: TermOp)
    ensures
        ops_of(final(ops)@) == ops_of(old(ops)@).push(op@),
{
    ops.push(op);
    assert(ops_of(ops@) =~= ops_of(old(ops)@).push(op@));
}

impl Display {
    /// Nothing drawn yet, the cursor shown.
    pub fn new() -> (d: Display)
        ensures
            d@ == DisplayView::fresh(),
    {
        Display { last_height: 0, hidden_cursor: false, pending: Pending::Nothing }
    }

    /// Hides the cursor.
    pub fn hide_cursor(&mut self) -> (ops: Vec<TermOp>)
        ensures
            ops_of(ops@) == seq![Op::HideCursor],
            final(self)@ == (DisplayView {
                hidden_cursor: true,
                pending: Pending::Hide { was_hidden: old(self)@.hidden_cursor },
                ..old(self)@
            }),
    {
        self.pending = Pending::Hide { was_hidden: self.hidden_cursor };
        self.hidden_cursor = true;
        let mut ops: Vec<TermOp> = Vec::new();
        push_op(&mut ops, TermOp::HideCursor);
        assert(ops_of(ops@) =~= seq![Op::HideCursor]);
        ops
    }

    /// Shows the cursor again if it is hidden. It counts as shown even where
    /// that cannot be written.
    pub fn restore_cursor(&mut self) -> (ops: Vec<TermOp>)
        ensures
            ops_of(ops@) == (if old(self)@.hidden_cursor {
                seq![Op::ShowCursor]
            } else {
                seq![]
            }),
            final(self)@ == (DisplayView {
                hidden_cursor: false,
                pending: Pending::Nothing,
                ..old(self)@
            }),
    {
        let mut ops: Vec<TermOp> = Vec::new();
        assert(ops_of(ops@) =~= seq![]);
        if self.hidden_cursor {
            push_op(&mut ops, TermOp::ShowCursor);
            assert(ops_of(ops@) =~= seq![Op::ShowCursor]);
            self.hidden_cursor = false;
        }
        self.pending = Pending::Nothing;
        ops
    }

    /// Clears the previously drawn panel (if any) so new lines (an outage
    /// record, or the next render) start from a clean slot.
    pub fn clear_panel(&mut self) -> (ops: Vec<TermOp>)
        ensures
            ops_of(ops@) == clear_ops(old(self)@.last_height as nat),
            final(self)@ == old(self)@.redrawn(0),
    {
        let mut ops: Vec<TermOp> = Vec::new();
        assert(ops_of(ops@) =~= seq![]);
        let height = self.last_height;
        if height > 0 {
            push_op(&mut ops, TermOp::MoveUp(height));
            let mut i: u16 = 0;
            while i < height
                invariant
                    i <= height,
                    ops_of(ops@) =~= seq![Op::MoveUp(height as nat)] + clear_lines(i as nat),
                decreases height - i,
            {
                push_op(&mut ops, TermOp::ClearLine);
                push_op(&mut ops, TermOp::MoveDown(1));
                i += 1;
            }
            push_op(&mut ops, TermOp::MoveUp(height));
            assert(ops_of(ops@) =~= clear_ops(height as nat));
        }
        self.last_height = 0;
        self.pending = Pending::Draw { was_height: height };
        ops
    }

    /// Prints a permanent outage summary line that scrolls into history,
    /// above where the panel will resume. The local times of day of its start
    /// and end are the platform's.
    pub fn emit_outage_line(
        &mut self,
        start_wall: SystemTime,
        duration: Duration,
        start_local: Option<ClockTime>,
        end_local: Option<ClockTime>,
    ) -> (ops: Vec<TermOp>)
        requires
            start_wall@ <= MAX_NANOS,
        ensures
            ops_of(ops@) == clear_ops(old(self)@.last_height as nat) + outage_ops(
                clock_at(start_wall@, start_local),
                clock_at(start_wall@ + duration@, end_local),
                duration@,
            ),
            final(self)@ == old(self)@.redrawn(0),
    {
        let mut ops = self.clear_panel();
        let ghost cleared = ops_of(ops@);
        let mut line = String::new();
        line.append("✗ outage ");
        line.append(local_hms(start_wall, start_local).as_str());
        line.append(" → ");
        line.append(local_hms(start_wall.plus(duration), end_local).as_str());
        line.append(" (");
        line.append(fmt_duration_short(duration).as_str());
        line.append(")\n");
        push_op(&mut ops, TermOp::SetForeground(Color::Red));
        push_print(&mut ops, line);
        push_op(&mut ops, TermOp::ResetColor);
        assert(ops_of(ops@) =~= cleared + seq![
            Op::SetForeground(Color::Red),
            Op::Print(line@),
            Op::ResetColor,
        ]);
        ops
    }

    /// Prints a permanent notice line in the same place.
    pub fn emit_notice_line(&mut self, notice: &str) -> (ops: Vec<TermOp>)
        ensures
            ops_of(ops@) == clear_ops(old(self)@.last_height as nat).push(Op::Print(notice@ + "\n"@)),
            final(self)@ == old(self)@.redrawn(0),
    {
        let mut ops = self.clear_panel();
        let mut line = String::new();
        line.append(notice);
        line.append("\n");
        assert(line@ =~= notice@ + "\n"@);
        push_print(&mut ops, line);
        ops
    }

    /// Renders the (up to) 3-line panel in place, in `cols` columns.
    pub fn render(
        &mut self,
        host: &str,
        stats: &Stats,
        down_since: Option<Duration>,
        uptime_since_recovery: Option<Duration>,
        last_outage_summary: Option<&str>,
        spark_count: usize,
        cols: usize,
    ) -> (ops: Vec<TermOp>)
        ensures
            ops_of(ops@) == clear_ops(old(self)@.last_height as nat) + fitted_panel_ops(
                host@,
                stats@,
                opt_nanos(down_since),
                opt_nanos(uptime_since_recovery),
                opt_str(last_outage_summary),
                spark_count as nat,
                cols as nat,
            ),
            final(self)@ == old(self)@.redrawn(panel_height(opt_str(last_outage_summary))),
    {
        let mut ops = self.clear_panel();
        let ghost cleared = ops_of(ops@);

        // Line 1: only the status dot is colored by quality; the timeout gap
        // character within the sparkline is colored red regardless of
        // overall quality (a visible drop even in an otherwise-green window).
        push_first_line(&mut ops, host, stats, down_since, spark_count, cols);

        // Line 2
        let parts = stats_parts_text(stats, uptime_since_recovery);
        push_line(&mut ops, fit_parts_text(&parts, cols));

        // Line 3 (only after an outage has occurred)
        self.last_height = 2;
        if let Some(summary) = last_outage_summary {
            let mut line = String::new();
            line.append("  ");
            line.append(summary);
            assert(line@ =~= third_line(summary@));
            push_line(&mut ops, fit_text(line.as_str(), cols));
            self.last_height = 3;
        }
        proof {
            let expected = fitted_panel_ops(
                host@,
                stats@,
                opt_nanos(down_since),
                opt_nanos(uptime_since_recovery),
                opt_str(last_outage_summary),
                spark_count as nat,
                cols as nat,
            );
            assert(ops_of(ops@) =~= cleared + expected);
        }
        ops
    }

    /// Takes back what the operations that were handed out last would have
    /// done: only the first `performed` of them could be written.
    pub fn write_failed(&mut self, performed: usize)
        ensures
            final(self)@ == old(self)@.failed(performed as nat),
    {
        match self.pending {
            Pending::Nothing => {},
            Pending::Hide { was_hidden } => {
                self.hidden_cursor = was_hidden;
            },
            Pending::Draw { was_height } => {
                proof {
                    lemma_clear_ops_len(was_height as nat);
                }
                if was_height > 0 && (performed as u64) < 2 * was_height as u64 + 2 {
                    self.last_height = was_height;
                } else {
                    self.last_height = 0;
                }
            },
        }
        self.pending = Pending::Nothing;
    }
}

/// A panel that was cleared has no height, so that clearing again does nothing,
/// and no drawing changes whether the cursor is hidden. Where the clearing
/// cannot be written to the end the panel still has the height it had; where
/// only what is drawn after it cannot, there is none.
pub proof fn law_failed_clearing_keeps_the_panel(d: DisplayView, height: u16, performed: nat)
    ensures
        d.redrawn(0).last_height == 0,
        d.redrawn(0).redrawn(0).last_height == 0,
        clear_ops(d.redrawn(0).last_height as nat) == Seq::<Op>::empty(),
        d.redrawn(height).hidden_cursor == d.hidden_cursor,
        d.redrawn(height).failed(performed).hidden_cursor == d.hidden_cursor,
        performed < clear_ops(d.last_height as nat).len() ==> d.redrawn(height).failed(
            performed,
        ).last_height == d.last_height,
        performed >= clear_ops(d.last_height as nat).len() ==> d.redrawn(height).failed(
            performed,
        ).last_height == 0,
{
}

/// How many operations clear a panel.
proof fn lemma_clear_ops_len(height: nat)
    ensures
        clear_lines(height).len() == 2 * height,
        clear_ops(height).len() == if height == 0 {
            0
        } else {
            2 * height + 2
        },
    decreases height,
{
    if height > 0 {
        lemma_clear_ops_len((height - 1) as nat);
    }
}

impl Default for Display {
    fn default() -> (d: Display)
        ensures
            d@ == DisplayView::fresh(),
    {
        Display::new()
    }
}

/// The text of an optional span in milliseconds.
fn ms_or_dash_text(d: Option<Duration>) -> (s: String)
    ensures
        s@ == ms_or_dash(opt_nanos(d)),
{
    match d {
        Some(d) => fmt_ms(d),
        None => "--".to_string(),
    }
}

/// The entries of the second line of the panel.
fn stats_parts_text(stats: &Stats, uptime: Option<Duration>) -> (parts: Vec<String>)
    ensures
        texts(parts@) == stats_parts(stats@, opt_nanos(uptime)),
{
    let mut avg = "  avg ".to_string();
    avg.append(ms_or_dash_text(stats.avg_rtt()).as_str());
    let mut jitter = " · jitter ".to_string();
    jitter.append(ms_or_dash_text(stats.jitter()).as_str());
    let mut loss = " · loss ".to_string();
    let share = stats.loss_pct();
    assert(share == window_loss(stats@));
    push_decimal(&mut loss, share.to_percent());
    loss.append("%");
    let mut up = " · up ".to_string();
    match uptime {
        Some(d) => up.append(fmt_duration_short(d).as_str()),
        None => up.append("--"),
    }
    let mut parts: Vec<String> = Vec::new();
    parts.push(avg);
    parts.push(jitter);
    parts.push(loss);
    parts.push(up);
    assert(texts(parts@) =~= stats_parts(stats@, opt_nanos(uptime)));
    parts
}

/// Appends the printing of `text` and a line break.
fn push_line(ops: &mut Vec<TermOp>, text: String)
    ensures
        ops_of(final(ops)@) == ops_of(old(ops)@).push(Op::Print(text@ + "\n"@)),
{
    let mut line = text;
    line.append("\n");
    push_print(ops, line);
}

/// Appends the first line of the panel in `cols` columns.
fn push_first_line(
    ops: &mut Vec<TermOp>,
    host: &str,
    stats: &Stats,
    down_since: Option<Duration>,
    spark_count: usize,
    cols: usize,
)
    ensures
        ops_of(final(ops)@) == ops_of(old(ops)@) + fitted_first_line_ops(
            host@,
            stats@,
            opt_nanos(down_since),
            spark_count as nat,
            cols as nat,
        ),
{
    let ghost start = ops_of(ops@);
    let avg = stats.avg_rtt();
    let loss = stats.loss_pct();
    assert(loss == window_loss(stats@));
    assert(opt_nanos(avg) == window_avg(stats@));
    let color = color_for(quality(avg, loss, down_since.is_some()));
    push_op(ops, TermOp::SetForeground(color));
    match down_since {
        Some(down_for) => {
            let mut line = String::new();
            line.append("✗ ");
            line.append(host);
            line.append("   no reply for ");
            line.append(fmt_duration_short(down_for).as_str());
            assert(line@ =~= down_text(host@, down_for@));
            push_line(ops, fit_text(line.as_str(), cols));
            push_op(ops, TermOp::ResetColor);
        },
        None => {
            let dot = fit_text("●", cols);
            let behind: usize = cols - dot.as_str().unicode_len();
            push_print(ops, dot);
            push_op(ops, TermOp::ResetColor);
            let mut text = String::new();
            text.append(" ");
            text.append(host);
            text.append("   ");
            text.append(ms_or_dash_text(stats.latest_rtt()).as_str());
            text.append("   ");
            assert(text@ =~= up_text(host@, stats@));
            let head = fit_text(text.as_str(), behind);
            let room: usize = behind - head.as_str().unicode_len();
            push_print(ops, head);
            push_sparkline(
                ops,
                stats,
                if spark_count <= room {
                    spark_count
                } else {
                    room
                },
            );
            push_print(ops, "\n".to_string());
        },
    }
    assert(ops_of(ops@) =~= start + fitted_first_line_ops(
        host@,
        stats@,
        opt_nanos(down_since),
        spark_count as nat,
        cols as nat,
    ));
}

/// Appends the sparkline of the last `spark_count` samples.
fn push_sparkline(ops: &mut Vec<TermOp>, stats: &Stats, spark_count: usize)
    ensures
        ops_of(final(ops)@) == ops_of(old(ops)@) + sparkline_ops(
            window_sparkline(stats@, spark_count as nat),
        ),
{
    let ghost start = ops_of(ops@);
    let buckets = stats.sparkline_buckets(spark_count);
    let ghost entries = window_sparkline(stats@, spark_count as nat);
    assert(buckets@ == entries);
    let mut i: usize = 0;
    while i < buckets.len()
        invariant
            i <= buckets@.len(),
            buckets@ == entries,
            entries == window_sparkline(stats@, spark_count as nat),
            ops_of(ops@) =~= start + sparkline_ops(entries.take(i as int)),
        decreases buckets@.len() - i,
    {
        proof {
            assert(entries.take(i + 1).drop_last() =~= entries.take(i as int));
            law_sparkline_entries(stats@.samples, spark_count as nat, i as int);
        }
        match buckets[i] {
            Some(level) => {
                push_print(ops, char_text(spark_char(level)));
            },
            None => {
                push_op(ops, TermOp::SetForeground(Color::Red));
                push_print(ops, char_text('×'));
                push_op(ops, TermOp::ResetColor);
            },
        }
        i += 1;
    }
    assert(entries.take(entries.len() as int) =~= entries);
}

} // verus!
