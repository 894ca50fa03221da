//! What the texts, the colors and the lines of the panel mean.

use vstd::prelude::*;

use crate::display::{clear_ops, clock_at, clock_text, hour_minute_text, ms_or_dash, ms_text};
use crate::display::{fitted_first_line_ops, fitted_panel_ops, outage_line, outage_ops, ops_of, panel_color};
use crate::display::{first_line_ops, panel_height, quality_color, quality_of, short_or_dash};
use crate::display::{latest_rtt, opt_str, smaller, spark_chars, spark_ops, sparkline_ops, stats_parts};
use crate::display::{room_behind_dot, short_text, spark_room, up_text, utc_clock};
use crate::display::{window_avg, window_jitter, window_loss, window_sparkline};
use crate::display::{color_for, fmt_duration_short, fmt_ms, local_hm, local_hms, quality, spark_char};
use crate::display::{ClockTime, Color, Display, DisplayView, Op, Pending, Quality, TermOp};
use crate::fit::{fit, fit_parts, joined, law_fitted_parts_take_no_more, law_joined_in_order};
use crate::mean::{law_deviation_is_mean_distance, law_mean_divides_the_sum};
use crate::mean::{mean_floor, total, total_distance};
use crate::screen::{first_line, fitted_first_line, fitted_lines, full_lines, printed, spark_text};
use crate::screen::{law_panel_fits_its_columns, with_breaks};
use crate::stats::{bucket, latest_reply, law_replies_and_timeouts, reply_nanos, timeouts};
use crate::stats::{Loss, Sample, Stats, StatsView};
use crate::text::{all_digits, decimal, decimal_value, law_decimal_reads_back};
use crate::text::{law_two_digits_read_back, two_digits};
use crate::time::{opt_nanos, Duration, SystemTime};

verus! {

/// The connection reads down exactly where it is, or where a fifth of the pings
/// or more was lost. It reads good exactly where it is not down, less than a
/// hundredth was lost, and the average, if there is one, is below 60
/// milliseconds.
pub proof fn law_quality_thresholds(avg: Option<nat>, loss: Loss, is_down: bool)
    ensures
        quality_of(avg, loss, is_down) == Quality::Down <==> (is_down || (loss.total > 0 && 5
            * loss.lost >= loss.total)),
        quality_of(avg, loss, is_down) == Quality::Good <==> {
            &&& !is_down
            &&& loss.total == 0 || 100 * loss.lost < loss.total
            &&& avg matches Some(a) ==> a < 60_000_000
        },
{
}

/// The quality never gets better when a greater share is lost, when the average
/// grows, or when the connection goes down.
pub proof fn law_quality_never_improves(
    avg: Option<nat>,
    loss: Loss,
    is_down: bool,
    worse_avg: Option<nat>,
    worse_loss: Loss,
    worse_down: bool,
)
    requires
        loss.total > 0,
        worse_loss.total > 0,
        loss.lost * worse_loss.total <= worse_loss.lost * loss.total,
        avg matches Some(a) ==> (worse_avg matches Some(b) && a <= b),
        is_down ==> worse_down,
    ensures
        quality_of(worse_avg, worse_loss, worse_down) == Quality::Good ==> quality_of(
            avg,
            loss,
            is_down,
        ) == Quality::Good,
        quality_of(avg, loss, is_down) == Quality::Down ==> quality_of(
            worse_avg,
            worse_loss,
            worse_down,
        ) == Quality::Down,
{
    law_quality_thresholds(avg, loss, is_down);
    law_quality_thresholds(worse_avg, worse_loss, worse_down);
    let (x, s) = (loss.lost as int, loss.total as int);
    let (y, t) = (worse_loss.lost as int, worse_loss.total as int);
    if 5 * x >= s {
        assert(5 * y >= t) by (nonlinear_arith)
            requires
                5 * x >= s,
                x * t <= y * s,
                s > 0,
                t > 0,
        ;
    }
    if 100 * y < t {
        assert(100 * x < s) by (nonlinear_arith)
            requires
                100 * y < t,
                x * t <= y * s,
                s > 0,
                t > 0,
        ;
    }
}

/// Good is green, elevated yellow and down red, and nothing else is.
pub proof fn law_colors_tell_quality(q: Quality)
    ensures
        quality_color(q) == Color::Green <==> q == Quality::Good,
        quality_color(q) == Color::Yellow <==> q == Quality::Elevated,
        quality_color(q) == Color::Red <==> q == Quality::Down,
{
}

/// The panel is red exactly while the connection is down or where a fifth of the
/// samples in the window or more are timeouts. It is green exactly where it is
/// not down, fewer than a hundredth are, and the average of the replies in the
/// window, if there are any, is below 60 milliseconds.
pub proof fn law_panel_color_tells_window(stats: StatsView, is_down: bool)
    requires
        stats.samples.len() <= u64::MAX,
    ensures
        ({
            let n = stats.samples.len();
            let lost = timeouts(stats.samples);
            let replies = reply_nanos(stats.samples);
            let color = panel_color(stats, is_down);
            &&& color == Color::Red <==> (is_down || (n > 0 && 5 * lost >= n))
            &&& color == Color::Green <==> {
                &&& !is_down
                &&& n == 0 || 100 * lost < n
                &&& replies.len() > 0 ==> total(replies) < 60_000_000 * replies.len()
            }
        }),
{
    law_replies_and_timeouts(stats.samples);
    let replies = reply_nanos(stats.samples);
    law_quality_thresholds(window_avg(stats), window_loss(stats), is_down);
    if replies.len() > 0 {
        law_mean_divides_the_sum(replies);
        let (m, k, sum) = (mean_floor(replies), replies.len(), total(replies));
        if m < 60_000_000 {
            assert(sum < 60_000_000 * k) by (nonlinear_arith)
                requires
                    sum < (m + 1) * k,
                    m + 1 <= 60_000_000,
            ;
        } else {
            assert(sum >= 60_000_000 * k) by (nonlinear_arith)
                requires
                    m * k <= sum,
                    m >= 60_000_000,
            ;
        }
    }
}

/// A span in milliseconds is its whole milliseconds and the unit; there is a
/// dash where there is no span.
pub proof fn law_milliseconds_read_back(nanos: nat)
    ensures
        ({
            let s = ms_text(nanos);
            let ms = decimal_value(s.take(s.len() - 2));
            &&& s == decimal(ms) + "ms"@
            &&& ms * 1_000_000 <= nanos < (ms + 1) * 1_000_000
        }),
        ms_or_dash(Some(nanos)) == ms_text(nanos),
        ms_or_dash(None) == "--"@,
{
    reveal_strlit("ms");
    let whole = decimal(nanos / (crate::time::NANOS_PER_MILLI as nat));
    let s = ms_text(nanos);
    law_decimal_reads_back(nanos / (crate::time::NANOS_PER_MILLI as nat));
    assert(s.take(s.len() - 2) =~= whole);
}

/// A span of `h` hours, `m` minutes and `s` seconds is written in its two
/// highest units, whatever fraction of a second is left; there is a dash where
/// there is no span.
pub proof fn law_spans_show_two_units(h: nat, m: nat, s: nat, frac: nat)
    requires
        m < 60,
        s < 60,
        frac < 1_000_000_000,
    ensures
        ({
            let nanos = ((h * 60 + m) * 60 + s) * 1_000_000_000 + frac;
            &&& h > 0 ==> short_text(nanos) == decimal(h) + "h"@ + decimal(m) + "m"@
            &&& h == 0 && m > 0 ==> short_text(nanos) == decimal(m) + "m"@ + decimal(s) + "s"@
            &&& h == 0 && m == 0 ==> short_text(nanos) == decimal(s) + "s"@
            &&& short_or_dash(Some(nanos)) == short_text(nanos)
            &&& short_or_dash(None) == "--"@
        }),
{
    let secs = (h * 60 + m) * 60 + s;
    assert((secs * 1_000_000_000 + frac) / 1_000_000_000 == secs);
    assert(secs / 3600 == h && (secs % 3600) / 60 == m && secs % 60 == s);
}

/// A time of day is its hours, minutes and seconds in two digits each, with
/// colons between them; to the minute, it is the same without the seconds.
pub proof fn law_clock_reads_back(c: ClockTime)
    requires
        c.hour < 100,
        c.min < 100,
        c.sec < 100,
    ensures
        ({
            let s = clock_text(c);
            &&& s.len() == 8
            &&& s[2] == ':' && s[5] == ':'
            &&& decimal_value(s.subrange(0, 2)) == c.hour
            &&& decimal_value(s.subrange(3, 5)) == c.min
            &&& decimal_value(s.subrange(6, 8)) == c.sec
            &&& all_digits(s.subrange(0, 2))
            &&& all_digits(s.subrange(3, 5))
            &&& all_digits(s.subrange(6, 8))
            &&& hour_minute_text(c) == s.take(5)
        }),
{
    reveal_strlit(":");
    law_two_digits_read_back(c.hour as nat);
    law_two_digits_read_back(c.min as nat);
    law_two_digits_read_back(c.sec as nat);
    let s = clock_text(c);
    assert(s.subrange(0, 2) =~= two_digits(c.hour as nat));
    assert(s.subrange(3, 5) =~= two_digits(c.min as nat));
    assert(s.subrange(6, 8) =~= two_digits(c.sec as nat));
    assert(hour_minute_text(c) =~= s.take(5));
}

/// The time of day in UTC of a time `days` days, `h` hours, `m` minutes and `s`
/// seconds after the epoch, whatever fraction of a second is left, is `h:m:s`;
/// before the epoch it is that of the epoch. The local time of day takes its
/// place where the platform tells it.
pub proof fn law_time_of_day(days: nat, h: nat, m: nat, s: nat, frac: nat, t: int, local: ClockTime)
    requires
        h < 24,
        m < 60,
        s < 60,
        frac < 1_000_000_000,
    ensures
        ({
            let at = (((days * 24 + h) * 60 + m) * 60 + s) * 1_000_000_000 + frac;
            let c = clock_at(at as int, None);
            c.hour == h && c.min == m && c.sec == s
        }),
        t <= 0 ==> clock_at(t, None) == (ClockTime { hour: 0, min: 0, sec: 0 }),
        clock_at(t, Some(local)) == local,
{
    let hours = days * 24 + h;
    let secs = (hours * 60 + m) * 60 + s;
    let at = secs * 1_000_000_000 + frac;
    assert(at / 1_000_000_000 == secs);
    assert(secs / 3600 == hours && (secs % 3600) / 60 == m && secs % 60 == s);
    assert(hours % 24 == h);
    assert(utc_clock(at as int).hour == h);
}

/// The bars of the sparkline are the eight blocks of Unicode from the lowest on.
pub proof fn law_bars_rise_by_eighths(level: int)
    requires
        0 <= level < 8,
    ensures
        spark_chars().len() == 8,
        spark_chars()[level] as nat == 0x2581 + level,
{
    assert(spark_chars()[0] as nat == 0x2581);
    assert(spark_chars()[1] as nat == 0x2582);
    assert(spark_chars()[2] as nat == 0x2583);
    assert(spark_chars()[3] as nat == 0x2584);
    assert(spark_chars()[4] as nat == 0x2585);
    assert(spark_chars()[5] as nat == 0x2586);
    assert(spark_chars()[6] as nat == 0x2587);
    assert(spark_chars()[7] as nat == 0x2588);
}

/// Each entry of the sparkline takes one column: a reply its bar, in the color
/// of the text, and a timeout a cross, in red. Entries follow one another, with
/// nothing between them.
pub proof fn law_sparkline_entry_by_entry(a: Seq<Option<u8>>, b: Seq<Option<u8>>, level: u8)
    requires
        level < 8,
    ensures
        sparkline_ops(a + b) == sparkline_ops(a) + sparkline_ops(b),
        sparkline_ops(seq![]).len() == 0,
        sparkline_ops(seq![Some(level)]).len() == 1,
        sparkline_ops(seq![Some(level)])[0] matches Op::Print(text) && text.len() == 1
            && text[0] as nat == 0x2581 + level,
        sparkline_ops(seq![None]).len() == 3,
        sparkline_ops(seq![None])[0] == Op::SetForeground(Color::Red),
        sparkline_ops(seq![None])[1] matches Op::Print(text) && text.len() == 1 && text[0] == '×',
        sparkline_ops(seq![None])[2] == Op::ResetColor,
    decreases b.len(),
{
    reveal_with_fuel(sparkline_ops, 2);
    law_bars_rise_by_eighths(level as int);
    let one = seq![Some(level)];
    let none: Seq<Option<u8>> = seq![None];
    assert(one.drop_last() =~= seq![]);
    assert(none.drop_last() =~= seq![]);
    assert(sparkline_ops(one) =~= spark_ops(Some(level)));
    assert(sparkline_ops(none) =~= spark_ops(None));
    if b.len() == 0 {
        assert(a + b =~= a);
        assert(sparkline_ops(a) + sparkline_ops(b) =~= sparkline_ops(a));
    } else {
        law_sparkline_entry_by_entry(a, b.drop_last(), level);
        assert((a + b).drop_last() =~= a + b.drop_last());
        assert(sparkline_ops(a + b) =~= sparkline_ops(a) + sparkline_ops(b));
    }
}

/// The figures of the panel are those of the window: the latest reply, the mean
/// of the replies and their mean distance from it, the share of timeouts. There
/// is no latest, average or jitter exactly where the window holds no reply.
pub proof fn law_figures_are_those_of_the_window(stats: StatsView)
    requires
        stats.samples.len() <= u64::MAX,
    ensures
        ({
            let xs = reply_nanos(stats.samples);
            let n = xs.len();
            &&& latest_rtt(stats) is Some <==> n > 0
            &&& window_avg(stats) is Some <==> n > 0
            &&& window_jitter(stats) is Some <==> n > 0
            &&& n > 0 ==> latest_rtt(stats) == Some(xs[n - 1])
            &&& window_avg(stats) matches Some(avg) ==> avg * n <= total(xs) < (avg + 1) * n
            &&& window_jitter(stats) matches Some(jitter) ==> {
                let distances = total_distance(xs, n, total(xs));
                &&& 2 * (jitter * (n * n)) <= 2 * distances + n * n
                &&& 2 * distances <= 2 * (jitter * (n * n)) + n * n
            }
            &&& window_loss(stats).lost == timeouts(stats.samples)
            &&& window_loss(stats).total == stats.samples.len()
        }),
{
    let xs = reply_nanos(stats.samples);
    law_replies_and_timeouts(stats.samples);
    if xs.len() > 0 {
        law_mean_divides_the_sum(xs);
        law_deviation_is_mean_distance(xs);
    }
}

/// The sparkline has an entry for each of the most recent samples, as many as
/// asked for or all of them, in order, and each is scaled to those samples alone.
pub proof fn law_sparkline_shows_recent_samples(stats: StatsView, count: nat, shown: Seq<Sample>)
    requires
        shown.len() <= count,
        shown.len() == count || shown.len() == stats.samples.len(),
        shown.len() <= stats.samples.len(),
        forall|i: int|
            0 <= i < shown.len() ==> #[trigger] shown[i] == stats.samples[stats.samples.len()
                - shown.len() + i],
    ensures
        window_sparkline(stats, count).len() == shown.len(),
        forall|i: int|
            0 <= i < shown.len() ==> #[trigger] window_sparkline(stats, count)[i] == bucket(
                shown[i],
                shown,
            ),
{
    assert(crate::stats::last_samples(stats.samples, count) =~= shown);
}

/// The lines of the whole panel. The first tells the host and the latest RTT and
/// shows the sparkline, or for how long there has been no reply; the second tells
/// the average, the jitter, the loss and the uptime; the third the last outage.
pub proof fn law_panel_texts(
    host: Seq<char>,
    stats: StatsView,
    down: nat,
    down_for: Option<nat>,
    uptime: Option<nat>,
    summary: Seq<char>,
    last_outage: Option<Seq<char>>,
    count: nat,
)
    ensures
        ({
            let up_lines = full_lines(host, stats, None, uptime, last_outage, count);
            let down_lines = full_lines(host, stats, Some(down), uptime, last_outage, count);
            &&& up_lines[0] == "●"@ + " "@ + host + "   "@ + ms_or_dash(
                latest_reply(stats.samples),
            ) + "   "@ + spark_text(window_sparkline(stats, count))
            &&& down_lines[0] == "✗ "@ + host + "   no reply for "@ + short_text(down)
        }),
        ({
            let lines = full_lines(host, stats, down_for, uptime, Some(summary), count);
            &&& lines.len() == 3
            &&& lines[1] == "  avg "@ + ms_or_dash(window_avg(stats)) + " · jitter "@ + ms_or_dash(
                window_jitter(stats),
            ) + " · loss "@ + decimal(window_loss(stats).percent()) + "%"@ + " · up "@
                + short_or_dash(uptime)
            &&& lines[2] == "  "@ + summary
        }),
        ({
            let parts = stats_parts(stats, uptime);
            &&& parts.len() == 4
            &&& parts[0] == "  avg "@ + ms_or_dash(window_avg(stats))
            &&& parts[1] == " · jitter "@ + ms_or_dash(window_jitter(stats))
            &&& parts[2] == " · loss "@ + decimal(window_loss(stats).percent()) + "%"@
            &&& parts[3] == " · up "@ + short_or_dash(uptime)
        }),
        full_lines(host, stats, down_for, uptime, None, count).len() == 2,
        panel_height(None) == 2,
        panel_height(Some(summary)) == 3,
{
    let up_lines = full_lines(host, stats, None, uptime, last_outage, count);
    assert(up_lines[0] =~= "●"@ + " "@ + host + "   "@ + ms_or_dash(latest_reply(stats.samples))
        + "   "@ + spark_text(window_sparkline(stats, count)));
}

/// In narrow panes the first line is as long as there are columns for and no
/// shorter than need be. Its text is the beginning of the whole line, up to the
/// sparkline; the sparkline is that of as many of the most recent samples as
/// there is room for.
pub proof fn law_first_line_shrinks(host: Seq<char>, stats: StatsView, count: nat, cols: nat)
    ensures
        ({
            let full = first_line(host, stats, None, count);
            let line = fitted_first_line(host, stats, None, count, cols);
            let head = 1 + up_text(host, stats).len();
            &&& line.len() <= cols && line.len() <= full.len()
            &&& line.len() == cols || line.len() == full.len()
            &&& forall|i: int|
                0 <= i < line.len() && i < head ==> #[trigger] line[i] == full[i]
            &&& line.len() > head ==> line.skip(head as int) == spark_text(
                window_sparkline(stats, (line.len() - head) as nat),
            )
        }),
{
    reveal_strlit("●");
    let full = first_line(host, stats, None, count);
    let line = fitted_first_line(host, stats, None, count, cols);
    let text = up_text(host, stats);
    let head = 1 + text.len();
    let room = spark_room(host, stats, cols);
    let shown = smaller(count, room);
    let some = crate::stats::last_samples(stats.samples, shown);
    assert(spark_text(window_sparkline(stats, shown)).len() == some.len());
    if cols < head {
        assert(fit(text, room_behind_dot(cols)).len() == room_behind_dot(cols));
        assert(room == 0);
    } else {
        assert(fit(text, room_behind_dot(cols)) == text);
        assert(room == cols - head);
        let k = (line.len() - head) as nat;
        assert(k == some.len());
        assert(crate::stats::last_samples(stats.samples, k) =~= some);
        assert(line.skip(head as int) =~= spark_text(window_sparkline(stats, shown)));
    }
}

/// Only the dot of the first line has the color of the quality while the
/// connection is up; while it is down the whole line has.
pub proof fn law_first_line_colors(
    host: Seq<char>,
    stats: StatsView,
    down: nat,
    count: nat,
    cols: nat,
)
    requires
        cols > 0,
    ensures
        ({
            let up_ops = fitted_first_line_ops(host, stats, None, count, cols);
            let down_ops = fitted_first_line_ops(host, stats, Some(down), count, cols);
            &&& up_ops[0] == Op::SetForeground(panel_color(stats, false))
            &&& up_ops[1] == Op::Print("●"@)
            &&& up_ops[2] == Op::ResetColor
            &&& down_ops.len() == 3
            &&& down_ops[0] == Op::SetForeground(panel_color(stats, true))
            &&& down_ops[1] is Print
            &&& down_ops[2] == Op::ResetColor
            &&& first_line_ops(host, stats, None, count).take(3) == up_ops.take(3)
        }),
{
    reveal_strlit("●");
    let up_ops = fitted_first_line_ops(host, stats, None, count, cols);
    assert(first_line_ops(host, stats, None, count).take(3) =~= up_ops.take(3));
}

/// The permanent line of an outage tells its start, its end and its duration, in
/// red.
pub proof fn law_outage_line_text(start: ClockTime, end: ClockTime, duration: nat)
    ensures
        outage_line(start, end, duration) == "✗ outage "@ + clock_text(start) + " → "@ + clock_text(
            end,
        ) + " ("@ + short_text(duration) + ")\n"@,
        outage_ops(start, end, duration).len() == 3,
        outage_ops(start, end, duration)[0] == Op::SetForeground(Color::Red),
        outage_ops(start, end, duration)[1] == Op::Print(outage_line(start, end, duration)),
        outage_ops(start, end, duration)[2] == Op::ResetColor,
{
}

/// Operations do what they say, one by one and in order.
pub proof fn law_operations_in_order(ops: Seq<TermOp>, i: int)
    requires
        0 <= i < ops.len(),
    ensures
        ops_of(ops).len() == ops.len(),
        match ops[i] {
            TermOp::HideCursor => ops_of(ops)[i] == Op::HideCursor,
            TermOp::ShowCursor => ops_of(ops)[i] == Op::ShowCursor,
            TermOp::MoveUp(n) => ops_of(ops)[i] == Op::MoveUp(n as nat),
            TermOp::MoveDown(n) => ops_of(ops)[i] == Op::MoveDown(n as nat),
            TermOp::ClearLine => ops_of(ops)[i] == Op::ClearLine,
            TermOp::SetForeground(c) => ops_of(ops)[i] == Op::SetForeground(c),
            TermOp::ResetColor => ops_of(ops)[i] == Op::ResetColor,
            TermOp::Print(s) => ops_of(ops)[i] == Op::Print(s@),
        },
{
}

/// Clearing a panel of `height` lines takes two operations per line and two
/// moves; it moves and clears, and prints nothing.
pub proof fn law_clearing_prints_nothing(height: nat)
    ensures
        clear_ops(0).len() == 0,
        height > 0 ==> clear_ops(height).len() == 2 * height + 2,
        printed(clear_ops(height)).len() == 0,
    decreases height,
{
    lemma_clear_lines_print_nothing(height);
    let up = seq![Op::MoveUp(height)];
    let lines = crate::display::clear_lines(height);
    if height > 0 {
        crate::screen::lemma_printed_one(up[0]);
        crate::screen::lemma_printed_concat(up, lines);
        crate::screen::lemma_printed_concat(up + lines, up);
    }
}

/// Clearing lines prints nothing.
proof fn lemma_clear_lines_print_nothing(n: nat)
    ensures
        crate::display::clear_lines(n).len() == 2 * n,
        printed(crate::display::clear_lines(n)).len() == 0,
    decreases n,
{
    if n > 0 {
        let less = crate::display::clear_lines((n - 1) as nat);
        let clear = seq![Op::ClearLine];
        let down = seq![Op::MoveDown(1)];
        lemma_clear_lines_print_nothing((n - 1) as nat);
        crate::screen::lemma_printed_one(clear[0]);
        crate::screen::lemma_printed_one(down[0]);
        crate::screen::lemma_printed_concat(less, clear);
        crate::screen::lemma_printed_concat(less + clear, down);
        assert(crate::display::clear_lines(n) =~= less + clear + down);
    }
}

/// Where the cursor could not be hidden it is as it was before, and the panel
/// too. A failure is taken back once, and there is nothing to take back on a
/// display that has drawn nothing.
pub proof fn law_failed_hiding_is_taken_back(d: DisplayView, was_hidden: bool, performed: nat)
    requires
        d.pending == (Pending::Hide { was_hidden }),
    ensures
        d.failed(performed).hidden_cursor == was_hidden,
        d.failed(performed).last_height == d.last_height,
        d.failed(performed).failed(performed) == d.failed(performed),
        DisplayView::fresh().failed(performed) == DisplayView::fresh(),
        DisplayView::fresh().last_height == 0,
        !DisplayView::fresh().hidden_cursor,
{
}

/// A panel that is drawn has its height until the next one is.
pub proof fn law_drawn_panel_has_its_height(d: DisplayView, height: u16)
    ensures
        d.redrawn(height).last_height == height,
        d.redrawn(height).pending == (Pending::Draw { was_height: d.last_height }),
{
}

/// An optional text is there exactly where the string slice is.
pub proof fn law_optional_text(s: Option<&str>)
    ensures
        opt_str(s) is Some <==> s is Some,
        s matches Some(text) ==> opt_str(s) == Some(text@),
{
}

/// The rating of a connection, and its color, by what is known of it: red
/// exactly where it is down or a fifth or more was lost, green exactly where it
/// is not, less than a hundredth was lost and the average is below 60
/// milliseconds or unknown, and yellow otherwise.
pub proof fn law_rating(avg: Option<Duration>, loss: Loss, is_down: bool, q: Quality, c: Color)
    requires
        call_ensures(quality, (avg, loss, is_down), q),
        call_ensures(color_for, (q,), c),
    ensures
        c == Color::Red <==> (is_down || (loss.total > 0 && 5 * loss.lost >= loss.total)),
        c == Color::Green <==> {
            &&& !is_down
            &&& loss.total == 0 || 100 * loss.lost < loss.total
            &&& avg matches Some(a) ==> a@ < 60_000_000
        },
{
    law_quality_thresholds(opt_nanos(avg), loss, is_down);
}

/// The text of a span in milliseconds reads back as its whole milliseconds, and
/// the bar of a level is the block of that many eighths and one.
pub proof fn law_texts_of_figures(d: Duration, ms: String, level: u8, bar: char)
    requires
        level <= 7,
        call_ensures(fmt_ms, (d,), ms),
        call_ensures(spark_char, (level,), bar),
    ensures
        ({
            let n = decimal_value(ms@.take(ms@.len() - 2));
            &&& ms@ == decimal(n) + "ms"@
            &&& n * 1_000_000 <= d@ < (n + 1) * 1_000_000
        }),
        bar as nat == 0x2581 + level,
{
    law_milliseconds_read_back(d@);
    law_bars_rise_by_eighths(level as int);
}

/// The text of a span of `h` hours, `m` minutes and `s` seconds, whatever
/// fraction of a second is left, is that of its two highest units.
pub proof fn law_short_span(d: Duration, h: nat, m: nat, s: nat, frac: nat, text: String)
    requires
        m < 60,
        s < 60,
        frac < 1_000_000_000,
        d@ == ((h * 60 + m) * 60 + s) * 1_000_000_000 + frac,
        call_ensures(fmt_duration_short, (d,), text),
    ensures
        h > 0 ==> text@ == decimal(h) + "h"@ + decimal(m) + "m"@,
        h == 0 && m > 0 ==> text@ == decimal(m) + "m"@ + decimal(s) + "s"@,
        h == 0 && m == 0 ==> text@ == decimal(s) + "s"@,
{
    law_spans_show_two_units(h, m, s, frac);
}

/// The text of a time of day, in the platform's local time where it tells it:
/// two digits each for hours, minutes and seconds; to the minute it is the same
/// without the seconds.
pub proof fn law_local_time(t: SystemTime, local: ClockTime, hms: String, hm: String)
    requires
        local.hour < 100,
        local.min < 100,
        local.sec < 100,
        call_ensures(local_hms, (t, Some(local)), hms),
        call_ensures(local_hm, (t, Some(local)), hm),
    ensures
        hms@.len() == 8,
        hms@[2] == ':' && hms@[5] == ':',
        decimal_value(hms@.subrange(0, 2)) == local.hour,
        decimal_value(hms@.subrange(3, 5)) == local.min,
        decimal_value(hms@.subrange(6, 8)) == local.sec,
        hm@ == hms@.take(5),
{
    law_clock_reads_back(local);
}

/// The cursor is hidden by one operation and shown again by one, exactly where
/// it is hidden; neither touches the panel.
pub proof fn law_cursor_operations(
    a: &mut Display,
    hide: Vec<TermOp>,
    b: &mut Display,
    show: Vec<TermOp>,
)
    requires
        call_ensures(Display::hide_cursor, (a,), hide),
        call_ensures(Display::restore_cursor, (b,), show),
    ensures
        ops_of(hide@) == seq![Op::HideCursor],
        final(a)@.hidden_cursor,
        final(a)@.last_height == old(a)@.last_height,
        old(b)@.hidden_cursor ==> ops_of(show@) == seq![Op::ShowCursor],
        !old(b)@.hidden_cursor ==> show@.len() == 0,
        !final(b)@.hidden_cursor,
        final(b)@.last_height == old(b)@.last_height,
{
    assert(ops_of(show@).len() == show@.len());
}

/// A permanent line is printed by what clears the panel and then that line, and
/// leaves no panel: that of an outage tells the times of day of its start and its
/// end and its duration, in red, and a notice what it was given.
pub proof fn law_permanent_line_operations(
    a: &mut Display,
    t: SystemTime,
    duration: Duration,
    start: ClockTime,
    end: ClockTime,
    outage: Vec<TermOp>,
    short: String,
    b: &mut Display,
    text: &str,
    notice: Vec<TermOp>,
)
    requires
        call_ensures(Display::emit_outage_line, (a, t, duration, Some(start), Some(end)), outage),
        call_ensures(fmt_duration_short, (duration,), short),
        call_ensures(Display::emit_notice_line, (b, text), notice),
    ensures
        ops_of(outage@) == clear_ops(old(a)@.last_height as nat) + seq![
            Op::SetForeground(Color::Red),
            Op::Print(
                "✗ outage "@ + clock_text(start) + " → "@ + clock_text(end) + " ("@ + short@
                    + ")\n"@,
            ),
            Op::ResetColor,
        ],
        final(a)@.last_height == 0,
        ops_of(notice@) == clear_ops(old(b)@.last_height as nat) + seq![Op::Print(text@ + "\n"@)],
        final(b)@.last_height == 0,
{
    law_outage_line_text(start, end, duration@);
    assert(outage_ops(start, end, duration@) =~= seq![
        Op::SetForeground(Color::Red),
        Op::Print(outage_line(start, end, duration@)),
        Op::ResetColor,
    ]);
    assert(ops_of(notice@) =~= clear_ops(old(b)@.last_height as nat) + seq![
        Op::Print(text@ + "\n"@),
    ]);
}

/// Where there are columns enough for the lines of the whole panel, drawing it
/// prints them: after what clears the old panel, the operations print nothing
/// else, and the panel is as high as it has lines.
pub proof fn law_rendered_text(
    d: &mut Display,
    host: &str,
    stats: &Stats,
    down: Option<Duration>,
    uptime: Option<Duration>,
    summary: Option<&str>,
    count: usize,
    cols: usize,
    ops: Vec<TermOp>,
    full: Seq<Seq<char>>,
)
    requires
        call_ensures(Display::render, (d, host, stats, down, uptime, summary, count, cols), ops),
        full == full_lines(
            host@,
            stats@,
            opt_nanos(down),
            opt_nanos(uptime),
            opt_str(summary),
            count as nat,
        ),
        forall|i: int| 0 <= i < full.len() ==> (#[trigger] full[i]).len() <= cols,
    ensures
        printed(ops_of(ops@)) == with_breaks(full),
        final(d)@.last_height == full.len(),
        final(d)@.hidden_cursor == old(d)@.hidden_cursor,
        full.len() == if summary is Some {
            3nat
        } else {
            2
        },
{
    let (down, uptime, summary) = (opt_nanos(down), opt_nanos(uptime), opt_str(summary));
    law_panel_fits_its_columns(host@, stats@, down, uptime, summary, count as nat, cols as nat);
    let panel = fitted_panel_ops(
        host@,
        stats@,
        down,
        uptime,
        summary,
        count as nat,
        cols as nat,
    );
    let cleared = clear_ops(old(d)@.last_height as nat);
    law_clearing_prints_nothing(old(d)@.last_height as nat);
    crate::screen::lemma_printed_concat(cleared, panel);
    assert(printed(cleared) + printed(panel) =~= printed(panel));
}

/// In narrow panes the line of a connection that is down and the line of the last
/// outage are cut off where the columns end, and no sooner. The second line
/// begins with the average however few columns there are, and keeps all its
/// entries where they fit.
pub proof fn law_other_lines_shrink(
    host: Seq<char>,
    stats: StatsView,
    down: nat,
    uptime: Option<nat>,
    summary: Seq<char>,
    count: nat,
    cols: nat,
)
    ensures
        ({
            let full = full_lines(host, stats, Some(down), uptime, Some(summary), count);
            let lines = fitted_lines(host, stats, Some(down), uptime, Some(summary), count, cols);
            let avg = "  avg "@ + ms_or_dash(window_avg(stats));
            &&& lines.len() == 3
            &&& cut_off(lines[0], full[0], cols)
            &&& cut_off(lines[2], full[2], cols)
            &&& lines[1].len() <= cols
            &&& full[1].len() <= cols ==> lines[1] == full[1]
            &&& avg.len() > cols ==> cut_off(lines[1], avg, cols)
            &&& avg.len() <= cols ==> avg.is_prefix_of(lines[1])
        }),
{
    let parts = stats_parts(stats, uptime);
    law_panel_fits_its_columns(
        host,
        stats,
        Some(down),
        uptime,
        Some(summary),
        count,
        cols,
    );
    law_fitted_parts_take_no_more(parts, cols);
    crate::screen::lemma_second_line_joined(stats, uptime);
    if parts[0].len() <= cols {
        let n = choose|n: int|
            #![trigger parts.take(n)]
            {
                &&& 1 <= n <= parts.len()
                &&& fit_parts(parts, cols) == joined(parts.take(n))
                &&& n < parts.len() ==> joined(parts.take(n + 1)).len() > cols
            };
        let some = parts.take(n);
        law_joined_in_order(some.take(1), some.skip(1), parts[0]);
        assert(some.take(1) + some.skip(1) =~= some);
        assert(some.take(1) =~= seq![parts[0]]);
    }
}

/// `line` is `text`, or the first `cols` characters of it where it is longer.
pub open spec fn cut_off(line: Seq<char>, text: Seq<char>, cols: nat) -> bool {
    &&& line.is_prefix_of(text)
    &&& line.len() <= cols
    &&& line.len() == cols || line.len() == text.len()
}

} // verus!
