//! What a whole run leaves on the terminal: one permanent line per outage, and
//! the panel below them, which never moves for anything else.

use vstd::prelude::*;

use crate::display::{clear_ops, clock_at, fitted_panel_ops, outage_line, outage_ops};
use crate::display::panel_height;
use crate::display::{ClockTime, Op};
use crate::screen::{fitted_lines, one_line, wrapped, Screen};
use crate::screen::{law_notice_leaves_one_line, law_outage_leaves_one_line};
use crate::screen::{law_render_stays_in_place, law_wrapped_rows};
use crate::session::{cap_notice_text, lines_shown, notices_shown, run, transitions};
use crate::session::{law_outage_lines, lemma_cap_notice_one_line};
use crate::session::{Arrival, OutageLine, TransitionView};
use crate::stats::StatsView;

verus! {

/// One time that the display draws: the panel, the permanent line of an outage,
/// or a permanent notice.
pub enum Step {
    Panel {
        host: Seq<char>,
        stats: StatsView,
        down_for: Option<nat>,
        uptime: Option<nat>,
        last_outage: Option<Seq<char>>,
        spark_count: nat,
        cols: nat,
    },
    Outage { start: ClockTime, end: ClockTime, duration: nat },
    Notice(Seq<char>),
}

impl Step {
    /// The operations of the step where a panel of `height` lines is above the
    /// cursor.
    pub open spec fn ops(self, height: nat) -> Seq<Op> {
        clear_ops(height) + match self {
            Step::Panel { host, stats, down_for, uptime, last_outage, spark_count, cols } =>
            fitted_panel_ops(host, stats, down_for, uptime, last_outage, spark_count, cols),
            Step::Outage { start, end, duration } => outage_ops(start, end, duration),
            Step::Notice(notice) => seq![Op::Print(notice + "\n"@)],
        }
    }

    /// The lines of the panel that is above the cursor after the step.
    pub open spec fn panel(self) -> Seq<Seq<char>> {
        match self {
            Step::Panel { host, stats, down_for, uptime, last_outage, spark_count, cols } =>
            fitted_lines(host, stats, down_for, uptime, last_outage, spark_count, cols),
            _ => seq![],
        }
    }

    /// The height of that panel.
    pub open spec fn height(self) -> nat {
        match self {
            Step::Panel { last_outage, .. } => panel_height(last_outage) as nat,
            _ => 0,
        }
    }

    /// The permanent lines that the step leaves: one, or none for a panel.
    pub open spec fn lines(self) -> Seq<Seq<char>> {
        match self {
            Step::Panel { .. } => seq![],
            Step::Outage { start, end, duration } => seq![
                outage_line(start, end, duration).drop_last(),
            ],
            Step::Notice(notice) => seq![notice],
        }
    }

    /// The rows that these lines take on a terminal `width` columns wide.
    pub open spec fn rows(self, width: nat) -> Seq<Seq<char>> {
        if self.lines().len() == 0 {
            seq![]
        } else {
            wrapped(self.lines()[0], width)
        }
    }

    /// The panel is drawn for no more columns than there are, and no text holds
    /// a line break of its own.
    pub open spec fn fits(self, width: nat) -> bool {
        match self {
            Step::Panel { host, last_outage, cols, .. } => {
                &&& cols <= width
                &&& one_line(host)
                &&& last_outage matches Some(summary) ==> one_line(summary)
            },
            Step::Outage { .. } => true,
            Step::Notice(notice) => one_line(notice),
        }
    }
}

/// The height of the panel after `steps`: that of the last step, none before
/// the first.
pub open spec fn height_after(steps: Seq<Step>) -> nat {
    if steps.len() == 0 {
        0
    } else {
        steps.last().height()
    }
}

/// The lines of the panel after `steps`.
pub open spec fn panel_after(steps: Seq<Step>) -> Seq<Seq<char>> {
    if steps.len() == 0 {
        seq![]
    } else {
        steps.last().panel()
    }
}

/// The screen after `steps`, each drawn over the panel that the one before it
/// left.
pub open spec fn drawn(screen: Screen, steps: Seq<Step>) -> Screen
    decreases steps.len(),
{
    if steps.len() == 0 {
        screen
    } else {
        let before = steps.drop_last();
        drawn(screen, before).perform_all(steps.last().ops(height_after(before)))
    }
}

/// The permanent lines of `steps`, in order.
pub open spec fn permanent_lines(steps: Seq<Step>) -> Seq<Seq<char>>
    decreases steps.len(),
{
    if steps.len() == 0 {
        seq![]
    } else {
        permanent_lines(steps.drop_last()) + steps.last().lines()
    }
}

/// The rows that the permanent lines of `steps` take, in order.
pub open spec fn permanent_rows(steps: Seq<Step>, width: nat) -> Seq<Seq<char>>
    decreases steps.len(),
{
    if steps.len() == 0 {
        seq![]
    } else {
        permanent_rows(steps.drop_last(), width) + steps.last().rows(width)
    }
}

/// Over a whole run, however often the panel is redrawn, the terminal holds
/// exactly this from the row where the run began: the permanent lines in order,
/// then the last panel, then nothing, with the cursor on the row below the
/// panel. So nothing but a permanent line ever moves the panel down. The rows
/// above are as they were.
pub proof fn law_run_keeps_its_place(screen: Screen, steps: Seq<Step>)
    requires
        screen.blank_from(screen.row),
        forall|i: int| 0 <= i < steps.len() ==> (#[trigger] steps[i]).fits(screen.width),
    ensures
        ({
            let after = drawn(screen, steps);
            let kept = permanent_rows(steps, screen.width);
            let panel = panel_after(steps);
            &&& after.width == screen.width
            &&& panel.len() == height_after(steps)
            &&& after.row == screen.row + kept.len() + height_after(steps)
            &&& after.agrees_above(screen, screen.row)
            &&& forall|i: int|
                0 <= i < kept.len() ==> (after.rows)(screen.row + i) == #[trigger] kept[i]
            &&& forall|i: int|
                0 <= i < panel.len() ==> (after.rows)(screen.row + kept.len() + i)
                    == #[trigger] panel[i]
            &&& after.blank_from(after.row)
        }),
    decreases steps.len(),
{
    if steps.len() > 0 {
        let before = steps.drop_last();
        let step = steps[steps.len() - 1];
        assert forall|i: int| 0 <= i < before.len() implies (#[trigger] before[i]).fits(
            screen.width,
        ) by {
            assert(before[i] == steps[i]);
        }
        law_run_keeps_its_place(screen, before);
        let mid = drawn(screen, before);
        let height = height_after(before);
        let kept = permanent_rows(before, screen.width);
        let all = permanent_rows(steps, screen.width);
        let after = drawn(screen, steps);
        let top = screen.row + kept.len();
        assert(step.fits(screen.width));
        match step {
            Step::Panel { host, stats, down_for, uptime, last_outage, spark_count, cols } => {
                law_render_stays_in_place(
                    mid,
                    height,
                    host,
                    stats,
                    down_for,
                    uptime,
                    last_outage,
                    spark_count,
                    cols,
                );
            },
            Step::Outage { start, end, duration } => {
                law_outage_leaves_one_line(mid, height, start, end, duration);
            },
            Step::Notice(notice) => {
                law_notice_leaves_one_line(mid, height, notice);
            },
        }
        let rows = step.rows(screen.width);
        assert forall|i: int| 0 <= i < all.len() implies (after.rows)(screen.row + i)
            == #[trigger] all[i] by {
            if i < kept.len() {
                assert(all[i] == kept[i]);
                assert((after.rows)(screen.row + i) == (mid.rows)(screen.row + i));
            } else {
                assert(all[i] == rows[i - kept.len()]);
                assert((after.rows)(top + (i - kept.len())) == rows[i - kept.len()]);
            }
        }
        assert forall|i: int| i < screen.row implies #[trigger] (after.rows)(i) == (screen.rows)(
            i,
        ) by {
            assert((after.rows)(i) == (mid.rows)(i));
        }
    }
}

/// Permanent lines that fit the width take one row each.
pub proof fn law_one_row_per_permanent_line(steps: Seq<Step>, width: nat)
    requires
        forall|i: int|
            0 <= i < permanent_lines(steps).len() ==> (#[trigger] permanent_lines(steps)[i]).len()
                <= width,
    ensures
        permanent_rows(steps, width) == permanent_lines(steps),
    decreases steps.len(),
{
    if steps.len() > 0 {
        let before = steps.drop_last();
        let all = permanent_lines(steps);
        let some = permanent_lines(before);
        let last = steps.last().lines();
        assert forall|i: int| 0 <= i < some.len() implies (#[trigger] some[i]).len() <= width by {
            assert(some[i] == all[i]);
        }
        law_one_row_per_permanent_line(before, width);
        if last.len() > 0 {
            assert(last.len() == 1);
            assert(all[some.len() as int] == last[0]);
            law_wrapped_rows(last[0], width);
            assert(steps.last().rows(width) =~= last);
        }
    }
}

/// What is drawn on one ping outcome besides what the session tells: the local
/// times of day of the start and the end of an outage, and the panel.
pub struct Tick {
    pub start_local: Option<ClockTime>,
    pub end_local: Option<ClockTime>,
    pub panel: Step,
}

/// What is drawn on one ping outcome: the permanent line that `transition` calls
/// for, if any, and then the panel.
pub open spec fn tick_steps(transition: TransitionView, tick: Tick) -> Seq<Step> {
    let line = match transition {
        TransitionView::Recovered { started, duration, line } => match line {
            OutageLine::Shown => seq![
                Step::Outage {
                    start: clock_at(started, tick.start_local),
                    end: clock_at(started + duration, tick.end_local),
                    duration,
                },
            ],
            OutageLine::CapNotice(cap) => seq![Step::Notice(cap_notice_text(cap as nat))],
            OutageLine::Silent => seq![],
        },
        _ => seq![],
    };
    line + seq![tick.panel]
}

/// What is drawn over a session.
pub open spec fn session_steps(ts: Seq<TransitionView>, ticks: Seq<Tick>) -> Seq<Step>
    decreases ts.len(),
{
    if ts.len() == 0 {
        seq![]
    } else {
        session_steps(ts.drop_last(), ticks) + tick_steps(ts.last(), ticks[ts.len() - 1])
    }
}

/// The panels of `ticks` fit a terminal `width` columns wide.
pub open spec fn panels_fit(ticks: Seq<Tick>, width: nat) -> bool {
    forall|i: int|
        0 <= i < ticks.len() ==> (#[trigger] ticks[i]).panel is Panel && ticks[i].panel.fits(width)
}

/// Steps drawn after others leave their lines after theirs.
proof fn lemma_permanent_concat(a: Seq<Step>, b: Seq<Step>)
    ensures
        permanent_lines(a + b) == permanent_lines(a) + permanent_lines(b),
    decreases b.len(),
{
    if b.len() == 0 {
        assert(a + b =~= a);
        assert(permanent_lines(a) + permanent_lines(b) =~= permanent_lines(a));
    } else {
        lemma_permanent_concat(a, b.drop_last());
        assert((a + b).drop_last() =~= a + b.drop_last());
        assert(permanent_lines(a + b) =~= permanent_lines(a) + permanent_lines(b));
    }
}

/// What one outcome draws fits, and leaves one permanent line exactly where the
/// transition calls for one.
proof fn lemma_tick(transition: TransitionView, tick: Tick, width: nat)
    requires
        tick.panel is Panel,
        tick.panel.fits(width),
    ensures
        forall|i: int|
            0 <= i < tick_steps(transition, tick).len() ==> (#[trigger] tick_steps(
                transition,
                tick,
            )[i]).fits(width),
        permanent_lines(tick_steps(transition, tick)).len() == (if transition matches
            TransitionView::Recovered { started, duration, line } && line !is Silent {
            1nat
        } else {
            0
        }),
{
    let steps = tick_steps(transition, tick);
    reveal_with_fuel(permanent_lines, 3);
    if let TransitionView::Recovered { started, duration, line } = transition {
        if let OutageLine::CapNotice(cap) = line {
            lemma_cap_notice_one_line(cap as nat);
        }
    }
    if steps.len() == 2 {
        assert(steps.drop_last().drop_last() =~= seq![]);
    } else {
        assert(steps.drop_last() =~= seq![]);
    }
}

/// What a session draws fits, and leaves one permanent line for each outage line
/// and each notice.
proof fn lemma_session_steps(
    window: nat,
    max_outages: Option<u32>,
    arrivals: Seq<Arrival>,
    ticks: Seq<Tick>,
    width: nat,
)
    requires
        arrivals.len() <= ticks.len(),
        panels_fit(ticks, width),
    ensures
        ({
            let ts = transitions(window, max_outages, arrivals);
            let steps = session_steps(ts, ticks);
            &&& ts.len() == arrivals.len()
            &&& forall|i: int| 0 <= i < steps.len() ==> (#[trigger] steps[i]).fits(width)
            &&& permanent_lines(steps).len() == lines_shown(ts) + notices_shown(ts)
            &&& arrivals.len() > 0 ==> steps.len() > 0 && steps.last() == ticks[arrivals.len()
                - 1].panel
        }),
    decreases arrivals.len(),
{
    if arrivals.len() > 0 {
        let before = arrivals.drop_last();
        lemma_session_steps(window, max_outages, before, ticks, width);
        let ts = transitions(window, max_outages, arrivals);
        let earlier = transitions(window, max_outages, before);
        assert(ts.drop_last() =~= earlier);
        let tick = ticks[arrivals.len() - 1];
        lemma_tick(ts.last(), tick, width);
        lemma_permanent_concat(session_steps(earlier, ticks), tick_steps(ts.last(), tick));
        let steps = session_steps(ts, ticks);
        let first = session_steps(earlier, ticks);
        assert forall|i: int| 0 <= i < steps.len() implies (#[trigger] steps[i]).fits(width) by {
            if i < first.len() {
                assert(steps[i] == first[i]);
            } else {
                assert(steps[i] == tick_steps(ts.last(), tick)[i - first.len()]);
            }
        }
    }
}

/// Over a whole session the panel never moves down for a ping: however many
/// outcomes arrived, and whatever the panel showed, the terminal holds one
/// permanent line for each outage line and cap notice of the session, and the
/// panel below them. Where the lines fit the width this is one row per outage
/// that has ended, as long as no cap limits the lines.
pub proof fn law_session_leaves_one_line_per_outage(
    screen: Screen,
    window: nat,
    max_outages: Option<u32>,
    arrivals: Seq<Arrival>,
    ticks: Seq<Tick>,
)
    requires
        screen.blank_from(screen.row),
        arrivals.len() == ticks.len(),
        panels_fit(ticks, screen.width),
    ensures
        ({
            let ts = transitions(window, max_outages, arrivals);
            let steps = session_steps(ts, ticks);
            let lines = permanent_lines(steps);
            let after = drawn(screen, steps);
            &&& lines.len() == lines_shown(ts) + notices_shown(ts)
            &&& max_outages is None ==> lines.len() == run(
                window,
                max_outages,
                arrivals,
            ).outage_count
            &&& after.row == screen.row + permanent_rows(steps, screen.width).len() + height_after(
                steps,
            )
            &&& arrivals.len() > 0 ==> height_after(steps) == ticks.last().panel.height()
            &&& after.agrees_above(screen, screen.row)
            &&& after.blank_from(after.row)
            &&& (forall|i: int|
                0 <= i < lines.len() ==> (#[trigger] lines[i]).len() <= screen.width) ==> {
                &&& after.row == screen.row + lines.len() + height_after(steps)
                &&& forall|i: int|
                    0 <= i < lines.len() ==> (after.rows)(screen.row + i) == #[trigger] lines[i]
            }
        }),
{
    let ts = transitions(window, max_outages, arrivals);
    let steps = session_steps(ts, ticks);
    let lines = permanent_lines(steps);
    lemma_session_steps(window, max_outages, arrivals, ticks, screen.width);
    law_run_keeps_its_place(screen, steps);
    law_outage_lines(window, max_outages, arrivals);
    if forall|i: int| 0 <= i < lines.len() ==> (#[trigger] lines[i]).len() <= screen.width {
        law_one_row_per_permanent_line(steps, screen.width);
    }
}

} // verus!
