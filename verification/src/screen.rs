//! What the display's operations do to a terminal, and that the panel stays in
//! place.

use vstd::prelude::*;

use crate::display::{clear_lines, clear_ops, panel_height};
use crate::display::{clock_text, ms_or_dash, outage_line, outage_ops, short_or_dash};
use crate::display::short_text;
use crate::display::{down_text, first_line_ops, panel_ops, second_line, third_line, up_text};
use crate::display::{fitted_first_line_ops, fitted_panel_ops, room_behind_dot, spark_room};
use crate::display::{latest_rtt, window_avg, window_jitter, window_loss, window_sparkline};
use crate::display::{smaller, spark_chars, spark_ops, sparkline_ops, stats_parts};
use crate::display::{ClockTime, Color, Op};
use crate::fit::{fit, fit_parts, joined, law_fitted_parts_take_no_more};
use crate::stats::{last_samples, StatsView};
use crate::text::{decimal, lemma_decimal_digits, two_digits};

verus! {

/// A terminal that is `width` columns wide and never runs out of rows: the row
/// of the cursor, and the text of each row. Text is added at the end of the
/// cursor's row, and goes on in the next row where that one is full.
#[verifier::ext_equal]
pub struct Screen {
    pub width: nat,
    pub row: int,
    pub rows: spec_fn(int) -> Seq<char>,
}

impl Screen {
    /// The text of row `r` replaced.
    pub open spec fn with_row(self, r: int, text: Seq<char>) -> Screen {
        Screen {
            rows: |i: int|
                if i == r {
                    text
                } else {
                    (self.rows)(i)
                },
            ..self
        }
    }

    /// One character printed.
    pub open spec fn put(self, c: char) -> Screen {
        if c == '\n' {
            Screen { row: self.row + 1, ..self }
        } else if (self.rows)(self.row).len() < self.width {
            self.with_row(self.row, (self.rows)(self.row).push(c))
        } else {
            Screen { row: self.row + 1, ..self }.with_row(
                self.row + 1,
                (self.rows)(self.row + 1).push(c),
            )
        }
    }

    /// A text printed.
    pub open spec fn print(self, text: Seq<char>) -> Screen
        decreases text.len(),
    {
        if text.len() == 0 {
            self
        } else {
            self.print(text.drop_last()).put(text.last())
        }
    }

    /// One operation performed.
    pub open spec fn perform(self, op: Op) -> Screen {
        match op {
            Op::MoveUp(n) => Screen { row: self.row - n, ..self },
            Op::MoveDown(n) => Screen { row: self.row + n, ..self },
            Op::ClearLine => self.with_row(self.row, seq![]),
            Op::Print(text) => self.print(text),
            Op::HideCursor => self,
            Op::ShowCursor => self,
            Op::SetForeground(_) => self,
            Op::ResetColor => self,
        }
    }

    /// Operations performed in order.
    pub open spec fn perform_all(self, ops: Seq<Op>) -> Screen
        decreases ops.len(),
    {
        if ops.len() == 0 {
            self
        } else {
            self.perform_all(ops.drop_last()).perform(ops.last())
        }
    }

    /// Nothing is written from row `r` on.
    pub open spec fn blank_from(self, r: int) -> bool {
        forall|i: int| i >= r ==> (#[trigger] (self.rows)(i)).len() == 0
    }

    /// The rows above `r` are those of `other`.
    pub open spec fn agrees_above(self, other: Screen, r: int) -> bool {
        forall|i: int| i < r ==> #[trigger] (self.rows)(i) == (other.rows)(i)
    }
}

/// `s` holds no line break.
pub open spec fn one_line(s: Seq<char>) -> bool {
    forall|i: int| 0 <= i < s.len() ==> #[trigger] s[i] != '\n'
}

/// Operations of two lists are performed one list after the other.
proof fn lemma_perform_concat(screen: Screen, a: Seq<Op>, b: Seq<Op>)
    ensures
        screen.perform_all(a + b) == screen.perform_all(a).perform_all(b),
    decreases b.len(),
{
    if b.len() == 0 {
        assert(a + b =~= a);
    } else {
        lemma_perform_concat(screen, a, b.drop_last());
        assert((a + b).drop_last() =~= a + b.drop_last());
    }
}

/// A text without line breaks is added to the cursor's row if there is room.
proof fn lemma_print_one_line(screen: Screen, text: Seq<char>)
    requires
        one_line(text),
        (screen.rows)(screen.row).len() + text.len() <= screen.width,
    ensures
        screen.print(text) == screen.with_row(screen.row, (screen.rows)(screen.row) + text),
    decreases text.len(),
{
    let row = (screen.rows)(screen.row);
    if text.len() == 0 {
        assert(row + text =~= row);
    } else {
        let init = text.drop_last();
        lemma_one_line_prefix(text, text.len() - 1);
        assert(text.take(text.len() - 1) =~= init);
        lemma_print_one_line(screen, init);
        assert(text[text.len() - 1] != '\n');
        assert((row + init).push(text.last()) =~= row + text);
    }
    assert(screen.print(text) =~= screen.with_row(screen.row, row + text));
}

/// The rows that `text` takes on a terminal `width` columns wide, from an empty
/// row on: each character goes to the end of the last row, or to a new one
/// where that row is full.
pub open spec fn wrapped(text: Seq<char>, width: nat) -> Seq<Seq<char>>
    decreases text.len(),
{
    if text.len() == 0 {
        seq![seq![]]
    } else {
        let rows = wrapped(text.drop_last(), width);
        if rows.last().len() < width {
            rows.drop_last().push(rows.last().push(text.last()))
        } else {
            rows.push(seq![text.last()])
        }
    }
}

/// The rows of a text hold that text and nothing else. A text that fits the
/// width takes one row; otherwise every row but the last is full, so that the
/// text takes as many rows as its length needs and no more.
pub proof fn law_wrapped_rows(text: Seq<char>, width: nat)
    ensures
        wrapped(text, width).len() >= 1,
        joined(wrapped(text, width)) == text,
        text.len() <= width ==> wrapped(text, width) == seq![text],
        width > 0 ==> {
            let rows = wrapped(text, width);
            &&& forall|i: int| 0 <= i < rows.len() - 1 ==> (#[trigger] rows[i]).len() == width
            &&& rows.last().len() <= width
            &&& rows.len() == if text.len() == 0 {
                1
            } else {
                (text.len() - 1) / width as int + 1
            }
        },
    decreases text.len(),
{
    let rows = wrapped(text, width);
    if text.len() == 0 {
        assert(rows.drop_last() =~= seq![]);
        reveal_with_fuel(joined, 2);
        assert(joined(rows) =~= text);
        assert(rows =~= seq![text]);
    } else {
        let init = text.drop_last();
        let before = wrapped(init, width);
        law_wrapped_rows(init, width);
        assert(init.push(text.last()) =~= text);
        assert(joined(before) == joined(before.drop_last()) + before.last());
        if before.last().len() < width {
            assert(rows.drop_last() =~= before.drop_last());
            assert(joined(rows) =~= joined(before).push(text.last()));
        } else {
            assert(rows.drop_last() =~= before);
            assert(joined(rows) =~= joined(before).push(text.last()));
        }
        if text.len() <= width {
            assert(rows =~= seq![text]);
        }
        if width > 0 {
            lemma_wrapped_count(text, width);
            let k = rows.len() - 1;
            let last = rows.last().len() - 1;
            assert(text.len() - 1 == k * width + last);
            vstd::arithmetic::div_mod::lemma_fundamental_div_mod_converse(
                text.len() - 1,
                width as int,
                k,
                last,
            );
        }
    }
}

/// How much of a text stands in the rows before the last.
proof fn lemma_wrapped_count(text: Seq<char>, width: nat)
    requires
        width > 0,
    ensures
        wrapped(text, width).len() >= 1,
        text.len() == (wrapped(text, width).len() - 1) * width + wrapped(text, width).last().len(),
        wrapped(text, width).last().len() <= width,
        text.len() > 0 ==> wrapped(text, width).last().len() > 0,
    decreases text.len(),
{
    if text.len() == 0 {
        assert(0 * width == 0) by (nonlinear_arith);
    } else {
        let before = wrapped(text.drop_last(), width);
        lemma_wrapped_count(text.drop_last(), width);
        let n = before.len();
        assert((n - 1) * width + width == n * width) by (nonlinear_arith);
    }
}

/// A text without line breaks takes its rows from the cursor on.
proof fn lemma_print_wrapped(screen: Screen, text: Seq<char>)
    requires
        one_line(text),
        screen.blank_from(screen.row),
    ensures
        ({
            let after = screen.print(text);
            let rows = wrapped(text, screen.width);
            &&& rows.len() >= 1
            &&& after.row == screen.row + rows.len() - 1
            &&& after.width == screen.width
            &&& after.agrees_above(screen, screen.row)
            &&& forall|i: int|
                0 <= i < rows.len() ==> (after.rows)(screen.row + i) == #[trigger] rows[i]
            &&& after.blank_from(after.row + 1)
        }),
    decreases text.len(),
{
    let after = screen.print(text);
    let rows = wrapped(text, screen.width);
    if text.len() == 0 {
        assert((screen.rows)(screen.row) =~= rows[0]);
    } else {
        let init = text.drop_last();
        lemma_one_line_prefix(text, text.len() - 1);
        assert(text.take(text.len() - 1) =~= init);
        lemma_print_wrapped(screen, init);
        let mid = screen.print(init);
        let before = wrapped(init, screen.width);
        let c = text[text.len() - 1];
        assert(c != '\n');
        assert((mid.rows)(mid.row) == before[before.len() - 1]);
        if before.last().len() >= screen.width {
            assert((mid.rows)(mid.row + 1).push(c) =~= seq![c]);
        }
        assert forall|i: int| 0 <= i < rows.len() implies (after.rows)(screen.row + i)
            == #[trigger] rows[i] by {
            if i < before.len() - 1 {
                assert(rows[i] == before[i]);
            } else if i < before.len() {
                assert(before[i] == before.last());
            }
        }
    }
}

/// A line that is printed in the place of a cleared panel takes its rows from
/// the first row of the panel on, and the cursor moves to the row below.
proof fn lemma_permanent_line(screen: Screen, height: nat, ops: Seq<Op>, text: Seq<char>)
    requires
        screen.blank_from(screen.row),
        only_prints(ops),
        printed(ops) == text + seq!['\n'],
        one_line(text),
    ensures
        permanent_line_left(screen, height, ops, text),
{
    law_clearing_blanks_the_panel(screen, height);
    lemma_perform_concat(screen, clear_ops(height), ops);
    let cleared = screen.perform_all(clear_ops(height));
    lemma_only_prints(cleared, ops);
    lemma_print_wrapped(cleared, text);
    assert((text + seq!['\n']).drop_last() =~= text);
    law_wrapped_rows(text, screen.width);
}

/// After `ops` the line `text` stands in the place of the panel of `height`
/// lines above the cursor: it takes its rows from the first row of the panel
/// on, just one where it fits the width, the rows above are as they were, the
/// cursor stands on the row below it, and nothing is left from there on.
pub open spec fn permanent_line_left(
    screen: Screen,
    height: nat,
    ops: Seq<Op>,
    text: Seq<char>,
) -> bool {
    let top = screen.row - height;
    let rows = wrapped(text, screen.width);
    let after = screen.perform_all(clear_ops(height) + ops);
    &&& after.width == screen.width
    &&& after.row == top + rows.len()
    &&& after.agrees_above(screen, top)
    &&& forall|i: int| 0 <= i < rows.len() ==> (after.rows)(top + i) == #[trigger] rows[i]
    &&& after.blank_from(after.row)
    &&& text.len() <= screen.width ==> rows == seq![text]
}

/// The beginning of a text without line breaks has none.
proof fn lemma_one_line_prefix(text: Seq<char>, n: int)
    requires
        one_line(text),
        0 <= n <= text.len(),
    ensures
        one_line(text.take(n)),
{
    assert forall|i: int| 0 <= i < n implies #[trigger] text.take(n)[i] != '\n' by {
        assert(text.take(n)[i] == text[i]);
    }
}

/// Lines, each with a line break behind it.
pub open spec fn with_breaks(lines: Seq<Seq<char>>) -> Seq<char>
    decreases lines.len(),
{
    if lines.len() == 0 {
        seq![]
    } else {
        with_breaks(lines.drop_last()) + lines.last() + seq!['\n']
    }
}

/// Lines that fit the width take one row each, from the cursor on.
proof fn lemma_print_lines(screen: Screen, lines: Seq<Seq<char>>)
    requires
        screen.blank_from(screen.row),
        forall|i: int|
            0 <= i < lines.len() ==> one_line(#[trigger] lines[i]) && lines[i].len()
                <= screen.width,
    ensures
        ({
            let after = screen.print(with_breaks(lines));
            &&& after.row == screen.row + lines.len()
            &&& after.width == screen.width
            &&& after.agrees_above(screen, screen.row)
            &&& forall|i: int|
                0 <= i < lines.len() ==> (after.rows)(screen.row + i) == #[trigger] lines[i]
            &&& after.blank_from(after.row)
        }),
    decreases lines.len(),
{
    if lines.len() > 0 {
        let init = lines.drop_last();
        let line = lines.last();
        assert(one_line(lines[lines.len() - 1]) && line.len() <= screen.width);
        assert forall|i: int| 0 <= i < init.len() implies one_line(#[trigger] init[i])
            && init[i].len() <= screen.width by {
            assert(init[i] == lines[i]);
        }
        lemma_print_lines(screen, init);
        let mid = screen.print(with_breaks(init));
        assert((mid.rows)(mid.row) =~= seq![]);
        lemma_print_one_line(mid, line);
        assert((mid.rows)(mid.row) + line =~= line);
        lemma_print_concat(screen, with_breaks(init), line);
        let text = with_breaks(init) + line;
        assert(with_breaks(lines).drop_last() =~= text);
        let after = screen.print(with_breaks(lines));
        assert(after == mid.with_row(mid.row, line).put('\n'));
        assert forall|i: int| 0 <= i < lines.len() implies (after.rows)(screen.row + i)
            == #[trigger] lines[i] by {
            if i < init.len() {
                assert(lines[i] == init[i]);
            }
        }
    }
}

/// Clearing steps over `n` rows from the cursor on and blanks them.
proof fn lemma_clear_lines(screen: Screen, n: nat)
    ensures
        screen.perform_all(clear_lines(n)).row == screen.row + n,
        screen.perform_all(clear_lines(n)).width == screen.width,
        forall|i: int|
            #[trigger] (screen.perform_all(clear_lines(n)).rows)(i) == (if screen.row <= i
                < screen.row + n {
                seq![]
            } else {
                (screen.rows)(i)
            }),
    decreases n,
{
    if n > 0 {
        let less = clear_lines((n - 1) as nat);
        let last = seq![Op::ClearLine, Op::MoveDown(1)];
        lemma_clear_lines(screen, (n - 1) as nat);
        lemma_perform_concat(screen, less, last);
        let mid = screen.perform_all(less);
        assert(last.drop_last() =~= seq![Op::ClearLine]);
        assert(last.drop_last().drop_last() =~= seq![]);
        assert(mid.perform_all(last.drop_last().drop_last()) == mid);
        assert(mid.perform_all(last.drop_last()) == mid.perform(Op::ClearLine));
        assert(mid.perform_all(last) == mid.perform(Op::ClearLine).perform(Op::MoveDown(1)));
    }
}

/// Clearing a panel blanks exactly its rows, the `height` rows above the
/// cursor, and no other, and puts the cursor on the first of them. Where there
/// is no panel it does nothing, so that clearing twice is clearing once.
pub proof fn law_clearing_blanks_the_panel(screen: Screen, height: nat)
    ensures
        ({
            let after = screen.perform_all(clear_ops(height));
            &&& after.width == screen.width
            &&& after.row == screen.row - height
            &&& forall|i: int|
                #[trigger] (after.rows)(i) == (if screen.row - height <= i < screen.row {
                    seq![]
                } else {
                    (screen.rows)(i)
                })
            &&& after.perform_all(clear_ops(0)) == after
            &&& height == 0 ==> after == screen
        }),
{
    assert(clear_ops(0) =~= seq![]);
    if height > 0 {
        let up = seq![Op::MoveUp(height)];
        assert(up.drop_last() =~= seq![]);
        assert(screen.perform_all(up.drop_last()) == screen);
        let top = screen.perform_all(up);
        assert(top == screen.perform(Op::MoveUp(height)));
        lemma_perform_concat(screen, up, clear_lines(height));
        lemma_clear_lines(top, height);
        let bottom = top.perform_all(clear_lines(height));
        lemma_perform_concat(screen, up + clear_lines(height), up);
        assert(bottom.perform_all(up.drop_last()) == bottom);
        assert(bottom.perform_all(up) == bottom.perform(Op::MoveUp(height)));
    }
}

/// Texts printed one after the other are printed as one.
proof fn lemma_print_concat(screen: Screen, a: Seq<char>, b: Seq<char>)
    ensures
        screen.print(a + b) == screen.print(a).print(b),
    decreases b.len(),
{
    if b.len() == 0 {
        assert(a + b =~= a);
    } else {
        lemma_print_concat(screen, a, b.drop_last());
        assert((a + b).drop_last() =~= a + b.drop_last());
    }
}

/// The text of the sparkline.
pub open spec fn spark_text(entries: Seq<Option<u8>>) -> Seq<char> {
    Seq::new(
        entries.len(),
        |i: int|
            match entries[i] {
                Some(level) => spark_chars()[level as int],
                None => '×',
            },
    )
}

/// The text of the panel's first line.
pub open spec fn first_line(
    host: Seq<char>,
    stats: StatsView,
    down_for: Option<nat>,
    spark_count: nat,
) -> Seq<char> {
    match down_for {
        Some(down) => down_text(host, down),
        None => "●"@ + up_text(host, stats) + spark_text(window_sparkline(stats, spark_count)),
    }
}

/// The lines of the whole panel.
pub open spec fn full_lines(
    host: Seq<char>,
    stats: StatsView,
    down_for: Option<nat>,
    uptime: Option<nat>,
    last_outage: Option<Seq<char>>,
    spark_count: nat,
) -> Seq<Seq<char>> {
    seq![first_line(host, stats, down_for, spark_count), second_line(stats, uptime)]
        + match last_outage {
        Some(summary) => seq![third_line(summary)],
        None => seq![],
    }
}

/// The text of the panel's first line in `cols` columns.
pub open spec fn fitted_first_line(
    host: Seq<char>,
    stats: StatsView,
    down_for: Option<nat>,
    spark_count: nat,
    cols: nat,
) -> Seq<char> {
    match down_for {
        Some(down) => fit(down_text(host, down), cols),
        None => fit("●"@, cols) + fit(up_text(host, stats), room_behind_dot(cols)) + spark_text(
            window_sparkline(stats, smaller(spark_count, spark_room(host, stats, cols))),
        ),
    }
}

/// The lines of the panel in `cols` columns.
pub open spec fn fitted_lines(
    host: Seq<char>,
    stats: StatsView,
    down_for: Option<nat>,
    uptime: Option<nat>,
    last_outage: Option<Seq<char>>,
    spark_count: nat,
    cols: nat,
) -> Seq<Seq<char>> {
    seq![
        fitted_first_line(host, stats, down_for, spark_count, cols),
        fit_parts(stats_parts(stats, uptime), cols),
    ] + match last_outage {
        Some(summary) => seq![fit(third_line(summary), cols)],
        None => seq![],
    }
}

/// All the text that operations print.
pub open spec fn printed(ops: Seq<Op>) -> Seq<char>
    decreases ops.len(),
{
    if ops.len() == 0 {
        seq![]
    } else {
        match ops.last() {
            Op::Print(text) => printed(ops.drop_last()) + text,
            _ => printed(ops.drop_last()),
        }
    }
}

/// Operations that neither move the cursor nor clear anything.
pub open spec fn only_prints(ops: Seq<Op>) -> bool {
    forall|i: int|
        0 <= i < ops.len() ==> (#[trigger] ops[i]) is Print || ops[i] is SetForeground
            || ops[i] is ResetColor
}

/// Operations that only print do so one after the other.
proof fn lemma_only_prints(screen: Screen, ops: Seq<Op>)
    requires
        only_prints(ops),
    ensures
        screen.perform_all(ops) == screen.print(printed(ops)),
    decreases ops.len(),
{
    if ops.len() > 0 {
        let init = ops.drop_last();
        assert forall|i: int| 0 <= i < init.len() implies (#[trigger] init[i]) is Print
            || init[i] is SetForeground || init[i] is ResetColor by {
            assert(init[i] == ops[i]);
        }
        lemma_only_prints(screen, init);
        let last = ops[ops.len() - 1];
        if let Op::Print(text) = last {
            lemma_print_concat(screen, printed(init), text);
        }
    }
}

/// Two lists of operations print one text after the other.
pub(crate) proof fn lemma_printed_concat(a: Seq<Op>, b: Seq<Op>)
    ensures
        printed(a + b) == printed(a) + printed(b),
        only_prints(a) && only_prints(b) ==> only_prints(a + b),
    decreases b.len(),
{
    if b.len() == 0 {
        assert(a + b =~= a);
        assert(printed(a) + printed(b) =~= printed(a));
    } else {
        lemma_printed_concat(a, b.drop_last());
        assert((a + b).drop_last() =~= a + b.drop_last());
        assert(printed(a + b) =~= printed(a) + printed(b));
    }
}

/// What a single operation prints.
pub(crate) proof fn lemma_printed_one(op: Op)
    ensures
        printed(seq![op]) == (match op {
            Op::Print(text) => text,
            _ => seq![],
        }),
{
    let ops = seq![op];
    assert(ops.drop_last() =~= seq![]);
    reveal_with_fuel(printed, 2);
    if let Op::Print(text) = op {
        assert(printed(ops) =~= text);
    }
}

/// The sparkline is printed character by character.
proof fn lemma_sparkline(entries: Seq<Option<u8>>)
    ensures
        printed(sparkline_ops(entries)) == spark_text(entries),
        only_prints(sparkline_ops(entries)),
    decreases entries.len(),
{
    if entries.len() == 0 {
        assert(spark_text(entries) =~= seq![]);
    } else {
        let init = entries.drop_last();
        let last = entries.last();
        let ops = spark_ops(last);
        lemma_sparkline(init);
        lemma_printed_concat(sparkline_ops(init), ops);
        match last {
            Some(level) => {
                lemma_printed_one(ops[0]);
            },
            None => {
                let red = seq![Op::SetForeground(Color::Red)];
                let gap = seq![Op::Print(seq!['×'])];
                let reset = seq![Op::ResetColor];
                lemma_printed_one(red[0]);
                lemma_printed_one(gap[0]);
                lemma_printed_one(reset[0]);
                lemma_printed_concat(red, gap);
                lemma_printed_concat(red + gap, reset);
                assert(ops =~= red + gap + reset);
            },
        }
        assert(spark_text(entries) =~= spark_text(init) + printed(ops));
    }
}

/// The first line of the panel prints its text and a line break.
proof fn lemma_fitted_first_line(
    host: Seq<char>,
    stats: StatsView,
    down_for: Option<nat>,
    spark_count: nat,
    cols: nat,
)
    ensures
        printed(fitted_first_line_ops(host, stats, down_for, spark_count, cols))
            == fitted_first_line(host, stats, down_for, spark_count, cols) + seq!['\n'],
        only_prints(fitted_first_line_ops(host, stats, down_for, spark_count, cols)),
{
    reveal_strlit("\n");
    assert("\n"@ =~= seq!['\n']);
    let ops = fitted_first_line_ops(host, stats, down_for, spark_count, cols);
    let line = fitted_first_line(host, stats, down_for, spark_count, cols);
    let color = seq![ops[0]];
    let text = seq![ops[1]];
    let reset = seq![ops[2]];
    lemma_printed_one(ops[0]);
    lemma_printed_one(ops[1]);
    lemma_printed_one(ops[2]);
    lemma_printed_concat(color, text);
    lemma_printed_concat(color + text, reset);
    match down_for {
        Some(down) => {
            assert(ops =~= color + text + reset);
        },
        None => {
            let head = seq![ops[3]];
            let entries = window_sparkline(
                stats,
                smaller(spark_count, spark_room(host, stats, cols)),
            );
            let sparks = sparkline_ops(entries);
            let end = seq![Op::Print("\n"@)];
            lemma_printed_one(ops[3]);
            lemma_printed_one(end[0]);
            lemma_printed_concat(color + text + reset, head);
            lemma_sparkline(entries);
            lemma_printed_concat(color + text + reset + head, sparks);
            lemma_printed_concat(color + text + reset + head + sparks, end);
            assert(ops =~= color + text + reset + head + sparks + end);
        },
    }
    assert(printed(ops) =~= line + seq!['\n']);
}

/// The whole panel prints its lines.
proof fn lemma_fitted_panel(
    host: Seq<char>,
    stats: StatsView,
    down_for: Option<nat>,
    uptime: Option<nat>,
    last_outage: Option<Seq<char>>,
    spark_count: nat,
    cols: nat,
)
    ensures
        printed(
            fitted_panel_ops(host, stats, down_for, uptime, last_outage, spark_count, cols),
        ) == with_breaks(
            fitted_lines(host, stats, down_for, uptime, last_outage, spark_count, cols),
        ),
        only_prints(
            fitted_panel_ops(host, stats, down_for, uptime, last_outage, spark_count, cols),
        ),
{
    reveal_strlit("\n");
    assert("\n"@ =~= seq!['\n']);
    let ops = fitted_panel_ops(host, stats, down_for, uptime, last_outage, spark_count, cols);
    let lines = fitted_lines(host, stats, down_for, uptime, last_outage, spark_count, cols);
    let one = fitted_first_line_ops(host, stats, down_for, spark_count, cols);
    let two = seq![Op::Print(lines[1] + "\n"@)];
    lemma_fitted_first_line(host, stats, down_for, spark_count, cols);
    lemma_printed_one(two[0]);
    lemma_printed_concat(one, two);
    let first = lines.take(1);
    let both = lines.take(2);
    assert(first.drop_last() =~= seq![]);
    reveal_with_fuel(with_breaks, 2);
    assert(both.drop_last() =~= first);
    assert(with_breaks(first) =~= lines[0] + seq!['\n']);
    assert(with_breaks(both) =~= printed(one + two));
    match last_outage {
        Some(summary) => {
            let three = seq![Op::Print(lines[2] + "\n"@)];
            lemma_printed_one(three[0]);
            lemma_printed_concat(one + two, three);
            assert(ops =~= one + two + three);
            assert(lines.drop_last() =~= both);
            assert(with_breaks(lines) =~= printed(ops));
        },
        None => {
            assert(ops =~= one + two);
            assert(lines =~= both);
        },
    }
}

/// In however few columns, the panel prints two or three lines, each of which
/// takes at most the columns there are, and where the lines of the whole panel
/// fit it is the whole panel.
pub proof fn law_panel_fits_its_columns(
    host: Seq<char>,
    stats: StatsView,
    down_for: Option<nat>,
    uptime: Option<nat>,
    last_outage: Option<Seq<char>>,
    spark_count: nat,
    cols: nat,
)
    ensures
        ({
            let ops = fitted_panel_ops(
                host,
                stats,
                down_for,
                uptime,
                last_outage,
                spark_count,
                cols,
            );
            let lines = fitted_lines(
                host,
                stats,
                down_for,
                uptime,
                last_outage,
                spark_count,
                cols,
            );
            let full = full_lines(host, stats, down_for, uptime, last_outage, spark_count);
            &&& printed(ops) == with_breaks(lines)
            &&& lines.len() == panel_height(last_outage)
            &&& forall|i: int| 0 <= i < lines.len() ==> (#[trigger] lines[i]).len() <= cols
            &&& (forall|i: int| 0 <= i < full.len() ==> (#[trigger] full[i]).len() <= cols) ==> {
                &&& lines == full
                &&& ops == panel_ops(host, stats, down_for, uptime, last_outage, spark_count)
            }
        }),
{
    reveal_strlit("●");
    let lines = fitted_lines(host, stats, down_for, uptime, last_outage, spark_count, cols);
    let full = full_lines(host, stats, down_for, uptime, last_outage, spark_count);
    let parts = stats_parts(stats, uptime);
    lemma_fitted_panel(host, stats, down_for, uptime, last_outage, spark_count, cols);
    law_fitted_parts_take_no_more(parts, cols);
    lemma_second_line_joined(stats, uptime);
    let count = smaller(spark_count, spark_room(host, stats, cols));
    assert(spark_text(window_sparkline(stats, count)).len() <= count);
    if forall|i: int| 0 <= i < full.len() ==> (#[trigger] full[i]).len() <= cols {
        assert(full[0].len() <= cols && full[1].len() <= cols);
        assert(last_outage is Some ==> full[2].len() <= cols);
        if down_for is None {
            assert(fit("●"@, cols) == "●"@);
            assert(fit(up_text(host, stats), room_behind_dot(cols)) == up_text(host, stats));
            assert(spark_text(window_sparkline(stats, spark_count)).len() == last_samples(
                stats.samples,
                spark_count,
            ).len());
            assert(last_samples(stats.samples, count) =~= last_samples(
                stats.samples,
                spark_count,
            ));
        }
        assert(lines =~= full);
        assert(fitted_first_line_ops(host, stats, down_for, spark_count, cols) == first_line_ops(
            host,
            stats,
            down_for,
            spark_count,
        ));
    }
}

/// The second line of the panel is its entries, one after the other.
pub(crate) proof fn lemma_second_line_joined(stats: StatsView, uptime: Option<nat>)
    ensures
        joined(stats_parts(stats, uptime)) == second_line(stats, uptime),
{
    let parts = stats_parts(stats, uptime);
    reveal_with_fuel(joined, 5);
    assert(parts.drop_last() =~= parts.take(3));
    assert(parts.take(3).drop_last() =~= parts.take(2));
    assert(parts.take(2).drop_last() =~= parts.take(1));
    assert(parts.take(1).drop_last() =~= seq![]);
    assert(joined(parts) =~= second_line(stats, uptime));
}

/// The texts of numbers and spans hold no line break.
pub(crate) proof fn lemma_numbers_one_line(n: nat)
    ensures
        one_line(decimal(n)),
        one_line(two_digits(n)),
{
    lemma_decimal_digits(n);
}

/// The text of a span holds no line break.
pub(crate) proof fn lemma_short_one_line(nanos: Option<nat>)
    ensures
        one_line(short_or_dash(nanos)),
{
    reveal_strlit("h");
    reveal_strlit("m");
    reveal_strlit("s");
    reveal_strlit("--");
    if let Some(n) = nanos {
        let secs = n / (crate::time::NANOS_PER_SEC as nat);
        lemma_numbers_one_line(secs / 3600);
        lemma_numbers_one_line((secs % 3600) / 60);
        lemma_numbers_one_line(secs % 60);
    }
}

/// The text of a span in milliseconds holds no line break.
proof fn lemma_ms_one_line(nanos: Option<nat>)
    ensures
        one_line(ms_or_dash(nanos)),
{
    reveal_strlit("ms");
    reveal_strlit("--");
    if let Some(n) = nanos {
        lemma_numbers_one_line(n / (crate::time::NANOS_PER_MILLI as nat));
    }
}

/// The text of a time of day holds no line break.
proof fn lemma_clock_one_line(c: ClockTime)
    ensures
        one_line(clock_text(c)),
{
    reveal_strlit(":");
    lemma_numbers_one_line(c.hour as nat);
    lemma_numbers_one_line(c.min as nat);
    lemma_numbers_one_line(c.sec as nat);
}

/// The sparkline holds no line break.
proof fn lemma_sparkline_one_line(stats: StatsView, count: nat)
    ensures
        one_line(spark_text(window_sparkline(stats, count))),
{
    let entries = window_sparkline(stats, count);
    let text = spark_text(entries);
    assert forall|i: int| 0 <= i < text.len() implies #[trigger] text[i] != '\n' by {
        crate::stats::law_sparkline_entries(stats.samples, count, i);
        if let Some(level) = entries[i] {
            assert(0 <= level <= 7);
        }
    }
}

/// A text without line breaks has none where it is cut off.
proof fn lemma_fit_one_line(text: Seq<char>, cols: nat)
    requires
        one_line(text),
    ensures
        one_line(fit(text, cols)),
{
    if text.len() > cols {
        lemma_one_line_prefix(text, cols as int);
    }
}

/// The first line of the panel holds no line break if the host does not.
proof fn lemma_first_line_one_line(
    host: Seq<char>,
    stats: StatsView,
    down_for: Option<nat>,
    spark_count: nat,
    cols: nat,
)
    requires
        one_line(host),
    ensures
        one_line(fitted_first_line(host, stats, down_for, spark_count, cols)),
{
    reveal_strlit("✗ ");
    reveal_strlit("   no reply for ");
    reveal_strlit("●");
    reveal_strlit(" ");
    reveal_strlit("   ");
    match down_for {
        Some(down) => {
            lemma_short_one_line(down_for);
            lemma_fit_one_line(down_text(host, down), cols);
        },
        None => {
            lemma_ms_one_line(latest_rtt(stats));
            lemma_fit_one_line("●"@, cols);
            lemma_fit_one_line(up_text(host, stats), room_behind_dot(cols));
            lemma_sparkline_one_line(
                stats,
                smaller(spark_count, spark_room(host, stats, cols)),
            );
        },
    }
}

/// Parts without line breaks have none when they are fitted.
proof fn lemma_fit_parts_one_line(parts: Seq<Seq<char>>, cols: nat)
    requires
        forall|i: int| 0 <= i < parts.len() ==> one_line(#[trigger] parts[i]),
    ensures
        one_line(joined(parts)),
        one_line(fit_parts(parts, cols)),
    decreases parts.len(),
{
    if parts.len() > 0 {
        let init = parts.drop_last();
        assert forall|i: int| 0 <= i < init.len() implies one_line(#[trigger] init[i]) by {
            assert(init[i] == parts[i]);
        }
        lemma_fit_parts_one_line(init, cols);
        assert(one_line(parts[parts.len() - 1]));
    }
    lemma_fit_one_line(joined(parts), cols);
}

/// The entries of the second line of the panel hold no line break.
proof fn lemma_stats_parts_one_line(stats: StatsView, uptime: Option<nat>)
    ensures
        forall|i: int|
            0 <= i < stats_parts(stats, uptime).len() ==> one_line(
                #[trigger] stats_parts(stats, uptime)[i],
            ),
{
    reveal_strlit("  avg ");
    reveal_strlit(" · jitter ");
    reveal_strlit(" · loss ");
    reveal_strlit("%");
    reveal_strlit(" · up ");
    lemma_ms_one_line(window_avg(stats));
    lemma_ms_one_line(window_jitter(stats));
    lemma_numbers_one_line(window_loss(stats).percent());
    lemma_short_one_line(uptime);
}

/// The panel is redrawn in place, whatever it shows and however narrow the
/// terminal: its first row is where the first row of the old panel was, each of
/// its two or three lines takes exactly one row, the rows above stay as they
/// were, and nothing is left below.
pub proof fn law_render_stays_in_place(
    screen: Screen,
    height: nat,
    host: Seq<char>,
    stats: StatsView,
    down_for: Option<nat>,
    uptime: Option<nat>,
    last_outage: Option<Seq<char>>,
    spark_count: nat,
    cols: nat,
)
    requires
        screen.blank_from(screen.row),
        cols <= screen.width,
        one_line(host),
        last_outage matches Some(summary) ==> one_line(summary),
    ensures
        ({
            let top = screen.row - height;
            let lines = fitted_lines(
                host,
                stats,
                down_for,
                uptime,
                last_outage,
                spark_count,
                cols,
            );
            let after = screen.perform_all(
                clear_ops(height) + fitted_panel_ops(
                    host,
                    stats,
                    down_for,
                    uptime,
                    last_outage,
                    spark_count,
                    cols,
                ),
            );
            &&& lines.len() == panel_height(last_outage)
            &&& after.width == screen.width
            &&& after.row - panel_height(last_outage) == top
            &&& after.agrees_above(screen, top)
            &&& forall|i: int| 0 <= i < lines.len() ==> (after.rows)(top + i) == #[trigger] lines[i]
            &&& after.blank_from(after.row)
        }),
{
    let lines = fitted_lines(host, stats, down_for, uptime, last_outage, spark_count, cols);
    let panel = fitted_panel_ops(host, stats, down_for, uptime, last_outage, spark_count, cols);
    law_clearing_blanks_the_panel(screen, height);
    lemma_perform_concat(screen, clear_ops(height), panel);
    let cleared = screen.perform_all(clear_ops(height));
    lemma_fitted_panel(host, stats, down_for, uptime, last_outage, spark_count, cols);
    lemma_only_prints(cleared, panel);
    law_panel_fits_its_columns(host, stats, down_for, uptime, last_outage, spark_count, cols);
    lemma_first_line_one_line(host, stats, down_for, spark_count, cols);
    lemma_stats_parts_one_line(stats, uptime);
    lemma_fit_parts_one_line(stats_parts(stats, uptime), cols);
    if let Some(summary) = last_outage {
        reveal_strlit("  ");
        lemma_fit_one_line(third_line(summary), cols);
    }
    lemma_print_lines(cleared, lines);
}

/// An outage leaves its line in the place of the panel, which resumes below it:
/// where the line fits the width, one outage moves the panel down by exactly one
/// row.
pub proof fn law_outage_leaves_one_line(
    screen: Screen,
    height: nat,
    start: ClockTime,
    end: ClockTime,
    duration: nat,
)
    requires
        screen.blank_from(screen.row),
    ensures
        permanent_line_left(
            screen,
            height,
            outage_ops(start, end, duration),
            outage_line(start, end, duration).drop_last(),
        ),
{
    reveal_strlit("✗ outage ");
    reveal_strlit(" → ");
    reveal_strlit(" (");
    reveal_strlit(")\n");
    lemma_clock_one_line(start);
    lemma_clock_one_line(end);
    lemma_short_one_line(Some(duration));
    let line = outage_line(start, end, duration);
    let text = "✗ outage "@ + clock_text(start) + " → "@ + clock_text(end) + " ("@ + short_text(
        duration,
    );
    assert(one_line(text));
    assert(line.drop_last() =~= text.push(')'));
    assert(one_line(line.drop_last()));
    assert(line =~= line.drop_last() + seq!['\n']);
    let color = seq![Op::SetForeground(Color::Red)];
    let print = seq![Op::Print(line)];
    let reset = seq![Op::ResetColor];
    lemma_printed_one(color[0]);
    lemma_printed_one(print[0]);
    lemma_printed_one(reset[0]);
    lemma_printed_concat(color, print);
    lemma_printed_concat(color + print, reset);
    assert(color + print + reset =~= outage_ops(start, end, duration));
    assert(printed(color + print + reset) =~= line);
    lemma_permanent_line(screen, height, outage_ops(start, end, duration), line.drop_last());
}

/// A notice leaves its line in the place of the panel likewise.
pub proof fn law_notice_leaves_one_line(screen: Screen, height: nat, notice: Seq<char>)
    requires
        screen.blank_from(screen.row),
        one_line(notice),
    ensures
        permanent_line_left(screen, height, seq![Op::Print(notice + "\n"@)], notice),
{
    reveal_strlit("\n");
    assert("\n"@ =~= seq!['\n']);
    let op = Op::Print(notice + "\n"@);
    lemma_printed_one(op);
    lemma_permanent_line(screen, height, seq![op], notice);
}

} // verus!
