//! Fitting text into a number of columns, one character to a column.

use vstd::prelude::*;

use crate::text::texts;

verus! {

/// `text`, cut off after `cols` columns.
pub open spec fn fit(text: Seq<char>, cols: nat) -> Seq<char> {
    if text.len() <= cols {
        text
    } else {
        text.take(cols as int)
    }
}

/// `parts`, one after the other.
pub open spec fn joined(parts: Seq<Seq<char>>) -> Seq<char>
    decreases parts.len(),
{
    if parts.len() == 0 {
        seq![]
    } else {
        joined(parts.drop_last()) + parts.last()
    }
}

/// As many of `parts`, from the first on, as `cols` columns have room for, one
/// after the other; the first one cut off where there is no room for it.
pub open spec fn fit_parts(parts: Seq<Seq<char>>, cols: nat) -> Seq<char>
    decreases parts.len(),
{
    if parts.len() <= 1 || joined(parts).len() <= cols {
        fit(joined(parts), cols)
    } else {
        fit_parts(parts.drop_last(), cols)
    }
}

/// `text`, cut off after `cols` columns.
pub(crate) fn fit_text(text: &str, cols: usize) -> (out: String)
    ensures
        out@ == fit(text@, cols as nat),
{
    if text.unicode_len() <= cols {
        text.to_string()
    } else {
        let cut = text.substring_char(0, cols).to_string();
        assert(cut@ =~= fit(text@, cols as nat));
        cut
    }
}

/// The first `count` of `parts`, one after the other.
fn join(parts: &Vec<String>, count: usize) -> (out: String)
    requires
        count <= parts@.len(),
    ensures
        out@ == joined(texts(parts@).take(count as int)),
{
    let mut out = String::new();
    let mut i: usize = 0;
    assert(out@ =~= joined(texts(parts@).take(0)));
    while i < count
        invariant
            i <= count <= parts@.len(),
            out@ == joined(texts(parts@).take(i as int)),
        decreases count - i,
    {
        assert(texts(parts@).take(i + 1).drop_last() =~= texts(parts@).take(i as int));
        out.append(parts[i].as_str());
        i += 1;
    }
    out
}

/// As many of `parts` as `cols` columns have room for.
pub(crate) fn fit_parts_text(parts: &Vec<String>, cols: usize) -> (out: String)
    ensures
        out@ == fit_parts(texts(parts@), cols as nat),
{
    let ghost all = texts(parts@);
    let mut count: usize = parts.len();
    assert(all.take(count as int) =~= all);
    while count > 1
        invariant
            count <= parts@.len(),
            all == texts(parts@),
            fit_parts(all.take(count as int), cols as nat) == fit_parts(all, cols as nat),
        decreases count,
    {
        let line = join(parts, count);
        if line.as_str().unicode_len() <= cols {
            return line;
        }
        assert(all.take(count as int).drop_last() =~= all.take(count - 1));
        count -= 1;
    }
    fit_text(join(parts, count).as_str(), cols)
}

/// A text that was cut off takes at most the columns there are, and is the
/// beginning of the whole text; one that fits stays as it is.
pub proof fn law_fit_takes_no_more(text: Seq<char>, cols: nat)
    ensures
        fit(text, cols).len() <= cols,
        fit(text, cols).is_prefix_of(text),
        text.len() <= cols ==> fit(text, cols) == text,
{
}

/// Parts that were fitted take at most the columns there are; all are kept
/// where they fit. Otherwise only whole parts are left out, from the end on and
/// no more of them than need be, except where there is no room for the first.
pub proof fn law_fitted_parts_take_no_more(parts: Seq<Seq<char>>, cols: nat)
    ensures
        fit_parts(parts, cols).len() <= cols,
        joined(parts).len() <= cols ==> fit_parts(parts, cols) == joined(parts),
        parts.len() > 0 && parts[0].len() > cols ==> fit_parts(parts, cols) == fit(parts[0], cols),
        parts.len() > 0 && parts[0].len() <= cols ==> exists|n: int|
            #![trigger parts.take(n)]
            {
                &&& 1 <= n <= parts.len()
                &&& fit_parts(parts, cols) == joined(parts.take(n))
                &&& n < parts.len() ==> joined(parts.take(n + 1)).len() > cols
            },
    decreases parts.len(),
{
    if parts.len() == 1 {
        assert(parts.drop_last() =~= seq![]);
        assert(joined(parts) =~= parts[0]);
        assert(parts.take(1) =~= parts);
    } else if parts.len() > 1 {
        let init = parts.drop_last();
        law_fitted_parts_take_no_more(init, cols);
        assert(parts.take(parts.len() as int) =~= parts);
        if joined(parts).len() > cols {
            if init[0].len() <= cols {
                let n = choose|n: int|
                    #![trigger init.take(n)]
                    {
                        &&& 1 <= n <= init.len()
                        &&& fit_parts(init, cols) == joined(init.take(n))
                        &&& n < init.len() ==> joined(init.take(n + 1)).len() > cols
                    };
                assert(parts.take(n) =~= init.take(n));
                if n < init.len() {
                    assert(parts.take(n + 1) =~= init.take(n + 1));
                } else {
                    assert(parts.take(n + 1) =~= parts);
                }
            }
        } else {
            lemma_first_within(parts);
        }
    }
}

/// The first part is no longer than all of them together.
proof fn lemma_first_within(parts: Seq<Seq<char>>)
    requires
        parts.len() > 0,
    ensures
        parts[0].len() <= joined(parts).len(),
    decreases parts.len(),
{
    if parts.len() > 1 {
        lemma_first_within(parts.drop_last());
    }
}

/// As much of a text is kept as there are columns for.
pub proof fn law_fit_keeps_what_it_can(text: Seq<char>, cols: nat, i: int)
    ensures
        fit(text, cols).len() == text.len() || fit(text, cols).len() == cols,
        fit(text, cols).len() <= text.len() && fit(text, cols).len() <= cols,
        0 <= i < fit(text, cols).len() ==> fit(text, cols)[i] == text[i],
{
}

/// Parts are put together in order, with nothing between them.
pub proof fn law_joined_in_order(a: Seq<Seq<char>>, b: Seq<Seq<char>>, part: Seq<char>)
    ensures
        joined(a + b) == joined(a) + joined(b),
        joined(seq![part]) == part,
        joined(seq![]) == Seq::<char>::empty(),
    decreases b.len(),
{
    reveal_with_fuel(joined, 2);
    assert(seq![part].drop_last() =~= seq![]);
    assert(joined(seq![part]) =~= part);
    if b.len() == 0 {
        assert(a + b =~= a);
        assert(joined(a) + joined(b) =~= joined(a));
    } else {
        law_joined_in_order(a, b.drop_last(), part);
        assert((a + b).drop_last() =~= a + b.drop_last());
        assert(joined(a + b) =~= joined(a) + joined(b));
    }
}

} // verus!
