//! Building text: decimal numbers, zero-padded fields, fixed-point numbers.

use vstd::prelude::*;

verus! {

/// `String::push` appends one character at the end and leaves the rest as it
/// was.
pub assume_specification[ String::push ](s: &mut String, c: char)
    ensures
        final(s)@ == old(s)@.push(c),
;

/// The texts of strings.
pub open spec fn texts(strings: Seq<String>) -> Seq<Seq<char>> {
    strings.map_values(|s: String| s@)
}

/// The character of a decimal digit.
pub open spec fn digit_char(d: nat) -> char {
    ('0' as nat + d) as char
}

/// `n` in decimal, without leading zeros.
pub open spec fn decimal(n: nat) -> Seq<char>
    decreases n,
{
    if n < 10 {
        seq![digit_char(n)]
    } else {
        decimal(n / 10).push(digit_char(n % 10))
    }
}

/// `n` in decimal, with a leading zero where it is a single digit.
pub open spec fn two_digits(n: nat) -> Seq<char> {
    if n < 10 {
        seq!['0'] + decimal(n)
    } else {
        decimal(n)
    }
}

/// Ten to the power `places`.
pub open spec fn pow10(places: nat) -> nat
    decreases places,
{
    if places == 0 {
        1
    } else {
        10 * pow10((places - 1) as nat)
    }
}

/// The digits of the fraction `frac / pow10(places)`, without trailing zeros.
pub open spec fn fraction_digits(frac: nat, places: nat) -> Seq<char>
    decreases places,
{
    if frac == 0 || places == 0 {
        seq![]
    } else {
        let unit = pow10((places - 1) as nat);
        seq![digit_char(frac / unit)] + fraction_digits(frac % unit, (places - 1) as nat)
    }
}

/// The number `value / pow10(places)` in decimal notation: no trailing zeros
/// in the fraction, and no point where the fraction is zero.
pub open spec fn fixed_point(value: nat, places: nat) -> Seq<char> {
    let unit = pow10(places);
    if value % unit == 0 {
        decimal(value / unit)
    } else {
        decimal(value / unit) + seq!['.'] + fraction_digits(value % unit, places)
    }
}

/// The character of a decimal digit.
pub fn digit(d: u8) -> (c: char)
    requires
        d < 10,
    ensures
        c == digit_char(d as nat),
{
    (48u8 + d) as char
}

/// Appends `n` in decimal.
pub fn push_decimal(out: &mut String, n: u128)
    ensures
        final(out)@ == old(out)@ + decimal(n as nat),
    decreases n,
{
    if n >= 10 {
        push_decimal(out, n / 10);
    }
    out.push(digit((n % 10) as u8));
}

/// `n` in decimal.
pub fn decimal_string(n: u128) -> (s: String)
    ensures
        s@ == decimal(n as nat),
{
    let mut out = String::new();
    push_decimal(&mut out, n);
    out
}

/// Appends `n` in decimal, padded to at least two digits.
pub fn push_two_digits(out: &mut String, n: u64)
    ensures
        final(out)@ == old(out)@ + two_digits(n as nat),
{
    if n < 10 {
        out.push('0');
    }
    push_decimal(out, n as u128);
}

/// Ten to the power `places`.
fn ten_to(places: u32) -> (p: u128)
    requires
        places <= 9,
    ensures
        p == pow10(places as nat),
{
    let mut p: u128 = 1;
    let mut i: u32 = 0;
    proof {
        reveal_with_fuel(pow10, 10);
    }
    while i < places
        invariant
            i <= places <= 9,
            p == pow10(i as nat),
        decreases places - i,
    {
        proof {
            reveal_with_fuel(pow10, 10);
        }
        i += 1;
        p *= 10;
    }
    p
}

proof fn lemma_pow10_positive(places: nat)
    ensures
        pow10(places) > 0,
    decreases places,
{
    if places > 0 {
        lemma_pow10_positive((places - 1) as nat);
    }
}

/// Appends the digits of the fraction `frac / 10^places`, without trailing
/// zeros.
fn push_fraction(out: &mut String, frac: u128, places: u32)
    requires
        places <= 9,
        frac < pow10(places as nat),
    ensures
        final(out)@ == old(out)@ + fraction_digits(frac as nat, places as nat),
    decreases places,
{
    if frac == 0 || places == 0 {
        return;
    }
    let unit = ten_to(places - 1);
    proof {
        lemma_pow10_positive((places - 1) as nat);
        assert(pow10(places as nat) == 10 * unit);
        assert(frac / unit < 10) by (nonlinear_arith)
            requires
                frac < 10 * unit,
                unit > 0,
        ;
    }
    out.push(digit((frac / unit) as u8));
    push_fraction(out, frac % unit, places - 1);
}

/// Appends the number `value / 10^places` in decimal notation, without
/// trailing zeros.
pub fn push_fixed_point(out: &mut String, value: u128, places: u32)
    requires
        places <= 9,
    ensures
        final(out)@ == old(out)@ + fixed_point(value as nat, places as nat),
{
    let unit = ten_to(places);
    proof {
        lemma_pow10_positive(places as nat);
    }
    push_decimal(out, value / unit);
    let frac = value % unit;
    if frac != 0 {
        out.push('.');
        push_fraction(out, frac, places);
    }
}

/// `s` holds no control character.
pub open spec fn printable(s: Seq<char>) -> bool {
    forall|i: int| 0 <= i < s.len() ==> (#[trigger] s[i]) as nat >= 0x20
}

/// `s` holds decimal digits only.
pub open spec fn all_digits(s: Seq<char>) -> bool {
    forall|i: int| 0 <= i < s.len() ==> '0' <= #[trigger] s[i] <= '9'
}

/// The number that a run of decimal digits stands for.
pub open spec fn decimal_value(s: Seq<char>) -> nat
    decreases s.len(),
{
    if s.len() == 0 {
        0
    } else {
        10 * decimal_value(s.drop_last()) + (s.last() as nat - '0' as nat) as nat
    }
}

/// The number of units of `1 / pow10(places)` that the digits of a fraction
/// stand for.
pub open spec fn fraction_value(s: Seq<char>, places: nat) -> nat
    decreases s.len(),
{
    if s.len() == 0 || places == 0 {
        0
    } else {
        (s[0] as nat - '0' as nat) as nat * pow10((places - 1) as nat) + fraction_value(
            s.skip(1),
            (places - 1) as nat,
        )
    }
}

/// How many characters of `s` stand before its first point, or in it where it
/// has none.
pub open spec fn point_at(s: Seq<char>) -> nat
    decreases s.len(),
{
    if s.len() == 0 || s[0] == '.' {
        0
    } else {
        1 + point_at(s.skip(1))
    }
}

/// The number of units of `1 / pow10(places)` that a number in decimal notation
/// stands for.
pub open spec fn fixed_point_value(s: Seq<char>, places: nat) -> nat {
    let point = point_at(s) as int;
    if point < s.len() {
        decimal_value(s.take(point)) * pow10(places) + fraction_value(s.skip(point + 1), places)
    } else {
        decimal_value(s) * pow10(places)
    }
}

/// A number in decimal is at least one digit and nothing else.
pub proof fn lemma_decimal_digits(n: nat)
    ensures
        decimal(n).len() > 0,
        all_digits(decimal(n)),
        printable(decimal(n)),
    decreases n,
{
    if n >= 10 {
        lemma_decimal_digits(n / 10);
    }
}

/// A number in decimal reads back as that number.
pub proof fn law_decimal_reads_back(n: nat)
    ensures
        decimal_value(decimal(n)) == n,
    decreases n,
{
    if n >= 10 {
        law_decimal_reads_back(n / 10);
        assert(decimal(n).drop_last() =~= decimal(n / 10));
    } else {
        assert(decimal(n).drop_last() =~= seq![]);
        reveal_with_fuel(decimal_value, 2);
    }
}

/// Different numbers differ in decimal.
pub proof fn law_decimal_is_injective(m: nat, n: nat)
    requires
        decimal(m) == decimal(n),
    ensures
        m == n,
{
    law_decimal_reads_back(m);
    law_decimal_reads_back(n);
}

/// The first digit of a proper fraction is a digit, and what is left is a
/// proper fraction.
proof fn lemma_fraction_step(frac: nat, places: nat)
    requires
        places > 0,
        frac < pow10(places),
    ensures
        ({
            let unit = pow10((places - 1) as nat);
            &&& unit > 0
            &&& frac / unit < 10
            &&& frac % unit < unit
            &&& frac == unit * (frac / unit) + frac % unit
        }),
{
    let unit = pow10((places - 1) as nat);
    lemma_pow10_positive((places - 1) as nat);
    assert(frac / unit < 10) by (nonlinear_arith)
        requires
            frac < 10 * unit,
            unit > 0,
    ;
    vstd::arithmetic::div_mod::lemma_fundamental_div_mod(frac as int, unit as int);
}

/// The digits of a fraction are digits, and read back as that fraction.
pub proof fn law_fraction_reads_back(frac: nat, places: nat)
    requires
        frac < pow10(places),
    ensures
        all_digits(fraction_digits(frac, places)),
        printable(fraction_digits(frac, places)),
        fraction_value(fraction_digits(frac, places), places) == frac,
    decreases places,
{
    if frac != 0 && places != 0 {
        let unit = pow10((places - 1) as nat);
        lemma_fraction_step(frac, places);
        law_fraction_reads_back(frac % unit, (places - 1) as nat);
        let digits = fraction_digits(frac, places);
        assert(digits.skip(1) =~= fraction_digits(frac % unit, (places - 1) as nat));
        assert((frac / unit) * unit == unit * (frac / unit)) by (nonlinear_arith);
    }
}

/// The point of a number stands behind its leading digits.
pub(crate) proof fn lemma_point_behind_digits(digits: Seq<char>, rest: Seq<char>)
    requires
        all_digits(digits),
        rest.len() > 0 ==> rest[0] == '.',
    ensures
        point_at(digits + rest) == digits.len(),
    decreases digits.len(),
{
    let s = digits + rest;
    if digits.len() > 0 {
        let tail = digits.skip(1);
        assert('0' <= digits[0] <= '9');
        assert forall|i: int| 0 <= i < tail.len() implies '0' <= #[trigger] tail[i] <= '9' by {
            assert(tail[i] == digits[i + 1]);
        }
        lemma_point_behind_digits(tail, rest);
        assert(s.skip(1) =~= tail + rest);
    }
}

/// A fixed-point number reads back as that number, to the last place.
pub proof fn law_fixed_point_reads_back(value: nat, places: nat)
    ensures
        fixed_point_value(fixed_point(value, places), places) == value,
{
    let unit = pow10(places);
    lemma_pow10_positive(places);
    let whole = decimal(value / unit);
    let frac = value % unit;
    let s = fixed_point(value, places);
    lemma_decimal_digits(value / unit);
    law_decimal_reads_back(value / unit);
    law_fraction_reads_back(frac, places);
    vstd::arithmetic::div_mod::lemma_fundamental_div_mod(value as int, unit as int);
    assert((value / unit) * unit == unit * (value / unit)) by (nonlinear_arith);
    if frac == 0 {
        lemma_point_behind_digits(whole, seq![]);
        assert(whole + seq![] =~= s);
    } else {
        let rest = seq!['.'] + fraction_digits(frac, places);
        lemma_point_behind_digits(whole, rest);
        assert(whole + rest =~= s);
        assert(s.take(whole.len() as int) =~= whole);
        assert(s.skip(whole.len() as int + 1) =~= fraction_digits(frac, places));
    }
}

/// Different numbers differ in fixed-point notation.
pub proof fn law_fixed_point_is_injective(m: nat, n: nat, places: nat)
    requires
        fixed_point(m, places) == fixed_point(n, places),
    ensures
        m == n,
{
    law_fixed_point_reads_back(m, places);
    law_fixed_point_reads_back(n, places);
}

/// A fixed-point number holds no control character.
pub proof fn lemma_fixed_point_printable(value: nat, places: nat)
    ensures
        printable(fixed_point(value, places)),
{
    let unit = pow10(places);
    lemma_pow10_positive(places);
    lemma_decimal_digits(value / unit);
    law_fraction_reads_back(value % unit, places);
}

/// Ten to the power 1 is ten, and powers multiply.
pub proof fn law_powers_of_ten(a: nat, b: nat)
    ensures
        pow10(0) == 1,
        pow10(1) == 10,
        pow10(a + b) == pow10(a) * pow10(b),
    decreases b,
{
    reveal_with_fuel(pow10, 2);
    if b == 0 {
        assert(pow10(a) * 1 == pow10(a));
    } else {
        let c = (b - 1) as nat;
        law_powers_of_ten(a, c);
        assert(pow10(a + b) == 10 * pow10(a + c));
        assert(10 * (pow10(a) * pow10(c)) == pow10(a) * (10 * pow10(c))) by (nonlinear_arith);
    }
}

/// The digits are the ten characters from `0` on.
pub proof fn law_digits_are_in_order(d: nat)
    requires
        d < 10,
    ensures
        decimal(d) == seq![digit_char(d)],
        digit_char(d) as nat == 48 + d,
        '0' <= digit_char(d) <= '9',
{
}

/// A number of more than one digit does not begin with a zero, and appending a
/// digit to the text of a number multiplies it by ten and adds the digit.
pub proof fn law_decimal_grows_by_digits(n: nat, d: nat)
    requires
        d < 10,
    ensures
        n > 0 ==> decimal(n)[0] != '0',
        n > 0 ==> decimal(10 * n + d) == decimal(n).push(digit_char(d)),
        n > 0 ==> decimal(10 * n + d).len() == decimal(n).len() + 1,
    decreases n,
{
    assert((10 * n + d) / 10 == n && (10 * n + d) % 10 == d);
    if n >= 10 {
        law_decimal_grows_by_digits(n / 10, d);
        lemma_decimal_digits(n / 10);
    }
}

/// A padded number has two digits below a hundred, is padded by a zero alone,
/// and reads back as that number.
pub proof fn law_two_digits_read_back(n: nat)
    ensures
        n < 100 ==> two_digits(n).len() == 2,
        n >= 10 ==> two_digits(n) == decimal(n),
        n < 10 ==> two_digits(n)[0] == '0' && two_digits(n)[1] == digit_char(n),
        all_digits(two_digits(n)),
        decimal_value(two_digits(n)) == n,
{
    lemma_decimal_digits(n);
    law_decimal_reads_back(n);
    let s = two_digits(n);
    if n < 10 {
        assert(s =~= seq!['0', digit_char(n)]);
        assert(s.drop_last() =~= seq!['0']);
        assert(s.drop_last().drop_last() =~= seq![]);
        reveal_with_fuel(decimal_value, 3);
    } else if n < 100 {
        assert(decimal(n / 10) == seq![digit_char(n / 10)]);
    }
}

/// A fixed-point number has a point exactly where it is not whole; it then ends
/// in a digit other than zero and has no more places than asked for. Its whole
/// part is written like any number.
pub proof fn law_fixed_point_is_shortest(value: nat, places: nat)
    ensures
        ({
            let s = fixed_point(value, places);
            let whole = value / pow10(places);
            let point = decimal(whole).len() as int;
            &&& s.len() >= point
            &&& s.take(point) == decimal(whole)
            &&& value % pow10(places) == 0 <==> s.len() == point
            &&& s.len() > point ==> {
                &&& s[point] == '.'
                &&& s.last() != '0'
                &&& all_digits(s.skip(point + 1))
                &&& 0 < s.len() - point - 1 <= places
            }
        }),
{
    let unit = pow10(places);
    lemma_pow10_positive(places);
    let s = fixed_point(value, places);
    let whole = decimal(value / unit);
    assert(s.take(whole.len() as int) =~= whole);
    if value % unit != 0 {
        law_fraction_reads_back(value % unit, places);
        lemma_fraction_is_shortest(value % unit, places);
        assert(s.skip(whole.len() as int + 1) =~= fraction_digits(value % unit, places));
    }
}

/// The digits of a fraction do not end in a zero.
proof fn lemma_fraction_is_shortest(frac: nat, places: nat)
    requires
        0 < frac < pow10(places),
    ensures
        0 < fraction_digits(frac, places).len() <= places,
        fraction_digits(frac, places).last() != '0',
    decreases places,
{
    let unit = pow10((places - 1) as nat);
    lemma_fraction_step(frac, places);
    let rest = frac % unit;
    if rest == 0 {
        assert(fraction_digits(rest, (places - 1) as nat) =~= seq![]);
        assert(frac / unit > 0) by (nonlinear_arith)
            requires
                frac == unit * (frac / unit) + rest,
                frac > 0,
                rest == 0,
        ;
    } else {
        lemma_fraction_is_shortest(rest, (places - 1) as nat);
    }
}

/// The texts of strings are theirs, one by one and in order.
pub proof fn law_texts_in_order(strings: Seq<String>, i: int)
    ensures
        texts(strings).len() == strings.len(),
        0 <= i < strings.len() ==> texts(strings)[i] == strings[i]@,
{
}

} // verus!
