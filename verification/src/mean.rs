//! Means of whole numbers: sums divided by a count, with exact rounding.

use vstd::prelude::*;

use crate::time::{Duration, MAX_NANOS};

verus! {

/// `num / den`, rounded to the nearest whole number, and to the even one where
/// two are equally near.
pub open spec fn half_even(num: nat, den: nat) -> nat {
    let quotient = num / den;
    let rest = num % den;
    if 2 * rest < den {
        quotient
    } else if 2 * rest > den {
        quotient + 1
    } else if quotient % 2 == 0 {
        quotient
    } else {
        quotient + 1
    }
}

/// The sum of `xs`.
pub open spec fn total(xs: Seq<nat>) -> nat
    decreases xs.len(),
{
    if xs.len() == 0 {
        0
    } else {
        total(xs.drop_last()) + xs.last()
    }
}

/// The distance between two numbers.
pub open spec fn distance(a: nat, b: nat) -> nat {
    if a <= b {
        (b - a) as nat
    } else {
        (a - b) as nat
    }
}

/// The sum of the distances of `n * x` from `sum`, over all `x` of `xs`. With
/// `n` the count of the numbers and `sum` their sum, this is `n * n` times
/// their mean absolute deviation from their mean.
pub open spec fn total_distance(xs: Seq<nat>, n: nat, sum: nat) -> nat
    decreases xs.len(),
{
    if xs.len() == 0 {
        0
    } else {
        total_distance(xs.drop_last(), n, sum) + distance(n * xs.last(), sum)
    }
}

/// The mean of `xs`, rounded down.
pub open spec fn mean_floor(xs: Seq<nat>) -> nat {
    total(xs) / xs.len()
}

/// The mean absolute deviation of `xs` from their mean, rounded to the nearest
/// whole number.
pub open spec fn mean_absolute_deviation(xs: Seq<nat>) -> nat {
    half_even(total_distance(xs, xs.len(), total(xs)), xs.len() * xs.len())
}

/// The numbers of a machine sequence.
pub open spec fn nats(s: Seq<u128>) -> Seq<nat> {
    s.map_values(|x: u128| x as nat)
}

/// `num / den`, rounded to the nearest whole number, to the even one on a tie.
pub(crate) fn round_half_even(num: u128, den: u128) -> (r: u128)
    requires
        0 < den,
        num < u128::MAX,
    ensures
        r == half_even(num as nat, den as nat),
{
    let quotient = num / den;
    let rest = num % den;
    proof {
        assert(quotient <= num) by (nonlinear_arith)
            requires
                den > 0,
                quotient == num / den,
        ;
    }
    if rest < den - rest {
        quotient
    } else if rest > den - rest {
        quotient + 1
    } else if quotient % 2 == 0 {
        quotient
    } else {
        quotient + 1
    }
}

/// Adds `x` to the number `quotient * n + rest`, keeping it divided by `n`.
fn add_divided(quotient: u128, rest: u128, x: u128, n: u128) -> (r: (u128, u128))
    requires
        0 < n <= u64::MAX,
        rest < n,
        quotient <= MAX_NANOS,
        x <= MAX_NANOS,
    ensures
        r.1 < n,
        r.0 * n + r.1 == quotient * n + rest + x,
{
    let whole = x / n;
    let part = x % n;
    proof {
        assert(x == n * (x / n) + x % n) by (nonlinear_arith)
            requires
                n > 0,
        ;
        assert(whole <= x) by (nonlinear_arith)
            requires
                n > 0,
                whole == x / n,
        ;
    }
    let sum = rest + part;
    if sum >= n {
        proof {
            assert((quotient + whole + 1) * n == quotient * n + n * whole + n) by (nonlinear_arith);
        }
        (quotient + whole + 1, sum - n)
    } else {
        proof {
            assert((quotient + whole) * n == quotient * n + n * whole) by (nonlinear_arith);
        }
        (quotient + whole, sum)
    }
}

/// A sum of at most `n` spans, divided by `n`, is at most the longest span.
proof fn lemma_quotient_bound(quotient: nat, rest: nat, n: nat, sum: nat, count: nat)
    requires
        quotient * n + rest == sum,
        sum <= count * MAX_NANOS,
        count <= n,
        n > 0,
    ensures
        quotient <= MAX_NANOS,
{
    assert(quotient <= MAX_NANOS) by (nonlinear_arith)
        requires
            quotient * n + rest == sum,
            sum <= count * MAX_NANOS,
            count <= n,
            n > 0,
    ;
}

/// Divides the sum of `xs` by their count: quotient and rest.
fn divided_sum(xs: &Vec<u128>) -> (r: (u128, u128))
    requires
        xs@.len() > 0,
        forall|i: int| 0 <= i < xs@.len() ==> xs@[i] <= MAX_NANOS,
    ensures
        r.1 < xs@.len(),
        r.0 <= MAX_NANOS,
        r.0 * xs@.len() + r.1 == total(nats(xs@)),
        total(nats(xs@)) <= xs@.len() * MAX_NANOS,
{
    let n: u128 = xs.len() as u128;
    let mut quotient: u128 = 0;
    let mut rest: u128 = 0;
    let mut i: usize = 0;
    while i < xs.len()
        invariant
            n == xs@.len(),
            0 < n <= u64::MAX,
            i <= xs@.len(),
            forall|j: int| 0 <= j < xs@.len() ==> xs@[j] <= MAX_NANOS,
            rest < n,
            quotient <= MAX_NANOS,
            quotient * n + rest == total(nats(xs@).take(i as int)),
            total(nats(xs@).take(i as int)) <= i * MAX_NANOS,
        decreases xs@.len() - i,
    {
        let step = add_divided(quotient, rest, xs[i], n);
        proof {
            let before = nats(xs@).take(i as int);
            let after = nats(xs@).take(i + 1);
            assert(after.drop_last() =~= before);
            assert(after.last() == xs@[i as int]);
            assert((i + 1) * MAX_NANOS == i * MAX_NANOS + MAX_NANOS) by (nonlinear_arith);
            lemma_quotient_bound(
                step.0 as nat,
                step.1 as nat,
                n as nat,
                total(after),
                (i + 1) as nat,
            );
        }
        quotient = step.0;
        rest = step.1;
        i += 1;
    }
    proof {
        assert(nats(xs@).take(xs@.len() as int) =~= nats(xs@));
    }
    (quotient, rest)
}

/// The mean of `xs`, rounded down.
pub(crate) fn mean(xs: &Vec<u128>) -> (m: u128)
    requires
        xs@.len() > 0,
        forall|i: int| 0 <= i < xs@.len() ==> xs@[i] <= MAX_NANOS,
    ensures
        m == mean_floor(nats(xs@)),
        m <= MAX_NANOS,
{
    let (quotient, rest) = divided_sum(xs);
    proof {
        let n = xs@.len();
        vstd::arithmetic::div_mod::lemma_fundamental_div_mod_converse(
            total(nats(xs@)) as int,
            n as int,
            quotient as int,
            rest as int,
        );
    }
    quotient
}

/// By how much the numbers above `floor` exceed it, in all.
spec fn excess(xs: Seq<nat>, floor: nat) -> nat
    decreases xs.len(),
{
    if xs.len() == 0 {
        0
    } else {
        excess(xs.drop_last(), floor) + if xs.last() > floor {
            (xs.last() - floor) as nat
        } else {
            0
        }
    }
}

/// How many numbers lie above `floor`.
spec fn count_above(xs: Seq<nat>, floor: nat) -> nat
    decreases xs.len(),
{
    if xs.len() == 0 {
        0
    } else {
        count_above(xs.drop_last(), floor) + if xs.last() > floor {
            1nat
        } else {
            0
        }
    }
}

/// The distances of the scaled numbers from `sum == n * floor + rest`: twice those
/// of the numbers above `floor`, less the amount by which the two sides differ.
proof fn lemma_total_distance(xs: Seq<nat>, n: nat, sum: nat, floor: nat, rest: nat)
    requires
        floor * n + rest == sum,
        rest < n,
    ensures
        total_distance(xs, n, sum) == 2 * (n * excess(xs, floor) - count_above(xs, floor) * rest)
            - (n * total(xs) - xs.len() * sum),
    decreases xs.len(),
{
    if xs.len() > 0 {
        let init = xs.drop_last();
        let x = xs.last();
        lemma_total_distance(init, n, sum, floor, rest);
        let e = excess(init, floor);
        let c = count_above(init, floor);
        let t = total(init);
        let k = init.len();
        assert(n * (t + x) - (k + 1) * sum == n * t - k * sum + n * x - sum) by (nonlinear_arith);
        if x > floor {
            assert(n * (e + (x - floor)) - (c + 1) * rest == n * e - c * rest + n * (x - floor)
                - rest) by (nonlinear_arith);
            assert(n * (x - floor) - rest == n * x - sum) by (nonlinear_arith)
                requires
                    floor * n + rest == sum,
            ;
            assert(n * (x - floor) >= n) by (nonlinear_arith)
                requires
                    x - floor >= 1,
            ;
            assert(distance(n * x, sum) == n * x - sum);
        } else {
            assert(n * x <= floor * n) by (nonlinear_arith)
                requires
                    x <= floor,
            ;
            assert(distance(n * x, sum) == sum - n * x);
        }
    } else {
        assert(n * 0 == 0 && 0 * rest == 0 && 0 * sum == 0) by (nonlinear_arith);
    }
}

/// No distance is greater than `n` times the longest span.
proof fn lemma_total_distance_bound(xs: Seq<nat>, n: nat, sum: nat)
    requires
        forall|i: int| 0 <= i < xs.len() ==> xs[i] <= MAX_NANOS,
        sum <= n * MAX_NANOS,
    ensures
        total_distance(xs, n, sum) <= xs.len() * (n * MAX_NANOS),
    decreases xs.len(),
{
    if xs.len() > 0 {
        lemma_total_distance_bound(xs.drop_last(), n, sum);
        let x = xs.last();
        assert(x == xs[xs.len() - 1]);
        assert(n * x <= n * MAX_NANOS) by (nonlinear_arith)
            requires
                x <= MAX_NANOS,
        ;
        let k = xs.drop_last().len();
        let b = n * MAX_NANOS;
        assert((k + 1) * b == k * b + b) by (nonlinear_arith);
    }
}

/// A number rounded as `half_even` rounds is `whole + step` where it lies within half
/// a unit of that, `whole` is even and an odd step is not taken on a tie.
proof fn lemma_half_even(num: nat, den: nat, whole: nat, part: nat, step: nat)
    requires
        den > 0,
        num == whole * den + 2 * part,
        whole % 2 == 0,
        part < den,
        step == (if 4 * part <= den {
            0nat
        } else if 4 * (den - part) > den {
            1nat
        } else {
            2nat
        }),
    ensures
        half_even(num, den) == whole + step,
{
    if 2 * part < den {
        vstd::arithmetic::div_mod::lemma_fundamental_div_mod_converse(
            num as int,
            den as int,
            whole as int,
            2 * part as int,
        );
    } else {
        assert((whole + 1) * den == whole * den + den) by (nonlinear_arith);
        vstd::arithmetic::div_mod::lemma_fundamental_div_mod_converse(
            num as int,
            den as int,
            (whole + 1) as int,
            2 * part - den,
        );
    }
}

/// Rounding stays below a whole bound.
proof fn lemma_half_even_bound(num: nat, den: nat, bound: nat)
    requires
        den > 0,
        num <= den * bound,
    ensures
        half_even(num, den) <= bound,
{
    let quotient = num / den;
    let rest = num % den;
    vstd::arithmetic::div_mod::lemma_fundamental_div_mod(num as int, den as int);
    assert(quotient <= bound) by (nonlinear_arith)
        requires
            den * quotient + rest <= den * bound,
            rest >= 0,
            den > 0,
    ;
    if quotient == bound {
        assert(rest == 0);
    }
}

/// Divides the excess of `xs` over `floor` by their count, and counts those
/// above it: quotient, rest, count above.
fn divided_excess(xs: &Vec<u128>, floor: u128) -> (r: (u128, u128, u128))
    requires
        xs@.len() > 0,
        forall|i: int| 0 <= i < xs@.len() ==> xs@[i] <= MAX_NANOS,
    ensures
        r.1 < xs@.len(),
        r.0 <= MAX_NANOS,
        r.0 * xs@.len() + r.1 == excess(nats(xs@), floor as nat),
        r.2 == count_above(nats(xs@), floor as nat),
        r.2 <= xs@.len(),
{
    let n: u128 = xs.len() as u128;
    let mut quotient: u128 = 0;
    let mut rest: u128 = 0;
    let mut count: u128 = 0;
    let mut i: usize = 0;
    while i < xs.len()
        invariant
            n == xs@.len(),
            0 < n <= u64::MAX,
            i <= xs@.len(),
            forall|j: int| 0 <= j < xs@.len() ==> xs@[j] <= MAX_NANOS,
            rest < n,
            quotient <= MAX_NANOS,
            quotient * n + rest == excess(nats(xs@).take(i as int), floor as nat),
            excess(nats(xs@).take(i as int), floor as nat) <= i * MAX_NANOS,
            count == count_above(nats(xs@).take(i as int), floor as nat),
            count <= i,
        decreases xs@.len() - i,
    {
        proof {
            assert(nats(xs@).take(i + 1).drop_last() =~= nats(xs@).take(i as int));
            assert((i + 1) * MAX_NANOS == i * MAX_NANOS + MAX_NANOS) by (nonlinear_arith);
        }
        if xs[i] > floor {
            let step = add_divided(quotient, rest, xs[i] - floor, n);
            proof {
                lemma_quotient_bound(
                    step.0 as nat,
                    step.1 as nat,
                    n as nat,
                    excess(nats(xs@).take(i + 1), floor as nat),
                    (i + 1) as nat,
                );
            }
            quotient = step.0;
            rest = step.1;
            count += 1;
        }
        i += 1;
    }
    proof {
        assert(nats(xs@).take(xs@.len() as int) =~= nats(xs@));
    }
    (quotient, rest, count)
}

/// The mean absolute deviation of `xs` from their mean, rounded to the nearest
/// whole number.
pub(crate) fn deviation(xs: &Vec<u128>) -> (d: u128)
    requires
        xs@.len() > 0,
        forall|i: int| 0 <= i < xs@.len() ==> xs@[i] <= MAX_NANOS,
    ensures
        d == mean_absolute_deviation(nats(xs@)),
        d <= MAX_NANOS,
{
    let n: u128 = xs.len() as u128;
    let (floor, rest) = divided_sum(xs);
    let (quotient, over, count) = divided_excess(xs, floor);
    let ghost num = total_distance(nats(xs@), n as nat, total(nats(xs@)));
    let ghost e = excess(nats(xs@), floor as nat);
    proof {
        assert(n * n <= u64::MAX * u64::MAX) by (nonlinear_arith)
            requires
                0 < n <= u64::MAX,
        ;
        assert(over * n < n * n) by (nonlinear_arith)
            requires
                over < n,
        ;
        assert(count * rest < n * n) by (nonlinear_arith)
            requires
                count <= n,
                rest < n,
        ;
        lemma_total_distance(
            nats(xs@),
            n as nat,
            total(nats(xs@)),
            floor as nat,
            rest as nat,
        );
        assert(n * e == quotient * (n * n) + over * n) by (nonlinear_arith)
            requires
                e == quotient * n + over,
        ;
        assert(num == 2 * (quotient * (n * n)) + 2 * (over * n - count * rest));
        assert(forall|i: int| 0 <= i < nats(xs@).len() ==> nats(xs@)[i] <= MAX_NANOS);
        lemma_total_distance_bound(nats(xs@), n as nat, total(nats(xs@)));
        assert(n * (n * MAX_NANOS) == (n * n) * MAX_NANOS) by (nonlinear_arith);
        assert(n * n > 0) by (nonlinear_arith)
            requires
                n > 0,
        ;
        lemma_half_even_bound(num, (n * n) as nat, MAX_NANOS as nat);
    }
    let square: u128 = n * n;
    let up: u128 = over * n;
    let down: u128 = count * rest;
    let whole: u128;
    let part: u128;
    if up >= down {
        whole = 2 * quotient;
        part = up - down;
        proof {
            assert((2 * quotient) * square == 2 * (quotient * square)) by (nonlinear_arith);
        }
    } else {
        proof {
            assert(quotient > 0) by (nonlinear_arith)
                requires
                    num == 2 * (quotient * square) + 2 * (up - down),
                    num >= 0,
                    up < down,
                    quotient >= 0,
            ;
            assert((2 * (quotient - 1)) * square == 2 * (quotient * square) - 2 * square)
                by (nonlinear_arith);
        }
        whole = 2 * (quotient - 1);
        part = square - (down - up);
    }
    let quarter: u128 = square / 4;
    let step: u128 = if part <= quarter {
        0
    } else if square - part > quarter {
        1
    } else {
        2
    };
    proof {
        lemma_half_even(num, square as nat, whole as nat, part as nat, step as nat);
    }
    whole + step
}

/// How many spans a mean is taken over, and their sum in nanoseconds.
#[verifier::ext_equal]
pub struct MeanView {
    pub count: nat,
    pub sum: nat,
}

/// The mean of a growing number of spans. The sum is kept divided by the count,
/// so that it never runs over: it is `mean * count + rest`.
pub struct RunningMean {
    count: u64,
    mean: u128,
    rest: u64,
}

impl View for RunningMean {
    type V = MeanView;

    closed spec fn view(&self) -> MeanView {
        MeanView {
            count: self.count as nat,
            sum: (self.mean * self.count + self.rest) as nat,
        }
    }
}

impl RunningMean {
    #[verifier::type_invariant]
    spec fn inv(self) -> bool {
        &&& self.rest < self.count || (self.count == 0 && self.mean == 0 && self.rest == 0)
        &&& self.mean <= MAX_NANOS
        &&& self.mean * self.count + self.rest <= self.count * MAX_NANOS
    }

    /// No spans yet.
    pub fn new() -> (m: RunningMean)
        ensures
            m@ == (MeanView { count: 0, sum: 0 }),
    {
        proof {
            assert(0u128 * 0u64 == 0 && 0u64 * MAX_NANOS == 0) by (nonlinear_arith);
        }
        RunningMean { count: 0, mean: 0, rest: 0 }
    }

    /// Takes in one more span.
    pub fn add_span(&mut self, d: Duration)
        requires
            old(self)@.count < u64::MAX,
        ensures
            final(self)@ == (MeanView {
                count: old(self)@.count + 1,
                sum: old(self)@.sum + d@,
            }),
    {
        proof {
            use_type_invariant(&*self);
        }
        let x = d.as_nanos();
        let mean = self.mean;
        let count = self.count + 1;
        let n: u128 = count as u128;
        let have: u128 = self.rest as u128 + x;
        let ghost sum = mean * self.count + self.rest + x;
        proof {
            assert(mean * n == mean * self.count + mean) by (nonlinear_arith)
                requires
                    n == self.count + 1,
            ;
            assert(n * MAX_NANOS == self.count * MAX_NANOS + MAX_NANOS) by (nonlinear_arith)
                requires
                    n == self.count + 1,
            ;
        }
        let step: (u128, u128);
        if have >= mean {
            let y: u128 = have - mean;
            proof {
                lemma_step_up(mean as nat, y as nat, n as nat);
            }
            step = (mean + y / n, y % n);
        } else {
            let z: u128 = mean - have;
            proof {
                lemma_step_down(mean as nat, z as nat, n as nat);
            }
            if z % n == 0 {
                step = (mean - z / n, 0);
            } else {
                step = (mean - z / n - 1, n - z % n);
            }
        }
        proof {
            assert(step.0 * n + step.1 == sum);
            lemma_quotient_bound(step.0 as nat, step.1 as nat, n as nat, sum as nat, n as nat);
        }
        *self = RunningMean { count, mean: step.0, rest: step.1 as u64 };
    }

    /// The mean, rounded down, where there is a span.
    pub fn mean(&self) -> (m: Option<Duration>)
        ensures
            match m {
                None => self@.count == 0,
                Some(d) => self@.count > 0 && d@ == self@.sum / self@.count,
            },
    {
        proof {
            use_type_invariant(self);
        }
        if self.count == 0 {
            return None;
        }
        proof {
            vstd::arithmetic::div_mod::lemma_fundamental_div_mod_converse(
                self@.sum as int,
                self.count as int,
                self.mean as int,
                self.rest as int,
            );
        }
        Some(Duration::from_nanos(self.mean))
    }
}

/// Adding to the mean what the count divides of a surplus.
proof fn lemma_step_up(mean: nat, y: nat, n: nat)
    requires
        n > 0,
        mean <= MAX_NANOS,
        y <= 2 * MAX_NANOS,
    ensures
        mean + y / n <= u128::MAX,
        y % n < n,
        (mean + y / n) * n + y % n == mean * n + y,
{
    vstd::arithmetic::div_mod::lemma_fundamental_div_mod(y as int, n as int);
    let q = y / n;
    assert((mean + q) * n == mean * n + n * q) by (nonlinear_arith);
    assert(q <= y) by (nonlinear_arith)
        requires
            n * q <= y,
            n > 0,
    ;
}

/// Taking from the mean what the count divides of a shortfall, rounded up.
proof fn lemma_step_down(mean: nat, z: nat, n: nat)
    requires
        n > 0,
        z <= mean,
    ensures
        z % n < n,
        z / n <= mean,
        z % n == 0 ==> (mean - z / n) * n == mean * n - z,
        z % n != 0 ==> z / n + 1 <= mean && (mean - z / n - 1) * n + (n - z % n) == mean * n - z,
{
    vstd::arithmetic::div_mod::lemma_fundamental_div_mod(z as int, n as int);
    let q = z / n;
    let r = z % n;
    assert((mean - q) * n == mean * n - n * q) by (nonlinear_arith);
    assert((mean - q - 1) * n == mean * n - n * q - n) by (nonlinear_arith);
    assert(q <= z) by (nonlinear_arith)
        requires
            n * q <= z,
            n > 0,
    ;
    if r != 0 {
        assert(q + 1 <= z) by (nonlinear_arith)
            requires
                n * q + r == z,
                r >= 1,
                n >= 1,
        ;
    }
}

/// The sum of equal numbers is their count times the number.
proof fn lemma_total_of_equals(xs: Seq<nat>, x: nat)
    requires
        forall|i: int| 0 <= i < xs.len() ==> xs[i] == x,
    ensures
        total(xs) == xs.len() * x,
    decreases xs.len(),
{
    if xs.len() > 0 {
        lemma_total_of_equals(xs.drop_last(), x);
        let k = xs.drop_last().len();
        assert((k + 1) * x == k * x + x) by (nonlinear_arith);
        assert(xs.last() == x);
    } else {
        assert(0 * x == 0) by (nonlinear_arith);
    }
}

/// Numbers whose scaled value is `sum` are at no distance from it.
proof fn lemma_no_distance(xs: Seq<nat>, n: nat, sum: nat)
    requires
        forall|i: int| 0 <= i < xs.len() ==> n * #[trigger] xs[i] == sum,
    ensures
        total_distance(xs, n, sum) == 0,
    decreases xs.len(),
{
    if xs.len() > 0 {
        lemma_no_distance(xs.drop_last(), n, sum);
        assert(n * xs[xs.len() - 1] == sum);
    }
}

/// The mean of equal numbers is that number, and they do not deviate from it.
pub proof fn law_equal_numbers(xs: Seq<nat>, x: nat)
    requires
        xs.len() > 0,
        forall|i: int| 0 <= i < xs.len() ==> xs[i] == x,
    ensures
        mean_floor(xs) == x,
        mean_absolute_deviation(xs) == 0,
{
    let n = xs.len();
    lemma_total_of_equals(xs, x);
    lemma_no_distance(xs, n, total(xs));
    assert((n * x) / n == x) by (nonlinear_arith)
        requires
            n > 0,
    ;
    assert(n * n > 0) by (nonlinear_arith)
        requires
            n > 0,
    ;
    assert(0nat / (n * n) == 0 && 0nat % (n * n) == 0) by (nonlinear_arith)
        requires
            n * n > 0,
    ;
}

/// The sum of numbers between two bounds lies between the bounds times their count.
proof fn lemma_total_between(xs: Seq<nat>, lo: nat, hi: nat)
    requires
        forall|i: int| 0 <= i < xs.len() ==> lo <= #[trigger] xs[i] <= hi,
    ensures
        xs.len() * lo <= total(xs) <= xs.len() * hi,
    decreases xs.len(),
{
    if xs.len() > 0 {
        let init = xs.drop_last();
        assert forall|i: int| 0 <= i < init.len() implies lo <= #[trigger] init[i] <= hi by {
            assert(init[i] == xs[i]);
        }
        lemma_total_between(init, lo, hi);
        let k = init.len();
        assert((k + 1) * lo == k * lo + lo) by (nonlinear_arith);
        assert((k + 1) * hi == k * hi + hi) by (nonlinear_arith);
        assert(lo <= xs[xs.len() - 1] <= hi);
    } else {
        assert(0 * lo == 0 && 0 * hi == 0) by (nonlinear_arith);
    }
}

/// The mean of numbers between two bounds lies between those bounds.
pub proof fn law_mean_between(xs: Seq<nat>, lo: nat, hi: nat)
    requires
        xs.len() > 0,
        forall|i: int| 0 <= i < xs.len() ==> lo <= #[trigger] xs[i] <= hi,
    ensures
        lo <= mean_floor(xs) <= hi,
{
    lemma_total_between(xs, lo, hi);
    let n = xs.len();
    let t = total(xs);
    vstd::arithmetic::div_mod::lemma_fundamental_div_mod(t as int, n as int);
    let q = t / n;
    let r = t % n;
    assert(lo <= q) by (nonlinear_arith)
        requires
            n * lo <= n * q + r,
            r < n,
    ;
    assert(q <= hi) by (nonlinear_arith)
        requires
            n * q + r <= n * hi,
            0 <= r,
            n > 0,
    ;
}

/// Rounding to the nearest whole number is off by at most a half, and gives an
/// even number where it is off by exactly a half.
pub proof fn law_half_even_is_nearest(num: nat, den: nat)
    requires
        den > 0,
    ensures
        2 * (half_even(num, den) * den) <= 2 * num + den,
        2 * num <= 2 * (half_even(num, den) * den) + den,
        2 * (half_even(num, den) * den) == 2 * num + den ==> half_even(num, den) % 2 == 0,
        2 * num == 2 * (half_even(num, den) * den) + den ==> half_even(num, den) % 2 == 0,
{
    let q = num / den;
    let rest = num % den;
    vstd::arithmetic::div_mod::lemma_fundamental_div_mod(num as int, den as int);
    assert(den * q == q * den) by (nonlinear_arith);
    assert((q + 1) * den == q * den + den) by (nonlinear_arith);
    assert(0 <= rest < den) by (nonlinear_arith)
        requires
            den > 0,
            rest == num % den,
    ;
}

/// The sum of numbers is the sum of the sums of their parts, and one number is
/// its own sum.
pub proof fn law_total_adds_up(xs: Seq<nat>, ys: Seq<nat>, x: nat)
    ensures
        total(xs + ys) == total(xs) + total(ys),
        total(seq![x]) == x,
        total(seq![]) == 0,
    decreases ys.len(),
{
    reveal_with_fuel(total, 2);
    assert(seq![x].drop_last() =~= seq![]);
    if ys.len() == 0 {
        assert(xs + ys =~= xs);
    } else {
        law_total_adds_up(xs, ys.drop_last(), x);
        assert((xs + ys).drop_last() =~= xs + ys.drop_last());
    }
}

/// The mean, rounded down, times the count is at most the sum, and a mean
/// greater by one would be too much.
pub proof fn law_mean_divides_the_sum(xs: Seq<nat>)
    requires
        xs.len() > 0,
    ensures
        mean_floor(xs) * xs.len() <= total(xs) < (mean_floor(xs) + 1) * xs.len(),
{
    let n = xs.len();
    let m = mean_floor(xs);
    vstd::arithmetic::div_mod::lemma_fundamental_div_mod(total(xs) as int, n as int);
    let rest = total(xs) % n;
    assert(rest < n) by (nonlinear_arith)
        requires
            n > 0,
            rest == total(xs) % n,
    ;
    assert(n * m == m * n) by (nonlinear_arith);
    assert((m + 1) * n == m * n + n) by (nonlinear_arith);
}

/// The distances of numbers add up, and the distance of one number is what is
/// missing between its multiple and the sum, on whichever side it lies.
pub proof fn law_distances_add_up(xs: Seq<nat>, ys: Seq<nat>, n: nat, sum: nat, x: nat)
    ensures
        total_distance(xs + ys, n, sum) == total_distance(xs, n, sum) + total_distance(ys, n, sum),
        total_distance(seq![], n, sum) == 0,
        n * x <= sum ==> n * x + total_distance(seq![x], n, sum) == sum,
        n * x >= sum ==> sum + total_distance(seq![x], n, sum) == n * x,
    decreases ys.len(),
{
    reveal_with_fuel(total_distance, 2);
    assert(seq![x].drop_last() =~= seq![]);
    if ys.len() == 0 {
        assert(xs + ys =~= xs);
    } else {
        law_distances_add_up(xs, ys.drop_last(), n, sum, x);
        assert((xs + ys).drop_last() =~= xs + ys.drop_last());
    }
}

/// The mean absolute deviation is the sum of the distances of the numbers from
/// their mean, divided by their count, to the nearest whole number. All of it is
/// multiplied by the square of the count, which leaves no fractions: the numbers
/// and the mean by the count, and the mean of their distances by the count
/// again.
pub proof fn law_deviation_is_mean_distance(xs: Seq<nat>)
    requires
        xs.len() > 0,
    ensures
        ({
            let n = xs.len();
            let scaled = mean_absolute_deviation(xs) * (n * n);
            let distances = total_distance(xs, n, total(xs));
            &&& 2 * scaled <= 2 * distances + n * n
            &&& 2 * distances <= 2 * scaled + n * n
        }),
{
    let n = xs.len();
    assert(n * n > 0) by (nonlinear_arith)
        requires
            n > 0,
    ;
    law_half_even_is_nearest(total_distance(xs, n, total(xs)), n * n);
}

/// Two numbers lie half their distance from their mean: the deviation of a pair
/// is that half, to the nearest even number on a tie, whichever comes first.
pub proof fn law_deviation_of_a_pair(a: nat, b: nat)
    requires
        a <= b,
    ensures
        2 * mean_floor(seq![a, b]) <= a + b <= 2 * mean_floor(seq![a, b]) + 1,
        b - a <= 2 * mean_absolute_deviation(seq![a, b]) + 1,
        2 * mean_absolute_deviation(seq![a, b]) <= b - a + 1,
        (b - a) % 2 == 1 ==> mean_absolute_deviation(seq![a, b]) % 2 == 0,
        mean_absolute_deviation(seq![b, a]) == mean_absolute_deviation(seq![a, b]),
{
    reveal_with_fuel(total, 3);
    reveal_with_fuel(total_distance, 3);
    let ab = seq![a, b];
    let ba = seq![b, a];
    assert(ab.drop_last() =~= seq![a]);
    assert(ba.drop_last() =~= seq![b]);
    assert(seq![a].drop_last() =~= seq![]);
    assert(seq![b].drop_last() =~= seq![]);
    assert(total(ab) == a + b && total(ba) == a + b);
    let d = (2 * (b - a)) as nat;
    assert(total_distance(ab, 2, a + b) == d && total_distance(ba, 2, a + b) == d);
    assert(mean_absolute_deviation(ab) == half_even(d, 4));
}

/// The numbers of a machine sequence are its numbers, one by one and in order.
pub proof fn law_numbers_in_order(s: Seq<u128>, i: int)
    ensures
        nats(s).len() == s.len(),
        0 <= i < s.len() ==> nats(s)[i] == s[i],
{
}

} // verus!
