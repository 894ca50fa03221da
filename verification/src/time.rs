//! Spans of time and points in time, both counted in whole nanoseconds.

use vstd::prelude::*;

verus! {

/// Nanoseconds in one second.
pub const NANOS_PER_SEC: u128 = 1_000_000_000;

/// Nanoseconds in one millisecond.
pub const NANOS_PER_MILLI: u128 = 1_000_000;

/// The longest span: `u64::MAX` seconds and 999999999 nanoseconds.
pub const MAX_NANOS: u128 = 18_446_744_073_709_551_615_999_999_999;

/// A span of time. Its view is its length in nanoseconds.
#[derive(Debug, Clone, Copy, PartialEq, Eq, Structural)]
pub struct Duration {
    nanos: u128,
}

impl View for Duration {
    type V = nat;

    closed spec fn view(&self) -> nat {
        self.nanos as nat
    }
}

impl Duration {
    #[verifier::type_invariant]
    spec fn in_range(self) -> bool {
        self.nanos <= MAX_NANOS
    }

    /// The span of `secs` seconds and `nanos` nanoseconds.
    pub fn new(secs: u64, nanos: u32) -> (d: Duration)
        requires
            secs * NANOS_PER_SEC + nanos <= MAX_NANOS,
        ensures
            d@ == secs * NANOS_PER_SEC + nanos,
    {
        Duration { nanos: secs as u128 * NANOS_PER_SEC + nanos as u128 }
    }

    /// The span of `secs` seconds.
    pub fn from_secs(secs: u64) -> (d: Duration)
        ensures
            d@ == secs * NANOS_PER_SEC,
    {
        Duration { nanos: secs as u128 * NANOS_PER_SEC }
    }

    /// The span of `millis` milliseconds.
    pub fn from_millis(millis: u64) -> (d: Duration)
        ensures
            d@ == millis * NANOS_PER_MILLI,
    {
        Duration { nanos: millis as u128 * NANOS_PER_MILLI }
    }

    /// The span of `nanos` nanoseconds.
    pub fn from_nanos(nanos: u128) -> (d: Duration)
        requires
            nanos <= MAX_NANOS,
        ensures
            d@ == nanos,
    {
        Duration { nanos }
    }

    /// The length in nanoseconds.
    pub fn as_nanos(&self) -> (nanos: u128)
        ensures
            nanos == self@,
            nanos <= MAX_NANOS,
    {
        proof {
            use_type_invariant(self);
        }
        self.nanos
    }

    /// Whole milliseconds, the rest dropped.
    pub fn as_millis(&self) -> (millis: u128)
        ensures
            millis == self@ / (NANOS_PER_MILLI as nat),
    {
        self.nanos / NANOS_PER_MILLI
    }

    /// Whole seconds, the rest dropped.
    pub fn as_secs(&self) -> (secs: u64)
        ensures
            secs == self@ / (NANOS_PER_SEC as nat),
    {
        proof {
            use_type_invariant(self);
        }
        (self.nanos / NANOS_PER_SEC) as u64
    }

    /// The nanoseconds past the last whole second.
    pub fn subsec_nanos(&self) -> (nanos: u32)
        ensures
            nanos == self@ % (NANOS_PER_SEC as nat),
    {
        (self.nanos % NANOS_PER_SEC) as u32
    }

    /// The span from `earlier` to `self`, or the empty span where `earlier`
    /// is not earlier.
    pub fn saturating_sub(&self, earlier: Duration) -> (d: Duration)
        ensures
            d@ == span_since(self@, earlier@),
    {
        proof {
            use_type_invariant(self);
        }
        if earlier.nanos <= self.nanos {
            Duration { nanos: self.nanos - earlier.nanos }
        } else {
            Duration { nanos: 0 }
        }
    }
}

/// The span between two readings of a clock, empty where the second is not
/// the later one.
pub open spec fn span_since(now: nat, earlier: nat) -> nat {
    if earlier <= now {
        (now - earlier) as nat
    } else {
        0
    }
}

/// The lengths of an optional span.
pub open spec fn opt_nanos(d: Option<Duration>) -> Option<nat> {
    match d {
        Some(d) => Some(d@),
        None => None,
    }
}

/// A point on the wall clock. Its view counts nanoseconds since the Unix
/// epoch, and is negative before it.
#[derive(Debug, Clone, Copy, PartialEq, Eq, Structural)]
pub struct SystemTime {
    nanos: i128,
}

impl View for SystemTime {
    type V = int;

    closed spec fn view(&self) -> int {
        self.nanos as int
    }
}

impl SystemTime {
    /// The point `since_epoch` after the Unix epoch.
    pub fn after_epoch(since_epoch: Duration) -> (t: SystemTime)
        ensures
            t@ == since_epoch@,
            t@ <= MAX_NANOS,
    {
        let nanos = since_epoch.as_nanos();
        SystemTime { nanos: nanos as i128 }
    }

    /// The point `until_epoch` before the Unix epoch.
    pub fn before_epoch(until_epoch: Duration) -> (t: SystemTime)
        ensures
            t@ == -(until_epoch@ as int),
    {
        let nanos = until_epoch.as_nanos();
        SystemTime { nanos: -(nanos as i128) }
    }

    /// The point `d` after this one.
    pub fn plus(&self, d: Duration) -> (t: SystemTime)
        requires
            self@ <= MAX_NANOS,
        ensures
            t@ == self@ + d@,
    {
        let nanos = d.as_nanos();
        SystemTime { nanos: self.nanos + nanos as i128 }
    }

    /// Nanoseconds since the Unix epoch, 0 before it.
    pub fn nanos_since_epoch(&self) -> (nanos: u128)
        ensures
            nanos == epoch_nanos(self@),
    {
        if self.nanos < 0 {
            0
        } else {
            self.nanos as u128
        }
    }
}

/// Nanoseconds from the Unix epoch to `t`, 0 where `t` lies before it.
pub open spec fn epoch_nanos(t: int) -> nat {
    if t < 0 {
        0
    } else {
        t as nat
    }
}

/// Milliseconds from the Unix epoch to `t`, the rest dropped.
pub open spec fn epoch_millis(t: int) -> nat {
    epoch_nanos(t) / (NANOS_PER_MILLI as nat)
}

/// Milliseconds since the Unix epoch, 0 for a time before it.
pub fn to_ms(t: SystemTime) -> (ms: u128)
    ensures
        ms == epoch_millis(t@),
{
    t.nanos_since_epoch() / NANOS_PER_MILLI
}

/// A span is told by its length, and a point in time by its distance from the
/// epoch.
pub proof fn law_times_are_told_by_their_numbers(
    a: Duration,
    b: Duration,
    s: SystemTime,
    t: SystemTime,
)
    ensures
        a@ == b@ ==> a == b,
        s@ == t@ ==> s == t,
{
}

/// A millisecond is a million nanoseconds, a second is a thousand milliseconds,
/// and the longest span is a nanosecond short of 2 to the 64 seconds.
pub proof fn law_units_of_time()
    ensures
        NANOS_PER_MILLI == 1_000_000,
        NANOS_PER_SEC == 1_000 * NANOS_PER_MILLI,
        MAX_NANOS + 1 == 0x1_0000_0000_0000_0000 * NANOS_PER_SEC,
{
}

/// A span leads from the earlier reading to the later one; there is none where
/// the readings do not go forward.
pub proof fn law_span_leads_to_now(now: nat, earlier: nat)
    ensures
        earlier <= now ==> earlier + span_since(now, earlier) == now,
        earlier >= now ==> span_since(now, earlier) == 0,
{
}

/// Milliseconds since the epoch are whole ones: the time lies in the
/// millisecond that begins there. Times before the epoch count as the epoch.
pub proof fn law_epoch_millis(t: int)
    ensures
        t >= 0 ==> epoch_nanos(t) == t,
        t <= 0 ==> epoch_nanos(t) == 0,
        t >= 0 ==> epoch_millis(t) * 1_000_000 <= t < (epoch_millis(t) + 1) * 1_000_000,
        t <= 0 ==> epoch_millis(t) == 0,
{
}

/// An optional span is there exactly where its length is.
pub proof fn law_optional_span(d: Option<Duration>)
    ensures
        opt_nanos(d) is Some <==> d is Some,
        d matches Some(span) ==> opt_nanos(d) == Some(span@),
{
}

/// A span made of seconds, or of milliseconds, tells them again; a span is its
/// whole seconds and what is past them, and its whole milliseconds fall short of
/// it by less than one.
pub proof fn law_spans_tell_their_units(
    n: u64,
    of_secs: Duration,
    secs: u64,
    of_millis: Duration,
    millis: u128,
    d: Duration,
    d_secs: u64,
    d_nanos: u32,
    d_millis: u128,
)
    requires
        call_ensures(Duration::from_secs, (n,), of_secs),
        call_ensures(Duration::as_secs, (&of_secs,), secs),
        call_ensures(Duration::from_millis, (n,), of_millis),
        call_ensures(Duration::as_millis, (&of_millis,), millis),
        call_ensures(Duration::as_secs, (&d,), d_secs),
        call_ensures(Duration::subsec_nanos, (&d,), d_nanos),
        call_ensures(Duration::as_millis, (&d,), d_millis),
    ensures
        secs == n,
        millis == n,
        of_secs@ == 1_000_000_000 * n,
        of_millis@ == 1_000_000 * n,
        d_secs * 1_000_000_000 + d_nanos == d@,
        d_nanos < 1_000_000_000,
        d_millis * 1_000_000 <= d@ < (d_millis + 1) * 1_000_000,
{
}

/// The span from an earlier reading to a later one, added to the earlier, is the
/// later one again.
pub proof fn law_span_adds_up(earlier: Duration, now: Duration, span: Duration)
    requires
        call_ensures(Duration::saturating_sub, (&now, earlier), span),
    ensures
        earlier@ <= now@ ==> earlier@ + span@ == now@,
        earlier@ >= now@ ==> span@ == 0,
{
}

/// A point on the wall clock lies as far behind the epoch as it was made, or as
/// far before it, and moves on by what is added; its milliseconds since the epoch
/// are whole ones.
pub proof fn law_points_in_time(
    since: Duration,
    t: SystemTime,
    before: SystemTime,
    d: Duration,
    later: SystemTime,
    ms: u128,
    none: u128,
)
    requires
        call_ensures(SystemTime::after_epoch, (since,), t),
        call_ensures(SystemTime::before_epoch, (since,), before),
        call_ensures(SystemTime::plus, (&t, d), later),
        call_ensures(to_ms, (t,), ms),
        call_ensures(to_ms, (before,), none),
    ensures
        t@ == since@,
        t@ + before@ == 0,
        later@ - t@ == d@,
        ms * 1_000_000 <= since@ < (ms + 1) * 1_000_000,
        none == 0,
{
}

} // verus!
