//! The decisions of a target's ping loop: which ICMP family it uses, which
//! sequence number comes next, when it stops, and what an answer means.

use vstd::prelude::*;

use crate::stats::Sample;
use crate::time::Duration;

verus! {

/// Per-ping timeout in seconds: generous enough to distinguish "slow" from
/// "dropped" without stalling the tick loop under normal intervals.
pub const PING_TIMEOUT_SECS: u64 = 2;

/// What a failure to open the socket says before the error itself.
pub const SOCKET_ERROR_HEAD: &'static str = "could not open an unprivileged ICMP socket (";

/// What a failure to open the socket says after the error itself.
pub const SOCKET_ERROR_HELP: &'static str =
    ").\n\nThis usually means the OS is blocking unprivileged (SOCK_DGRAM) ICMP:\n- Linux: check `sysctl net.ipv4.ping_group_range` — the running user's\ngroup must fall inside that range (e.g. `sudo sysctl -w \\\nnet.ipv4.ping_group_range=\"0 2147483647\"` to allow all groups).\n- macOS: unprivileged ICMP is normally enabled by default; if this\nstill fails, check for a restrictive sandbox/profile blocking raw/\ndatagram ICMP sockets for this process.\nekg does not fall back to a privileged (raw/sudo) socket.";

/// A single ping outcome, timestamped implicitly by arrival on the channel.
#[derive(Debug, Clone, Copy, PartialEq, Eq, Structural)]
pub enum PingEvent {
    Reply(Duration),
    Timeout,
}

/// A `PingEvent` tagged with the index of the target it came from, so
/// multiple per-target ping loops can multiplex onto one shared channel.
#[derive(Debug, Clone, Copy, PartialEq, Eq, Structural)]
pub struct TaggedEvent {
    pub idx: usize,
    pub event: PingEvent,
}

/// The sample that an event is recorded as.
pub open spec fn sample_of(e: PingEvent) -> Sample {
    match e {
        PingEvent::Reply(d) => Sample::Reply(d),
        PingEvent::Timeout => Sample::Timeout,
    }
}

impl From<PingEvent> for Sample {
    fn from(e: PingEvent) -> (s: Sample) {
        match e {
            PingEvent::Reply(d) => Sample::Reply(d),
            PingEvent::Timeout => Sample::Timeout,
        }
    }
}

impl vstd::std_specs::convert::FromSpecImpl<PingEvent> for Sample {
    open spec fn obeys_from_spec() -> bool {
        true
    }

    open spec fn from_spec(e: PingEvent) -> Sample {
        sample_of(e)
    }
}

/// The family of the ICMP socket.
#[derive(Debug, Clone, Copy, PartialEq, Eq, Structural)]
pub enum IcmpKind {
    V4,
    V6,
}

/// The ICMP family for a target, selected by its address family.
pub fn icmp_kind(is_ipv6: bool) -> (kind: IcmpKind)
    ensures
        kind == (if is_ipv6 {
            IcmpKind::V6
        } else {
            IcmpKind::V4
        }),
{
    if is_ipv6 {
        IcmpKind::V6
    } else {
        IcmpKind::V4
    }
}

/// The human-actionable message for a socket that could not be opened.
pub fn socket_error_message(error: &str) -> (msg: String)
    ensures
        msg@ == SOCKET_ERROR_HEAD@ + error@ + SOCKET_ERROR_HELP@,
{
    let mut msg = String::new();
    msg.append(SOCKET_ERROR_HEAD);
    msg.append(error);
    msg.append(SOCKET_ERROR_HELP);
    assert(msg@ =~= SOCKET_ERROR_HEAD@ + error@ + SOCKET_ERROR_HELP@);
    msg
}

/// `sent` has reached the bound; without a bound it never does.
pub open spec fn reached(sent: nat, count: Option<u64>) -> bool {
    match count {
        Some(max) => sent >= max,
        None => false,
    }
}

/// True once `sent` has reached `count`'s bound, i.e. this target's ping
/// loop should stop issuing new pings. `None` means unbounded and never
/// triggers.
pub fn count_reached(sent: u64, count: Option<u64>) -> (r: bool)
    ensures
        r == reached(sent as nat, count),
{
    match count {
        Some(max) => sent >= max,
        None => false,
    }
}

/// What a ping loop has done: how many pings it has sent, and its bound.
#[verifier::ext_equal]
pub struct PingLoopView {
    pub sent: nat,
    pub count: Option<u64>,
}

/// The state of one target's ping loop.
pub struct PingLoop {
    seq: u16,
    sent: u64,
    count: Option<u64>,
}

impl View for PingLoop {
    type V = PingLoopView;

    closed spec fn view(&self) -> PingLoopView {
        PingLoopView { sent: self.sent as nat, count: self.count }
    }
}

impl PingLoop {
    /// Sequence numbers count the pings and wrap around; a bound is never
    /// exceeded.
    #[verifier::type_invariant]
    spec fn inv(self) -> bool {
        &&& self.seq == self.sent as nat % 0x1_0000
        &&& self.count matches Some(max) ==> self.sent <= max
    }

    /// A loop that sends `count` pings, or goes on without end.
    pub fn new(count: Option<u64>) -> (l: PingLoop)
        ensures
            l@ == (PingLoopView { sent: 0, count }),
    {
        PingLoop { seq: 0, sent: 0, count }
    }

    /// How many pings the loop has sent.
    pub fn sent(&self) -> (n: u64)
        ensures
            n == self@.sent,
    {
        self.sent
    }

    /// The sequence number of the next ping, or none where the bound is
    /// reached: the loop then idles, it does not end.
    pub fn next_seq(&self) -> (seq: Option<u16>)
        ensures
            match seq {
                Some(n) => !reached(self@.sent, self@.count) && n == self@.sent % 0x1_0000,
                None => reached(self@.sent, self@.count),
            },
    {
        proof {
            use_type_invariant(self);
        }
        if count_reached(self.sent, self.count) {
            None
        } else {
            Some(self.seq)
        }
    }

    /// Takes the answer to the ping just sent: its round-trip time, or none
    /// where it failed.
    pub fn answered(&mut self, rtt: Option<Duration>) -> (event: PingEvent)
        requires
            !reached(old(self)@.sent, old(self)@.count),
            old(self)@.sent < u64::MAX,
        ensures
            final(self)@ == (PingLoopView { sent: old(self)@.sent + 1, ..old(self)@ }),
            event == (match rtt {
                Some(d) => PingEvent::Reply(d),
                None => PingEvent::Timeout,
            }),
    {
        proof {
            use_type_invariant(&*self);
        }
        let seq = self.seq.wrapping_add(1);
        *self = PingLoop { seq, sent: self.sent + 1, count: self.count };
        match rtt {
            Some(d) => PingEvent::Reply(d),
            None => PingEvent::Timeout,
        }
    }
}

/// The loop after at most `ticks` more ticks: each sends one ping, until the
/// bound is reached.
pub open spec fn after_ticks(l: PingLoopView, ticks: nat) -> PingLoopView
    decreases ticks,
{
    if ticks == 0 || reached(l.sent, l.count) {
        l
    } else {
        after_ticks(PingLoopView { sent: l.sent + 1, ..l }, (ticks - 1) as nat)
    }
}

/// A loop with a bound sends exactly that many pings, however often it ticks;
/// one without sends a ping at every tick.
pub proof fn law_count_bounds_pings(l: PingLoopView, ticks: nat)
    requires
        l.count matches Some(max) ==> l.sent <= max,
    ensures
        after_ticks(l, ticks).count == l.count,
        after_ticks(l, ticks).sent == match l.count {
            Some(max) => if l.sent + ticks < max {
                l.sent + ticks
            } else {
                max as nat
            },
            None => l.sent + ticks,
        },
    decreases ticks,
{
    if ticks > 0 && !reached(l.sent, l.count) {
        law_count_bounds_pings(PingLoopView { sent: l.sent + 1, ..l }, (ticks - 1) as nat);
    }
}

/// Without a bound the end is never reached. With one it is reached by exactly
/// that many pings and not by one less, and once reached it stays so.
pub proof fn law_bound_is_reached_once(sent: nat, more: nat, max: u64)
    ensures
        !reached(sent, None),
        reached(max as nat, Some(max)),
        max > 0 ==> !reached((max - 1) as nat, Some(max)),
        sent <= more && reached(sent, Some(max)) ==> reached(more, Some(max)),
{
}

/// A reply is recorded with its RTT, and a timeout as one; no other sample comes
/// of either.
pub proof fn law_samples_tell_events(a: PingEvent, b: PingEvent)
    ensures
        sample_of(a) is Timeout <==> a is Timeout,
        a matches PingEvent::Reply(d) ==> sample_of(a) == Sample::Reply(d),
        sample_of(a) == sample_of(b) ==> a == b,
{
}

/// A loop hands out the sequence numbers of its pings in order, from 0 on and
/// around after 65535, until it has sent as many as asked for, and then none.
pub proof fn law_sequence_numbers(l: PingLoop, seq: Option<u16>, sent: u64)
    requires
        call_ensures(PingLoop::next_seq, (&l,), seq),
        call_ensures(PingLoop::sent, (&l,), sent),
    ensures
        sent == l@.sent,
        l@.count is None ==> seq is Some,
        l@.count matches Some(max) ==> (seq is Some <==> sent < max),
        seq matches Some(n) ==> n == sent as nat % 65536,
{
}

/// Only an IPv6 target gets an ICMPv6 socket.
pub proof fn law_family_follows_address(is_ipv6: bool, kind: IcmpKind)
    requires
        call_ensures(icmp_kind, (is_ipv6,), kind),
    ensures
        kind == IcmpKind::V6 <==> is_ipv6,
        kind == IcmpKind::V4 <==> !is_ipv6,
{
}

/// An answer counts one ping as sent, and becomes a reply with its RTT, or a
/// timeout where there was none.
pub proof fn law_answers_count(l: &mut PingLoop, rtt: Option<Duration>, event: PingEvent)
    requires
        call_ensures(PingLoop::answered, (l, rtt), event),
    ensures
        final(l)@.sent == old(l)@.sent + 1,
        final(l)@.count == old(l)@.count,
        rtt matches Some(d) ==> event == PingEvent::Reply(d),
        rtt is None ==> event == PingEvent::Timeout,
{
}

/// A ping has two seconds to be answered.
pub proof fn law_ping_timeout()
    ensures
        PING_TIMEOUT_SECS == 2,
{
}

} // verus!
