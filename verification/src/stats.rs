//! Rolling-window ping statistics: average RTT, jitter (mean absolute
//! deviation), packet loss, and sparkline bucket data.

use std::collections::VecDeque;

use vstd::prelude::*;

use crate::mean::{deviation, mean, round_half_even};
use crate::mean::{half_even, law_equal_numbers, law_half_even_is_nearest, law_mean_between};
use crate::mean::{law_deviation_is_mean_distance, law_mean_divides_the_sum, total_distance};
use crate::mean::{mean_absolute_deviation, mean_floor, nats, total};
use crate::mean::{MeanView, RunningMean};
use crate::time::{opt_nanos, Duration, MAX_NANOS};

verus! {

/// The sparkline level of every reply in a slice whose replies are all equal.
pub const FLAT_LEVEL: u8 = 4;

/// One outcome for a single ping attempt.
#[derive(Debug, Clone, Copy, PartialEq, Eq, Structural)]
pub enum Sample {
    Reply(Duration),
    Timeout,
}

/// The round-trip times of the replies among `samples`, in nanoseconds, in
/// order.
pub open spec fn reply_nanos(samples: Seq<Sample>) -> Seq<nat>
    decreases samples.len(),
{
    if samples.len() == 0 {
        seq![]
    } else {
        match samples.last() {
            Sample::Reply(d) => reply_nanos(samples.drop_last()).push(d@),
            Sample::Timeout => reply_nanos(samples.drop_last()),
        }
    }
}

/// How many of `samples` are timeouts.
pub open spec fn timeouts(samples: Seq<Sample>) -> nat
    decreases samples.len(),
{
    if samples.len() == 0 {
        0
    } else {
        timeouts(samples.drop_last()) + if samples.last() is Timeout {
            1nat
        } else {
            0
        }
    }
}

/// The round-trip time of the latest reply among `samples`, if there is one.
pub open spec fn latest_reply(samples: Seq<Sample>) -> Option<nat> {
    if reply_nanos(samples).len() == 0 {
        None
    } else {
        Some(reply_nanos(samples).last())
    }
}

/// The last `count` of `samples`, or all of them where there are no more.
pub open spec fn last_samples(samples: Seq<Sample>, count: nat) -> Seq<Sample> {
    if samples.len() <= count {
        samples
    } else {
        samples.skip(samples.len() - count)
    }
}

/// The smallest of `xs`.
pub open spec fn least(xs: Seq<nat>) -> nat
    recommends
        xs.len() > 0,
    decreases xs.len(),
{
    if xs.len() <= 1 {
        xs[0]
    } else {
        let rest = least(xs.drop_last());
        if xs.last() < rest {
            xs.last()
        } else {
            rest
        }
    }
}

/// The greatest of `xs`.
pub open spec fn greatest(xs: Seq<nat>) -> nat
    recommends
        xs.len() > 0,
    decreases xs.len(),
{
    if xs.len() <= 1 {
        xs[0]
    } else {
        let rest = greatest(xs.drop_last());
        if xs.last() > rest {
            xs.last()
        } else {
            rest
        }
    }
}

/// The sparkline level of `v` on the scale from `lo` (level 0) to `hi` (level
/// 7): `7 * (v - lo) / (hi - lo)` to the nearest whole number, up on a tie. On
/// a scale of one point, the flat level.
pub open spec fn level(v: nat, lo: nat, hi: nat) -> int {
    if lo == hi {
        FLAT_LEVEL as int
    } else {
        (14 * (v - lo) + (hi - lo)) / (2 * (hi - lo))
    }
}

/// The sparkline entry of `sample` among the samples `slice`.
pub open spec fn bucket(sample: Sample, slice: Seq<Sample>) -> Option<u8> {
    match sample {
        Sample::Reply(d) => Some(
            level(d@, least(reply_nanos(slice)), greatest(reply_nanos(slice))) as u8,
        ),
        Sample::Timeout => None,
    }
}

/// The smaller of an earlier minimum, if any, and `rtt`.
pub open spec fn lower(earlier: Option<Duration>, rtt: Duration) -> Option<Duration> {
    match earlier {
        None => Some(rtt),
        Some(m) => if rtt@ < m@ {
            Some(rtt)
        } else {
            Some(m)
        },
    }
}

/// The greater of an earlier maximum, if any, and `rtt`.
pub open spec fn higher(earlier: Option<Duration>, rtt: Duration) -> Option<Duration> {
    match earlier {
        None => Some(rtt),
        Some(m) => if rtt@ > m@ {
            Some(rtt)
        } else {
            Some(m)
        },
    }
}

/// A share of lost pings: `lost` out of `total`. Nothing lost out of nothing
/// is no loss.
#[derive(Debug, Clone, Copy, PartialEq, Eq, Structural)]
pub struct Loss {
    pub lost: u64,
    pub total: u64,
}

impl Loss {
    /// The loss is at least `percent` percent.
    pub open spec fn reaches(self, percent: nat) -> bool {
        if self.total == 0 {
            percent == 0
        } else {
            self.lost * 100 >= percent * self.total
        }
    }

    /// The loss in percent, to the nearest whole number, to the even one on a
    /// tie.
    pub open spec fn percent(self) -> nat {
        if self.total == 0 {
            0
        } else {
            half_even((self.lost * 100) as nat, self.total as nat)
        }
    }

    /// The loss in tenths of a percent, rounded likewise.
    pub open spec fn tenths(self) -> nat {
        if self.total == 0 {
            0
        } else {
            half_even((self.lost * 1000) as nat, self.total as nat)
        }
    }

    /// At most `ppm` out of a million pings were lost.
    pub open spec fn within(self, ppm: nat) -> bool {
        self.lost * 1_000_000 <= ppm * self.total
    }

    /// Whether the loss is at least `percent` percent.
    pub fn is_at_least(&self, percent: u64) -> (r: bool)
        ensures
            r == self.reaches(percent as nat),
    {
        if self.total == 0 {
            return percent == 0;
        }
        proof {
            assert(percent * self.total <= u64::MAX * u64::MAX) by (nonlinear_arith)
                requires
                    0 <= percent <= u64::MAX,
                    0 <= self.total <= u64::MAX,
            ;
        }
        self.lost as u128 * 100 >= percent as u128 * self.total as u128
    }

    /// The loss in whole percent.
    pub fn to_percent(&self) -> (p: u128)
        ensures
            p == self.percent(),
    {
        if self.total == 0 {
            0
        } else {
            round_half_even(self.lost as u128 * 100, self.total as u128)
        }
    }

    /// The loss in tenths of a percent.
    pub fn to_tenths(&self) -> (t: u128)
        ensures
            t == self.tenths(),
    {
        if self.total == 0 {
            0
        } else {
            round_half_even(self.lost as u128 * 1000, self.total as u128)
        }
    }

    /// Whether at most `ppm` out of a million pings were lost.
    pub fn is_within(&self, ppm: u64) -> (r: bool)
        ensures
            r == self.within(ppm as nat),
    {
        proof {
            assert(ppm * self.total <= u64::MAX * u64::MAX) by (nonlinear_arith)
                requires
                    0 <= ppm <= u64::MAX,
                    0 <= self.total <= u64::MAX,
            ;
        }
        self.lost as u128 * 1_000_000 <= ppm as u128 * self.total as u128
    }
}

/// What the statistics hold: the window and its samples, and the counters, the
/// extremes and the mean of the whole session.
#[verifier::ext_equal]
pub struct StatsView {
    pub window: nat,
    pub samples: Seq<Sample>,
    pub sent: nat,
    pub received: nat,
    pub min_rtt: Option<Duration>,
    pub max_rtt: Option<Duration>,
    pub replies: MeanView,
}

impl StatsView {
    /// No samples yet, and room for `window` of them, at least one.
    pub open spec fn empty(window: nat) -> StatsView {
        StatsView {
            window: if window == 0 {
                1
            } else {
                window
            },
            samples: seq![],
            sent: 0,
            received: 0,
            min_rtt: None,
            max_rtt: None,
            replies: MeanView { count: 0, sum: 0 },
        }
    }

    /// The statistics after one more sample: the window keeps its most recent
    /// samples, the counters, extremes and mean cover the whole session.
    pub open spec fn recorded(self, sample: Sample) -> StatsView {
        StatsView {
            window: self.window,
            samples: last_samples(self.samples.push(sample), self.window),
            sent: self.sent + 1,
            received: self.received + if sample is Reply {
                1nat
            } else {
                0
            },
            min_rtt: match sample {
                Sample::Reply(d) => lower(self.min_rtt, d),
                Sample::Timeout => self.min_rtt,
            },
            max_rtt: match sample {
                Sample::Reply(d) => higher(self.max_rtt, d),
                Sample::Timeout => self.max_rtt,
            },
            replies: match sample {
                Sample::Reply(d) => MeanView {
                    count: self.replies.count + 1,
                    sum: self.replies.sum + d@,
                },
                Sample::Timeout => self.replies,
            },
        }
    }

    /// The average RTT of all replies of the session, rounded down to the
    /// nanosecond, once there is one.
    pub open spec fn session_avg(self) -> Option<nat> {
        if self.replies.count == 0 {
            None
        } else {
            Some(self.replies.sum / self.replies.count)
        }
    }

    /// The window holds at most its size, no more replies came than pings were
    /// sent, and the extremes and the mean are those of the replies.
    pub open spec fn wf(self) -> bool {
        &&& self.window >= 1
        &&& self.samples.len() <= self.window
        &&& self.received <= self.sent
        &&& self.min_rtt is Some <==> self.received > 0
        &&& self.max_rtt is Some <==> self.received > 0
        &&& self.replies.count == self.received
    }
}

/// Ring buffer of the most recent `window` samples, plus the counters of the
/// whole session, which are independent of the window.
pub struct Stats {
    window: usize,
    samples: VecDeque<Sample>,
    replies: RunningMean,
    pub sent: u64,
    pub received: u64,
    pub min_rtt: Option<Duration>,
    pub max_rtt: Option<Duration>,
}

impl View for Stats {
    type V = StatsView;

    closed spec fn view(&self) -> StatsView {
        StatsView {
            window: self.window as nat,
            samples: self.samples@,
            sent: self.sent as nat,
            received: self.received as nat,
            min_rtt: self.min_rtt,
            max_rtt: self.max_rtt,
            replies: self.replies@,
        }
    }
}

impl Stats {
    /// Statistics over a rolling window of `window` samples, at least one.
    pub fn new(window: usize) -> (s: Stats)
        ensures
            s@ == StatsView::empty(window as nat),
            s@.wf(),
    {
        let window: usize = if window == 0 {
            1
        } else {
            window
        };
        Stats {
            window,
            samples: VecDeque::new(),
            replies: RunningMean::new(),
            sent: 0,
            received: 0,
            min_rtt: None,
            max_rtt: None,
        }
    }

    /// Takes in the outcome of one ping.
    pub fn record(&mut self, sample: Sample)
        requires
            old(self)@.wf(),
            old(self)@.sent < u64::MAX,
        ensures
            final(self)@ == old(self)@.recorded(sample),
            final(self)@.wf(),
    {
        self.sent += 1;
        if let Sample::Reply(rtt) = sample {
            self.received += 1;
            self.replies.add_span(rtt);
            self.min_rtt = match self.min_rtt {
                None => Some(rtt),
                Some(m) => if rtt.as_nanos() < m.as_nanos() {
                    Some(rtt)
                } else {
                    Some(m)
                },
            };
            self.max_rtt = match self.max_rtt {
                None => Some(rtt),
                Some(m) => if rtt.as_nanos() > m.as_nanos() {
                    Some(rtt)
                } else {
                    Some(m)
                },
            };
        }
        if self.samples.len() == self.window {
            self.samples.pop_front();
        }
        self.samples.push_back(sample);
        assert(self@.samples =~= old(self)@.recorded(sample).samples);
    }

    /// How many pings were sent in the session.
    pub fn sent(&self) -> (n: u64)
        ensures
            n == self@.sent,
    {
        self.sent
    }

    /// How many replies were received in the session.
    pub fn received(&self) -> (n: u64)
        ensures
            n == self@.received,
    {
        self.received
    }

    /// The shortest RTT of the session.
    pub fn min_rtt(&self) -> (rtt: Option<Duration>)
        ensures
            rtt == self@.min_rtt,
    {
        self.min_rtt
    }

    /// The longest RTT of the session.
    pub fn max_rtt(&self) -> (rtt: Option<Duration>)
        ensures
            rtt == self@.max_rtt,
    {
        self.max_rtt
    }

    /// The round-trip times, in nanoseconds, of the replies in the window from
    /// the sample at `start` on.
    fn replies_from(&self, start: usize) -> (rtts: Vec<u128>)
        requires
            start <= self@.samples.len(),
        ensures
            nats(rtts@) == reply_nanos(self@.samples.skip(start as int)),
            forall|i: int| 0 <= i < rtts@.len() ==> rtts@[i] <= MAX_NANOS,
    {
        let mut rtts: Vec<u128> = Vec::new();
        let mut i: usize = start;
        assert(self.samples@.subrange(start as int, start as int) =~= seq![]);
        while i < self.samples.len()
            invariant
                start <= i <= self.samples@.len(),
                nats(rtts@) =~= reply_nanos(self.samples@.subrange(start as int, i as int)),
                forall|j: int| 0 <= j < rtts@.len() ==> rtts@[j] <= MAX_NANOS,
            decreases self.samples@.len() - i,
        {
            assert(self.samples@.subrange(start as int, i + 1).drop_last()
                =~= self.samples@.subrange(start as int, i as int));
            if let Sample::Reply(d) = self.samples[i] {
                let nanos = d.as_nanos();
                assert(nats(rtts@.push(nanos)) =~= nats(rtts@).push(nanos as nat));
                rtts.push(nanos);
            }
            i += 1;
        }
        assert(self.samples@.subrange(start as int, i as int)
            =~= self.samples@.skip(start as int));
        rtts
    }

    /// Average RTT over the rolling window (replies only). `None` if no
    /// replies are in the window.
    pub fn avg_rtt(&self) -> (avg: Option<Duration>)
        ensures
            match avg {
                None => reply_nanos(self@.samples).len() == 0,
                Some(d) => {
                    &&& reply_nanos(self@.samples).len() > 0
                    &&& d@ == mean_floor(reply_nanos(self@.samples))
                },
            },
    {
        let replies = self.replies_from(0);
        assert(self@.samples.skip(0) =~= self@.samples);
        assert(nats(replies@).len() == replies@.len());
        if replies.len() == 0 {
            return None;
        }
        Some(Duration::from_nanos(mean(&replies)))
    }

    /// RTT of the latest reply in the rolling window. `None` if no replies are
    /// in the window.
    pub fn latest_rtt(&self) -> (latest: Option<Duration>)
        ensures
            opt_nanos(latest) == latest_reply(self@.samples),
    {
        let mut i: usize = self.samples.len();
        assert(self.samples@.take(i as int) =~= self.samples@);
        while i > 0
            invariant
                i <= self.samples@.len(),
                reply_nanos(self.samples@.take(i as int)) == reply_nanos(self.samples@),
            decreases i,
        {
            assert(self.samples@.take(i as int).drop_last() =~= self.samples@.take(i - 1));
            i -= 1;
            if let Sample::Reply(d) = self.samples[i] {
                return Some(d);
            }
        }
        None
    }

    /// Average RTT over the whole session (replies only). `None` before the
    /// first reply.
    pub fn session_avg_rtt(&self) -> (avg: Option<Duration>)
        ensures
            opt_nanos(avg) == self@.session_avg(),
    {
        self.replies.mean()
    }

    /// Jitter over the rolling window as the mean absolute deviation of the
    /// RTTs from their mean, computed exactly and rounded to the nearest
    /// nanosecond. `None` if no replies are in the window.
    pub fn jitter(&self) -> (jitter: Option<Duration>)
        ensures
            match jitter {
                None => reply_nanos(self@.samples).len() == 0,
                Some(d) => {
                    &&& reply_nanos(self@.samples).len() > 0
                    &&& d@ == mean_absolute_deviation(reply_nanos(self@.samples))
                },
            },
    {
        let replies = self.replies_from(0);
        assert(self@.samples.skip(0) =~= self@.samples);
        assert(nats(replies@).len() == replies@.len());
        if replies.len() == 0 {
            return None;
        }
        Some(Duration::from_nanos(deviation(&replies)))
    }

    /// Packet loss over the rolling window.
    pub fn loss_pct(&self) -> (loss: Loss)
        ensures
            loss.lost == timeouts(self@.samples),
            loss.total == self@.samples.len(),
    {
        let mut lost: u64 = 0;
        let mut i: usize = 0;
        while i < self.samples.len()
            invariant
                i <= self.samples@.len(),
                lost == timeouts(self.samples@.take(i as int)),
                lost <= i,
            decreases self.samples@.len() - i,
        {
            assert(self.samples@.take(i + 1).drop_last() =~= self.samples@.take(i as int));
            if let Sample::Timeout = self.samples[i] {
                lost += 1;
            }
            i += 1;
        }
        assert(self.samples@.take(i as int) =~= self.samples@);
        Loss { lost, total: self.samples.len() as u64 }
    }

    /// Packet loss over the whole session (sent vs received), for the final
    /// session summary.
    pub fn lifetime_loss_pct(&self) -> (loss: Loss)
        requires
            self@.wf(),
        ensures
            loss.lost == self@.sent - self@.received,
            loss.total == self@.sent,
    {
        Loss { lost: self.sent - self.received, total: self.sent }
    }

    /// Sparkline bucket levels (0..=7) for the last `count` samples, scaled
    /// to the min/max RTT within that slice. `None` entries represent
    /// timeouts (rendered as a gap character by the display layer).
    pub fn sparkline_buckets(&self, count: usize) -> (buckets: Vec<Option<u8>>)
        ensures
            ({
                let slice = last_samples(self@.samples, count as nat);
                buckets@ == Seq::new(slice.len(), |i: int| bucket(slice[i], slice))
            }),
    {
        let start: usize = if self.samples.len() > count {
            self.samples.len() - count
        } else {
            0
        };
        let ghost slice = last_samples(self@.samples, count as nat);
        assert(slice =~= self@.samples.skip(start as int));
        let rtts = self.replies_from(start);
        let scale = extremes(&rtts);
        let mut buckets: Vec<Option<u8>> = Vec::new();
        let mut i: usize = start;
        while i < self.samples.len()
            invariant
                start <= i <= self.samples@.len(),
                slice == self.samples@.skip(start as int),
                nats(rtts@) == reply_nanos(slice),
                match scale {
                    None => rtts@.len() == 0,
                    Some((lo, hi)) => {
                        &&& rtts@.len() > 0
                        &&& lo == least(nats(rtts@))
                        &&& hi == greatest(nats(rtts@))
                        &&& hi <= MAX_NANOS
                    },
                },
                buckets@.len() == i - start,
                forall|j: int|
                    0 <= j < buckets@.len() ==> buckets@[j] == bucket(slice[j], slice),
            decreases self.samples@.len() - i,
        {
            let entry: Option<u8> = match self.samples[i] {
                Sample::Timeout => None,
                Sample::Reply(d) => {
                    let v = d.as_nanos();
                    proof {
                        assert(slice[i - start] == self.samples@[i as int]);
                        lemma_reply_listed(slice, i - start);
                        let k = choose|k: int|
                            0 <= k < reply_nanos(slice).len() && reply_nanos(slice)[k] == v;
                        lemma_extremes(reply_nanos(slice), k);
                    }
                    match scale {
                        None => None,
                        Some((lo, hi)) => Some(level_of(v, lo, hi)),
                    }
                },
            };
            buckets.push(entry);
            i += 1;
        }
        assert(buckets@ =~= Seq::new(slice.len(), |i: int| bucket(slice[i], slice)));
        buckets
    }
}

/// The smallest and the greatest of `xs`.
fn extremes(xs: &Vec<u128>) -> (r: Option<(u128, u128)>)
    requires
        forall|i: int| 0 <= i < xs@.len() ==> xs@[i] <= MAX_NANOS,
    ensures
        match r {
            None => xs@.len() == 0,
            Some((lo, hi)) => {
                &&& xs@.len() > 0
                &&& lo == least(nats(xs@))
                &&& hi == greatest(nats(xs@))
                &&& hi <= MAX_NANOS
            },
        },
{
    if xs.len() == 0 {
        return None;
    }
    let mut lo: u128 = xs[0];
    let mut hi: u128 = xs[0];
    let mut i: usize = 1;
    while i < xs.len()
        invariant
            1 <= i <= xs@.len(),
            forall|j: int| 0 <= j < xs@.len() ==> xs@[j] <= MAX_NANOS,
            lo == least(nats(xs@).take(i as int)),
            hi == greatest(nats(xs@).take(i as int)),
            hi <= MAX_NANOS,
        decreases xs@.len() - i,
    {
        assert(nats(xs@).take(i + 1).drop_last() =~= nats(xs@).take(i as int));
        if xs[i] < lo {
            lo = xs[i];
        }
        if xs[i] > hi {
            hi = xs[i];
        }
        i += 1;
    }
    assert(nats(xs@).take(i as int) =~= nats(xs@));
    Some((lo, hi))
}

/// The sparkline level of `v` on the scale from `lo` to `hi`.
fn level_of(v: u128, lo: u128, hi: u128) -> (l: u8)
    requires
        lo <= v <= hi <= MAX_NANOS,
    ensures
        l == level(v as nat, lo as nat, hi as nat),
        l <= 7,
{
    if lo == hi {
        return FLAT_LEVEL;
    }
    proof {
        lemma_level_range(v as nat, lo as nat, hi as nat);
    }
    ((14 * (v - lo) + (hi - lo)) / (2 * (hi - lo))) as u8
}

/// Levels lie between 0 and 7.
pub proof fn lemma_level_range(v: nat, lo: nat, hi: nat)
    requires
        lo <= v <= hi,
    ensures
        0 <= level(v, lo, hi) <= 7,
{
    if lo != hi {
        let num = 14 * (v - lo) + (hi - lo);
        let den = 2 * (hi - lo);
        assert(0 <= num / den <= 7) by (nonlinear_arith)
            requires
                den > 0,
                0 <= num,
                num <= 7 * den + den / 2,
        ;
    }
}

/// The RTT of each reply among `samples` is listed.
proof fn lemma_reply_listed(samples: Seq<Sample>, i: int)
    requires
        0 <= i < samples.len(),
        samples[i] is Reply,
    ensures
        exists|k: int|
            0 <= k < reply_nanos(samples).len() && reply_nanos(samples)[k] == samples[i]->0@,
    decreases samples.len(),
{
    let init = samples.drop_last();
    let all = reply_nanos(samples);
    if i == samples.len() - 1 {
        assert(all[all.len() - 1] == samples[i]->0@);
    } else {
        lemma_reply_listed(init, i);
        let k = choose|k: int|
            0 <= k < reply_nanos(init).len() && reply_nanos(init)[k] == init[i]->0@;
        assert(all[k] == samples[i]->0@);
    }
}

/// Each number lies between the smallest and the greatest.
proof fn lemma_extremes(xs: Seq<nat>, k: int)
    requires
        0 <= k < xs.len(),
    ensures
        least(xs) <= xs[k] <= greatest(xs),
    decreases xs.len(),
{
    if k < xs.len() - 1 {
        lemma_extremes(xs.drop_last(), k);
    } else if xs.len() > 1 {
        lemma_extremes(xs.drop_last(), 0);
    }
}

/// The statistics after the samples `history`, recorded in order over a window
/// of `window`.
pub open spec fn after(window: nat, history: Seq<Sample>) -> StatsView
    decreases history.len(),
{
    if history.len() == 0 {
        StatsView::empty(window)
    } else {
        after(window, history.drop_last()).recorded(history.last())
    }
}

/// Whatever is recorded, the statistics stay well formed.
pub proof fn law_recording_keeps_wf(stats: StatsView, sample: Sample)
    requires
        stats.wf(),
    ensures
        stats.recorded(sample).wf(),
{
}

/// The window holds exactly the most recent samples of the history, as many as
/// its size, in order: the oldest leaves first.
pub proof fn law_window_holds_most_recent(window: nat, history: Seq<Sample>)
    ensures
        after(window, history).wf(),
        after(window, history).window == StatsView::empty(window).window,
        after(window, history).samples == last_samples(
            history,
            StatsView::empty(window).window,
        ),
    decreases history.len(),
{
    if history.len() > 0 {
        let size = StatsView::empty(window).window;
        let init = history.drop_last();
        law_window_holds_most_recent(window, init);
        law_session_counters(window, history);
        assert(after(window, history).samples =~= last_samples(history, size));
    }
}

/// The session counters cover the whole history, whatever the window: every
/// ping counts as sent, every reply as received.
pub proof fn law_session_counters(window: nat, history: Seq<Sample>)
    ensures
        after(window, history).sent == history.len(),
        after(window, history).received == reply_nanos(history).len(),
        after(window, history).sent - after(window, history).received == timeouts(history),
    decreases history.len(),
{
    if history.len() > 0 {
        law_session_counters(window, history.drop_last());
    }
}

/// The session's minimum and maximum are those of all replies of the history,
/// whatever the window, and there are none before the first reply.
pub proof fn law_session_extremes(window: nat, history: Seq<Sample>)
    ensures
        match after(window, history).min_rtt {
            None => reply_nanos(history).len() == 0,
            Some(d) => reply_nanos(history).len() > 0 && d@ == least(reply_nanos(history)),
        },
        match after(window, history).max_rtt {
            None => reply_nanos(history).len() == 0,
            Some(d) => reply_nanos(history).len() > 0 && d@ == greatest(reply_nanos(history)),
        },
    decreases history.len(),
{
    if history.len() > 0 {
        let init = history.drop_last();
        law_session_extremes(window, init);
        if let Sample::Reply(d) = history.last() {
            assert(reply_nanos(history).drop_last() =~= reply_nanos(init));
        }
    }
}

/// The session's average is that of all replies of the history, whatever the
/// window, and there is none before the first reply.
pub proof fn law_session_average(window: nat, history: Seq<Sample>)
    ensures
        after(window, history).replies.count == reply_nanos(history).len(),
        after(window, history).replies.sum == total(reply_nanos(history)),
        after(window, history).session_avg() == (if reply_nanos(history).len() == 0 {
            None
        } else {
            Some(mean_floor(reply_nanos(history)))
        }),
    decreases history.len(),
{
    if history.len() > 0 {
        let init = history.drop_last();
        law_session_average(window, init);
        if let Sample::Reply(d) = history.last() {
            assert(reply_nanos(history).drop_last() =~= reply_nanos(init));
        }
    }
}

/// A reply is the latest one of the window as soon as it is recorded, and a
/// timeout after some samples leaves the latest reply among them as it is.
pub proof fn law_latest_reply(window: nat, history: Seq<Sample>, rtt: Duration, sample: Sample)
    ensures
        latest_reply(after(window, history.push(Sample::Reply(rtt))).samples) == Some(rtt@),
        latest_reply(history.push(sample)) == (match sample {
            Sample::Reply(d) => Some(d@),
            Sample::Timeout => latest_reply(history),
        }),
{
    let all = history.push(Sample::Reply(rtt));
    law_window_holds_most_recent(window, all);
    let kept = last_samples(all, StatsView::empty(window).window);
    assert(kept.last() == Sample::Reply(rtt));
    assert(history.push(sample).drop_last() =~= history);
}

/// Each sample is a reply or a timeout.
pub proof fn law_replies_and_timeouts(samples: Seq<Sample>)
    ensures
        reply_nanos(samples).len() + timeouts(samples) == samples.len(),
    decreases samples.len(),
{
    if samples.len() > 0 {
        law_replies_and_timeouts(samples.drop_last());
    }
}

/// The average and the jitter ignore timeouts.
pub proof fn law_timeouts_leave_replies(samples: Seq<Sample>)
    ensures
        reply_nanos(samples.push(Sample::Timeout)) == reply_nanos(samples),
{
    assert(samples.push(Sample::Timeout).drop_last() =~= samples);
}

/// The average lies between the smallest and the greatest RTT.
pub proof fn law_average_between_extremes(samples: Seq<Sample>)
    requires
        reply_nanos(samples).len() > 0,
    ensures
        least(reply_nanos(samples)) <= mean_floor(reply_nanos(samples)) <= greatest(
            reply_nanos(samples),
        ),
{
    let xs = reply_nanos(samples);
    assert forall|i: int| 0 <= i < xs.len() implies least(xs) <= #[trigger] xs[i] <= greatest(
        xs,
    ) by {
        lemma_extremes(xs, i);
    }
    law_mean_between(xs, least(xs), greatest(xs));
}

/// Where all replies took the same time, that time is the average and there is
/// no jitter.
pub proof fn law_no_jitter_for_constant_rtt(samples: Seq<Sample>, rtt: nat)
    requires
        reply_nanos(samples).len() > 0,
        forall|i: int| 0 <= i < reply_nanos(samples).len() ==> reply_nanos(samples)[i] == rtt,
    ensures
        mean_floor(reply_nanos(samples)) == rtt,
        mean_absolute_deviation(reply_nanos(samples)) == 0,
{
    law_equal_numbers(reply_nanos(samples), rtt);
}

/// On a scale with two ends, the fastest reply is at level 0, the slowest at
/// level 7, and a slower reply is never at a lower level than a faster one.
pub proof fn law_levels_follow_rtt(v: nat, w: nat, lo: nat, hi: nat)
    requires
        lo <= v <= w <= hi,
        lo < hi,
    ensures
        level(lo, lo, hi) == 0,
        level(hi, lo, hi) == 7,
        0 <= level(v, lo, hi) <= level(w, lo, hi) <= 7,
{
    let range = hi - lo;
    lemma_level_range(v, lo, hi);
    lemma_level_range(w, lo, hi);
    assert(range / (2 * range) == 0) by (nonlinear_arith)
        requires
            range > 0,
    ;
    assert((14 * range + range) / (2 * range) == 7) by (nonlinear_arith)
        requires
            range > 0,
    ;
    let a = 14 * (v - lo) + range;
    let b = 14 * (w - lo) + range;
    vstd::arithmetic::div_mod::lemma_div_is_ordered(a, b, 2 * range);
}

/// There is one sparkline entry for each of the last samples; it is empty
/// exactly for a timeout, and otherwise a level from 0 to 7.
pub proof fn law_sparkline_entries(samples: Seq<Sample>, count: nat, i: int)
    requires
        0 <= i < last_samples(samples, count).len(),
    ensures
        last_samples(samples, count).len() <= count,
        ({
            let slice = last_samples(samples, count);
            match bucket(slice[i], slice) {
                None => slice[i] is Timeout,
                Some(l) => slice[i] is Reply && l <= 7,
            }
        }),
{
    let slice = last_samples(samples, count);
    if let Sample::Reply(d) = slice[i] {
        let xs = reply_nanos(slice);
        lemma_reply_listed(slice, i);
        let k = choose|k: int| 0 <= k < xs.len() && xs[k] == d@;
        lemma_extremes(xs, k);
        lemma_level_range(d@, least(xs), greatest(xs));
    }
}

/// The window is as large as was asked for, and one sample large where none was
/// asked for: it holds as many of the most recent samples as that, and each is
/// as far from the end of the window as from the end of the history. As long as
/// the history is no longer than the window, all of it is there.
pub proof fn law_window_is_as_large_as_asked(window: nat, history: Seq<Sample>, i: int)
    ensures
        ({
            let kept = after(window, history).samples;
            &&& history.len() <= window ==> kept == history
            &&& 1 <= window <= history.len() ==> kept.len() == window
            &&& window == 0 && history.len() > 0 ==> kept.len() == 1
            &&& window == 0 && history.len() == 0 ==> kept.len() == 0
            &&& 0 <= i < kept.len() ==> kept[kept.len() - 1 - i] == history[history.len() - 1 - i]
        }),
{
    law_window_holds_most_recent(window, history);
}

/// The statistics that nothing was recorded in.
pub proof fn law_nothing_recorded_yet(window: nat)
    ensures
        ({
            let stats = StatsView::empty(window);
            &&& window >= 1 ==> stats.window == window
            &&& window == 0 ==> stats.window == 1
            &&& stats.samples.len() == 0
            &&& stats.sent == 0 && stats.received == 0
            &&& stats.min_rtt is None && stats.max_rtt is None
            &&& stats.session_avg() is None
            &&& stats.wf()
        }),
{
}

/// The replies and the timeouts of a history are those of its parts, in order: a
/// reply counts by its RTT, a timeout by itself.
pub proof fn law_samples_count_one_by_one(a: Seq<Sample>, b: Seq<Sample>, rtt: Duration)
    ensures
        reply_nanos(a + b) == reply_nanos(a) + reply_nanos(b),
        timeouts(a + b) == timeouts(a) + timeouts(b),
        reply_nanos(seq![Sample::Reply(rtt)]) == seq![rtt@],
        reply_nanos(seq![Sample::Timeout]).len() == 0,
        timeouts(seq![Sample::Reply(rtt)]) == 0,
        timeouts(seq![Sample::Timeout]) == 1,
        reply_nanos(seq![]).len() == 0,
        timeouts(seq![]) == 0,
    decreases b.len(),
{
    reveal_with_fuel(reply_nanos, 2);
    reveal_with_fuel(timeouts, 2);
    assert(seq![Sample::Reply(rtt)].drop_last() =~= seq![]);
    assert(seq![Sample::Timeout].drop_last() =~= seq![]);
    assert(reply_nanos(seq![Sample::Reply(rtt)]) =~= seq![rtt@]);
    if b.len() == 0 {
        assert(a + b =~= a);
        assert(reply_nanos(a) + reply_nanos(b) =~= reply_nanos(a));
    } else {
        law_samples_count_one_by_one(a, b.drop_last(), rtt);
        assert((a + b).drop_last() =~= a + b.drop_last());
        assert(reply_nanos(a + b) =~= reply_nanos(a) + reply_nanos(b));
    }
}

/// The latest reply is a reply with nothing but timeouts after it; there is none
/// exactly where all samples are timeouts.
pub proof fn law_latest_reply_is_the_last_one(samples: Seq<Sample>)
    ensures
        match latest_reply(samples) {
            None => forall|i: int| 0 <= i < samples.len() ==> (#[trigger] samples[i]) is Timeout,
            Some(rtt) => exists|i: int|
                {
                    &&& 0 <= i < samples.len()
                    &&& (#[trigger] samples[i]) matches Sample::Reply(d) && d@ == rtt
                    &&& forall|j: int|
                        i < j < samples.len() ==> (#[trigger] samples[j]) is Timeout
                },
        },
    decreases samples.len(),
{
    if samples.len() > 0 {
        let init = samples.drop_last();
        let n = samples.len() - 1;
        law_latest_reply_is_the_last_one(init);
        match samples[n] {
            Sample::Reply(d) => {
                assert(latest_reply(samples) == Some(d@));
            },
            Sample::Timeout => {
                assert(latest_reply(samples) == latest_reply(init));
                match latest_reply(init) {
                    None => {
                        assert forall|i: int| 0 <= i < samples.len() implies (#[trigger] samples[i])
                            is Timeout by {
                            if i < n {
                                assert(init[i] == samples[i]);
                            }
                        }
                    },
                    Some(rtt) => {
                        let i = choose|i: int|
                            {
                                &&& 0 <= i < init.len()
                                &&& (#[trigger] init[i]) matches Sample::Reply(d) && d@ == rtt
                                &&& forall|j: int|
                                    i < j < init.len() ==> (#[trigger] init[j]) is Timeout
                            };
                        assert(samples[i] == init[i]);
                        assert forall|j: int| i < j < samples.len() implies (#[trigger] samples[j])
                            is Timeout by {
                            if j < n {
                                assert(init[j] == samples[j]);
                            }
                        }
                    },
                }
            },
        }
    }
}

/// The last samples are as many as asked for, or all of them, and none is out of
/// its place from the end.
pub proof fn law_last_samples_come_from_the_end(samples: Seq<Sample>, count: nat, i: int)
    ensures
        ({
            let kept = last_samples(samples, count);
            &&& kept.len() <= count && kept.len() <= samples.len()
            &&& kept.len() == count || kept.len() == samples.len()
            &&& 0 <= i < kept.len() ==> kept[kept.len() - 1 - i] == samples[samples.len() - 1 - i]
        }),
{
}

/// The smallest and the greatest number are among the numbers, and no number
/// lies outside them.
pub proof fn law_extremes_are_reached(xs: Seq<nat>)
    requires
        xs.len() > 0,
    ensures
        exists|i: int| 0 <= i < xs.len() && #[trigger] xs[i] == least(xs),
        exists|i: int| 0 <= i < xs.len() && #[trigger] xs[i] == greatest(xs),
        forall|i: int| 0 <= i < xs.len() ==> least(xs) <= #[trigger] xs[i] <= greatest(xs),
    decreases xs.len(),
{
    assert forall|i: int| 0 <= i < xs.len() implies least(xs) <= #[trigger] xs[i] <= greatest(
        xs,
    ) by {
        lemma_extremes(xs, i);
    }
    let n = xs.len() - 1;
    if n == 0 {
        assert(xs[0] == least(xs) && xs[0] == greatest(xs));
    } else {
        let init = xs.drop_last();
        law_extremes_are_reached(init);
        let i = choose|i: int| 0 <= i < init.len() && #[trigger] init[i] == least(init);
        let j = choose|j: int| 0 <= j < init.len() && #[trigger] init[j] == greatest(init);
        assert(xs[i] == least(init) && xs[j] == greatest(init));
        assert(xs[n] == xs.last());
    }
}

/// A minimum that takes in one more RTT is one of the two and above neither, a
/// maximum one of the two and below neither; without an earlier one it is the
/// RTT.
pub proof fn law_extremes_take_in_one_more(earlier: Option<Duration>, rtt: Duration)
    ensures
        lower(earlier, rtt) matches Some(m) && m@ <= rtt@ && (m == rtt || earlier == Some(m)),
        higher(earlier, rtt) matches Some(m) && m@ >= rtt@ && (m == rtt || earlier == Some(m)),
        earlier matches Some(e) ==> lower(earlier, rtt)->0@ <= e@ <= higher(earlier, rtt)->0@,
{
}

/// A level is the nearest one of the eight on the scale, the higher one on a
/// tie. On a scale of one point it is 4.
pub proof fn law_level_is_nearest(v: nat, lo: nat, hi: nat)
    requires
        lo <= v <= hi,
    ensures
        lo == hi ==> level(v, lo, hi) == 4,
        lo < hi ==> 2 * (level(v, lo, hi) * (hi - lo)) <= 14 * (v - lo) + (hi - lo),
        lo < hi ==> 14 * (v - lo) + (hi - lo) < 2 * ((level(v, lo, hi) + 1) * (hi - lo)),
{
    if lo < hi {
        let range = hi - lo;
        let num = 14 * (v - lo) + range;
        let den = 2 * range;
        let l = level(v, lo, hi);
        vstd::arithmetic::div_mod::lemma_fundamental_div_mod(num, den);
        let rest = num % den;
        assert(0 <= rest < den) by (nonlinear_arith)
            requires
                den > 0,
                rest == num % den,
        ;
        assert(den * l == 2 * (l * range)) by (nonlinear_arith)
            requires
                den == 2 * range,
        ;
        assert((l + 1) * range == l * range + range) by (nonlinear_arith);
    }
}

/// Each RTT that is listed is that of a reply.
proof fn lemma_listed_is_reply(samples: Seq<Sample>, k: int)
    requires
        0 <= k < reply_nanos(samples).len(),
    ensures
        exists|i: int|
            0 <= i < samples.len() && ((#[trigger] samples[i]) matches Sample::Reply(d) && d@
                == reply_nanos(samples)[k]),
    decreases samples.len(),
{
    let init = samples.drop_last();
    let n = samples.len() - 1;
    if samples[n] is Reply && k == reply_nanos(samples).len() - 1 {
        assert(samples[n] matches Sample::Reply(d) && d@ == reply_nanos(samples)[k]);
    } else {
        lemma_listed_is_reply(init, k);
        let i = choose|i: int|
            0 <= i < init.len() && ((#[trigger] init[i]) matches Sample::Reply(d) && d@
                == reply_nanos(init)[k]);
        assert(samples[i] == init[i]);
    }
}

/// A sparkline entry is scaled to the fastest and the slowest reply of its own
/// slice: where all replies took the same time it is 4, and otherwise the
/// nearest of the eight levels from the fastest at 0 to the slowest at 7, the
/// higher one on a tie. A timeout has none.
pub proof fn law_sparkline_is_scaled_to_its_slice(
    slice: Seq<Sample>,
    i: int,
    rtt: Duration,
    fastest: int,
    lo: Duration,
    slowest: int,
    hi: Duration,
)
    requires
        0 <= i < slice.len() && 0 <= fastest < slice.len() && 0 <= slowest < slice.len(),
        slice[i] == Sample::Reply(rtt),
        slice[fastest] == Sample::Reply(lo),
        slice[slowest] == Sample::Reply(hi),
        forall|j: int|
            0 <= j < slice.len() ==> ((#[trigger] slice[j]) matches Sample::Reply(d) ==> lo@ <= d@
                <= hi@),
    ensures
        bucket(Sample::Timeout, slice) is None,
        bucket(slice[i], slice) matches Some(l) && {
            &&& l <= 7
            &&& lo@ == hi@ ==> l == 4
            &&& lo@ < hi@ ==> 2 * (l * (hi@ - lo@)) <= 14 * (rtt@ - lo@) + (hi@ - lo@) < 2 * ((l
                + 1) * (hi@ - lo@))
        },
{
    let xs = reply_nanos(slice);
    lemma_reply_listed(slice, i);
    lemma_reply_listed(slice, fastest);
    lemma_reply_listed(slice, slowest);
    let p = choose|p: int| 0 <= p < xs.len() && xs[p] == lo@;
    let q = choose|q: int| 0 <= q < xs.len() && xs[q] == hi@;
    law_extremes_are_reached(xs);
    let a = choose|a: int| 0 <= a < xs.len() && #[trigger] xs[a] == least(xs);
    let b = choose|b: int| 0 <= b < xs.len() && #[trigger] xs[b] == greatest(xs);
    lemma_listed_is_reply(slice, a);
    lemma_listed_is_reply(slice, b);
    assert(xs[p] >= least(xs) && xs[q] <= greatest(xs));
    assert(least(xs) == lo@ && greatest(xs) == hi@);
    assert(lo@ <= rtt@ <= hi@);
    lemma_level_range(rtt@, lo@, hi@);
    law_level_is_nearest(rtt@, lo@, hi@);
}

/// The loss in percent is the nearest whole percent, and in tenths the nearest
/// tenth; a loss is at least some percent exactly where that share of the pings
/// is no more than were lost. Nothing lost out of nothing is no loss.
pub proof fn law_loss_is_a_share(loss: Loss, p: nat)
    ensures
        loss.total == 0 ==> loss.percent() == 0 && loss.tenths() == 0,
        loss.total == 0 ==> (loss.reaches(p) <==> p == 0),
        loss.total > 0 ==> {
            &&& loss.reaches(p) <==> p * loss.total <= 100 * loss.lost
            &&& 2 * (loss.percent() * loss.total) <= 200 * loss.lost + loss.total
            &&& 200 * loss.lost <= 2 * (loss.percent() * loss.total) + loss.total
            &&& 2 * (loss.tenths() * loss.total) <= 2000 * loss.lost + loss.total
            &&& 2000 * loss.lost <= 2 * (loss.tenths() * loss.total) + loss.total
        },
        loss.within(p) <==> 1_000_000 * loss.lost <= p * loss.total,
{
    if loss.total > 0 {
        law_half_even_is_nearest((loss.lost * 100) as nat, loss.total as nat);
        law_half_even_is_nearest((loss.lost * 1000) as nat, loss.total as nat);
    }
}

/// A greater share of lost pings is never shown as a smaller loss, and the
/// share alone counts: losing all is 100 percent, losing none is 0.
pub proof fn law_loss_follows_the_share(a: Loss, b: Loss, p: nat)
    requires
        a.total > 0,
        b.total > 0,
        a.lost * b.total <= b.lost * a.total,
    ensures
        a.reaches(p) ==> b.reaches(p),
        a.lost == a.total ==> a.percent() == 100 && a.tenths() == 1000 && a.reaches(100),
        a.lost == 0 ==> a.percent() == 0 && a.tenths() == 0 && !a.reaches(1),
{
    let (x, s, y, t) = (a.lost as int, a.total as int, b.lost as int, b.total as int);
    if a.reaches(p) {
        assert(p * t <= y * 100) by (nonlinear_arith)
            requires
                p * s <= x * 100,
                x * t <= y * s,
                s > 0,
                t > 0,
                p >= 0,
        ;
    }
    if x == s {
        assert((100 * s) / s == 100 && (100 * s) % s == 0) by (nonlinear_arith)
            requires
                s > 0,
        ;
        assert((1000 * s) / s == 1000 && (1000 * s) % s == 0) by (nonlinear_arith)
            requires
                s > 0,
        ;
    }
    if x == 0 {
        assert(0int / s == 0 && 0int % s == 0) by (nonlinear_arith)
            requires
                s > 0,
        ;
    }
}

/// What statistics over a window of `window` samples tell of a history, whatever
/// it is: the loss of the window counts the timeouts among its last `window`
/// samples, the loss of the session those of the whole history. The average of
/// the window and that of the session are those of their replies, rounded down,
/// and are there exactly where there is a reply; the latest RTT is that of the
/// last reply in the window.
pub proof fn law_results_tell_history(
    window: nat,
    history: Seq<Sample>,
    recent: Seq<Sample>,
    s: Stats,
    loss: Loss,
    lifetime: Loss,
    avg: Option<Duration>,
    session_avg: Option<Duration>,
    latest: Option<Duration>,
)
    requires
        s@ == after(window, history),
        window >= 1,
        history.len() <= window ==> recent == history,
        history.len() > window ==> recent == history.skip(history.len() - window),
        call_ensures(Stats::loss_pct, (&s,), loss),
        call_ensures(Stats::lifetime_loss_pct, (&s,), lifetime),
        call_ensures(Stats::avg_rtt, (&s,), avg),
        call_ensures(Stats::session_avg_rtt, (&s,), session_avg),
        call_ensures(Stats::latest_rtt, (&s,), latest),
    ensures
        loss.lost == timeouts(recent) && loss.total == recent.len(),
        lifetime.lost == timeouts(history) && lifetime.total == history.len(),
        ({
            let xs = reply_nanos(recent);
            &&& avg is Some <==> xs.len() > 0
            &&& avg matches Some(d) ==> d@ * xs.len() <= total(xs) < (d@ + 1) * xs.len()
            &&& latest is Some <==> xs.len() > 0
            &&& latest matches Some(d) ==> d@ == xs[xs.len() - 1]
        }),
        ({
            let xs = reply_nanos(history);
            &&& session_avg is Some <==> xs.len() > 0
            &&& session_avg matches Some(d) ==> d@ * xs.len() <= total(xs) < (d@ + 1) * xs.len()
        }),
{
    law_window_is_as_large_as_asked(window, history, 0);
    law_window_holds_most_recent(window, history);
    assert(s@.samples =~= recent);
    law_session_counters(window, history);
    law_session_average(window, history);
    if reply_nanos(recent).len() > 0 {
        law_mean_divides_the_sum(reply_nanos(recent));
    }
    if reply_nanos(history).len() > 0 {
        law_mean_divides_the_sum(reply_nanos(history));
    }
}

/// The jitter of a window is the mean distance of its replies from their mean,
/// to the nearest nanosecond: all of it multiplied by the square of their count,
/// it is off by at most half of that square. The sparkline has one entry for
/// each of the last samples, empty exactly for a timeout.
pub proof fn law_jitter_and_sparkline_tell_window(
    s: Stats,
    jitter: Option<Duration>,
    count: usize,
    entries: Vec<Option<u8>>,
    i: int,
)
    requires
        call_ensures(Stats::jitter, (&s,), jitter),
        call_ensures(Stats::sparkline_buckets, (&s, count), entries),
    ensures
        ({
            let xs = reply_nanos(s@.samples);
            let n = xs.len();
            let distances = total_distance(xs, n, total(xs));
            &&& jitter is Some <==> n > 0
            &&& jitter matches Some(d) ==> {
                &&& 2 * (d@ * (n * n)) <= 2 * distances + n * n
                &&& 2 * distances <= 2 * (d@ * (n * n)) + n * n
            }
        }),
        entries@.len() <= count && entries@.len() <= s@.samples.len(),
        entries@.len() == count || entries@.len() == s@.samples.len(),
        0 <= i < entries@.len() ==> (entries@[i] is None <==> s@.samples[s@.samples.len()
            - entries@.len() + i] is Timeout),
        0 <= i < entries@.len() ==> (entries@[i] matches Some(l) ==> l <= 7),
{
    let xs = reply_nanos(s@.samples);
    if xs.len() > 0 {
        law_deviation_is_mean_distance(xs);
    }
    if 0 <= i < entries@.len() {
        law_sparkline_entries(s@.samples, count as nat, i);
    }
}

/// Statistics over a window of `window` samples that take in one more sample
/// tell of the history with that sample: the window keeps the last `window` of
/// it, and the counters count all of it.
pub proof fn law_recording_extends_history(
    s: &mut Stats,
    window: nat,
    history: Seq<Sample>,
    sample: Sample,
    r: (),
)
    requires
        window >= 1,
        old(s)@ == after(window, history),
        call_ensures(Stats::record, (s, sample), r),
    ensures
        ({
            let all = history.push(sample);
            let kept = final(s)@.samples;
            &&& final(s)@ == after(window, all)
            &&& all.len() <= window ==> kept == all
            &&& all.len() > window ==> kept == all.skip(all.len() - window)
            &&& final(s)@.sent == all.len()
            &&& final(s)@.received == reply_nanos(all).len()
        }),
{
    let all = history.push(sample);
    assert(all.drop_last() =~= history);
    law_window_holds_most_recent(window, all);
    law_session_counters(window, all);
}

/// New statistics hold nothing and keep as many samples as asked for, one where
/// none was asked for.
pub proof fn law_new_statistics(window: usize, s: Stats)
    requires
        call_ensures(Stats::new, (window,), s),
    ensures
        s@ == after(window as nat, seq![]),
        window >= 1 ==> s@.window == window,
        window == 0 ==> s@.window == 1,
        s@.samples.len() == 0 && s@.sent == 0 && s@.received == 0,
{
}

/// What a loss is shown as and compared to: the nearest whole percent and the
/// nearest tenth, and whether it reaches a percentage or stays within an
/// allowance.
pub proof fn law_loss_figures(loss: Loss, p: u64, at_least: bool, within: bool, pct: u128, tenths: u128)
    requires
        loss.total > 0,
        call_ensures(Loss::is_at_least, (&loss, p), at_least),
        call_ensures(Loss::is_within, (&loss, p), within),
        call_ensures(Loss::to_percent, (&loss,), pct),
        call_ensures(Loss::to_tenths, (&loss,), tenths),
    ensures
        at_least <==> 100 * loss.lost >= p * loss.total,
        within <==> 1_000_000 * loss.lost <= p * loss.total,
        2 * (pct * loss.total) <= 200 * loss.lost + loss.total,
        200 * loss.lost <= 2 * (pct * loss.total) + loss.total,
        2 * (tenths * loss.total) <= 2000 * loss.lost + loss.total,
        2000 * loss.lost <= 2 * (tenths * loss.total) + loss.total,
{
    law_loss_is_a_share(loss, p as nat);
}

} // verus!
