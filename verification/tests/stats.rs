use ekg::stats::{Loss, Sample, Stats};
use ekg::time::Duration;

fn ms(n: u64) -> Duration {
    Duration::from_millis(n)
}

fn ns(n: u128) -> Duration {
    Duration::from_nanos(n)
}

fn secs_f64(d: Duration) -> f64 {
    std::time::Duration::new(d.as_secs(), d.subsec_nanos()).as_secs_f64()
}

fn pct(loss: Loss) -> f64 {
    if loss.total == 0 {
        return 0.0;
    }
    (loss.lost as f64 / loss.total as f64) * 100.0
}

#[test]
fn avg_of_replies_only() {
    let mut s = Stats::new(10);
    s.record(Sample::Reply(ms(10)));
    s.record(Sample::Reply(ms(20)));
    s.record(Sample::Timeout);
    // avg should ignore the timeout
    let avg = s.avg_rtt().unwrap();
    assert_eq!(avg, ms(15));
}

#[test]
fn avg_none_when_all_timeouts() {
    let mut s = Stats::new(5);
    s.record(Sample::Timeout);
    s.record(Sample::Timeout);
    assert!(s.avg_rtt().is_none());
}

#[test]
fn jitter_zero_for_constant_rtt() {
    let mut s = Stats::new(5);
    for _ in 0..5 {
        s.record(Sample::Reply(ms(20)));
    }
    assert_eq!(s.jitter().unwrap(), Duration::from_secs(0));
}

#[test]
fn jitter_mean_abs_deviation() {
    // Samples: 10, 20, 30 ms -> mean 20ms, MAD = (10+0+10)/3 = 6.666...ms
    let mut s = Stats::new(5);
    s.record(Sample::Reply(ms(10)));
    s.record(Sample::Reply(ms(20)));
    s.record(Sample::Reply(ms(30)));
    let jitter = s.jitter().unwrap();
    let expected_ms = 6.666_666_666_666_667;
    assert!((secs_f64(jitter) * 1000.0 - expected_ms).abs() < 0.001);
}

#[test]
fn loss_pct_basic() {
    let mut s = Stats::new(4);
    s.record(Sample::Reply(ms(10)));
    s.record(Sample::Timeout);
    s.record(Sample::Reply(ms(10)));
    s.record(Sample::Timeout);
    assert_eq!(pct(s.loss_pct()), 50.0);
}

#[test]
fn loss_pct_zero_when_empty() {
    let s = Stats::new(4);
    assert_eq!(pct(s.loss_pct()), 0.0);
}

#[test]
fn ring_buffer_evicts_oldest() {
    let mut s = Stats::new(2);
    s.record(Sample::Reply(ms(10)));
    s.record(Sample::Reply(ms(20)));
    s.record(Sample::Reply(ms(30)));
    // window size 2: only 20ms and 30ms should remain -> avg 25ms
    assert_eq!(s.avg_rtt().unwrap(), ms(25));
}

#[test]
fn lifetime_counters_independent_of_window() {
    let mut s = Stats::new(1);
    s.record(Sample::Reply(ms(10)));
    s.record(Sample::Timeout);
    s.record(Sample::Reply(ms(10)));
    assert_eq!(s.sent, 3);
    assert_eq!(s.received, 2);
    assert!((pct(s.lifetime_loss_pct()) - 33.333_333_333_333_336).abs() < 0.0001);
}

#[test]
fn sparkline_all_timeouts_are_none() {
    let mut s = Stats::new(5);
    s.record(Sample::Timeout);
    s.record(Sample::Timeout);
    let buckets = s.sparkline_buckets(5);
    assert_eq!(buckets, vec![None, None]);
}

#[test]
fn sparkline_single_sample_mid_level() {
    let mut s = Stats::new(5);
    s.record(Sample::Reply(ms(15)));
    let buckets = s.sparkline_buckets(5);
    assert_eq!(buckets, vec![Some(4)]);
}

#[test]
fn sparkline_scales_to_min_max() {
    let mut s = Stats::new(5);
    s.record(Sample::Reply(ms(0)));
    s.record(Sample::Reply(ms(100)));
    let buckets = s.sparkline_buckets(5);
    assert_eq!(buckets, vec![Some(0), Some(7)]);
}

#[test]
fn sparkline_respects_count_window() {
    let mut s = Stats::new(10);
    for i in 0..10 {
        s.record(Sample::Reply(ms(i)));
    }
    let buckets = s.sparkline_buckets(3);
    assert_eq!(buckets.len(), 3);
}

#[test]
fn min_max_track_replies_only() {
    let mut s = Stats::new(5);
    s.record(Sample::Reply(ms(50)));
    s.record(Sample::Timeout);
    s.record(Sample::Reply(ms(5)));
    s.record(Sample::Reply(ms(200)));
    assert_eq!(s.min_rtt.unwrap(), ms(5));
    assert_eq!(s.max_rtt.unwrap(), ms(200));
}

#[test]
fn window_of_zero_keeps_one_sample() {
    let mut s = Stats::new(0);
    s.record(Sample::Reply(ms(10)));
    s.record(Sample::Reply(ms(20)));
    assert_eq!(s.avg_rtt(), Some(ms(20)));
    assert_eq!(s.loss_pct(), Loss { lost: 0, total: 1 });
}

#[test]
fn largest_window_is_accepted() {
    let mut s = Stats::new(usize::MAX);
    s.record(Sample::Reply(ms(10)));
    assert_eq!(s.avg_rtt(), Some(ms(10)));
}

#[test]
fn nothing_recorded_yet() {
    let s = Stats::new(3);
    assert_eq!(s.avg_rtt(), None);
    assert_eq!(s.jitter(), None);
    assert_eq!(s.min_rtt, None);
    assert_eq!(s.max_rtt, None);
    assert_eq!(s.sparkline_buckets(5), vec![]);
    assert_eq!(s.lifetime_loss_pct(), Loss { lost: 0, total: 0 });
}

#[test]
fn average_drops_fractions_of_a_nanosecond() {
    let mut s = Stats::new(3);
    s.record(Sample::Reply(ns(1)));
    s.record(Sample::Reply(ns(1)));
    s.record(Sample::Reply(ns(3)));
    assert_eq!(s.avg_rtt(), Some(ns(1)));
}

#[test]
fn average_of_longest_spans_is_that_span() {
    let longest = Duration::new(u64::MAX, 999_999_999);
    let mut s = Stats::new(3);
    for _ in 0..3 {
        s.record(Sample::Reply(longest));
    }
    assert_eq!(s.avg_rtt(), Some(longest));
    assert_eq!(s.jitter(), Some(ns(0)));
}

#[test]
fn average_lies_between_extremes() {
    let mut s = Stats::new(4);
    for n in [7, 3, 90, 41] {
        s.record(Sample::Reply(ms(n)));
    }
    let avg = s.avg_rtt().unwrap().as_nanos();
    assert!(s.min_rtt.unwrap().as_nanos() <= avg);
    assert!(avg <= s.max_rtt.unwrap().as_nanos());
}

#[test]
fn jitter_rounds_to_nearest_nanosecond() {
    // 10, 20, 30 ms: the deviation is 6666666.67 ns.
    let mut s = Stats::new(3);
    for n in [10, 20, 30] {
        s.record(Sample::Reply(ms(n)));
    }
    assert_eq!(s.jitter(), Some(ns(6_666_667)));

    // 1 and 2 ns deviate by 0.5 ns: a tie, and 0 is even.
    let mut s = Stats::new(2);
    s.record(Sample::Reply(ns(1)));
    s.record(Sample::Reply(ns(2)));
    assert_eq!(s.jitter(), Some(ns(0)));

    // 1 and 4 ns deviate by 1.5 ns: a tie, and 2 is even.
    let mut s = Stats::new(2);
    s.record(Sample::Reply(ns(1)));
    s.record(Sample::Reply(ns(4)));
    assert_eq!(s.jitter(), Some(ns(2)));
}

#[test]
fn jitter_agrees_with_its_definition() {
    // The same numbers, by sums of scaled distances.
    let mut seed: u64 = 12345;
    for n in 1..40u64 {
        let mut s = Stats::new(n as usize);
        let mut xs: Vec<i128> = Vec::new();
        for _ in 0..n {
            seed = seed.wrapping_mul(6364136223846793005).wrapping_add(1442695040888963407);
            let x = (seed >> 33) as i128;
            xs.push(x);
            s.record(Sample::Reply(ns(x as u128)));
        }
        let count = xs.len() as i128;
        let sum: i128 = xs.iter().sum();
        let scaled: i128 = xs.iter().map(|x| (count * x - sum).abs()).sum();
        let (quotient, rest) = (scaled / (count * count), scaled % (count * count));
        let up = 2 * rest > count * count || (2 * rest == count * count && quotient % 2 == 1);
        let expected = quotient + if up { 1 } else { 0 };
        assert_eq!(s.jitter().unwrap().as_nanos(), expected as u128);
        assert_eq!(s.avg_rtt().unwrap().as_nanos(), (sum / count) as u128);
    }
}

#[test]
fn jitter_is_close_to_binary_floating_point() {
    let mut s = Stats::new(60);
    let mut xs: Vec<f64> = Vec::new();
    let mut seed: u64 = 99;
    for _ in 0..60 {
        seed = seed.wrapping_mul(6364136223846793005).wrapping_add(1442695040888963407);
        let d = ns((seed >> 34) as u128);
        xs.push(secs_f64(d));
        s.record(Sample::Reply(d));
    }
    let mean = xs.iter().sum::<f64>() / xs.len() as f64;
    let mad = xs.iter().map(|r| (r - mean).abs()).sum::<f64>() / xs.len() as f64;
    assert!((secs_f64(s.jitter().unwrap()) - mad).abs() < 2e-9);
}

#[test]
fn sparkline_rounds_ties_up() {
    // 1 of 14 steps is half a level.
    let mut s = Stats::new(3);
    s.record(Sample::Reply(ms(0)));
    s.record(Sample::Reply(ms(1)));
    s.record(Sample::Reply(ms(14)));
    assert_eq!(s.sparkline_buckets(3), vec![Some(0), Some(1), Some(7)]);
}

#[test]
fn sparkline_scale_is_that_of_the_slice() {
    let mut s = Stats::new(5);
    s.record(Sample::Reply(ms(1000)));
    s.record(Sample::Reply(ms(10)));
    s.record(Sample::Timeout);
    s.record(Sample::Reply(ms(20)));
    s.record(Sample::Reply(ms(13)));
    assert_eq!(
        s.sparkline_buckets(4),
        vec![Some(0), None, Some(7), Some(2)]
    );
    assert_eq!(s.sparkline_buckets(0), vec![]);
    assert_eq!(s.sparkline_buckets(100).len(), 5);
}

#[test]
fn sparkline_levels_follow_rtt() {
    let mut s = Stats::new(50);
    for i in 0..50 {
        s.record(Sample::Reply(ns(1_000 + 137 * i)));
    }
    let levels: Vec<u8> = s.sparkline_buckets(50).into_iter().map(|l| l.unwrap()).collect();
    assert_eq!(levels[0], 0);
    assert_eq!(levels[49], 7);
    for i in 1..50 {
        assert!(levels[i - 1] <= levels[i]);
    }
}

#[test]
fn window_counts_replies_and_timeouts() {
    let mut s = Stats::new(3);
    for i in 0..10 {
        if i % 3 == 0 {
            s.record(Sample::Timeout);
        } else {
            s.record(Sample::Reply(ms(i)));
        }
    }
    // The window holds the samples 7, 8 and 9.
    assert_eq!(s.loss_pct(), Loss { lost: 1, total: 3 });
    assert_eq!(s.sent, 10);
    assert_eq!(s.received, 6);
    assert_eq!(s.lifetime_loss_pct(), Loss { lost: 4, total: 10 });
}

#[test]
fn loss_thresholds() {
    let loss = Loss { lost: 1, total: 5 };
    assert!(loss.is_at_least(20));
    assert!(!loss.is_at_least(21));
    let none = Loss { lost: 0, total: 0 };
    assert!(none.is_at_least(0));
    assert!(!none.is_at_least(1));
    assert!(Loss { lost: 1, total: 100 }.is_at_least(1));
    assert!(!Loss { lost: 1, total: 101 }.is_at_least(1));
}

#[test]
fn loss_rounds_to_the_nearest_percent() {
    assert_eq!(Loss { lost: 1, total: 3 }.to_percent(), 33);
    assert_eq!(Loss { lost: 2, total: 3 }.to_percent(), 67);
    assert_eq!(Loss { lost: 1, total: 8 }.to_percent(), 12);
    assert_eq!(Loss { lost: 3, total: 8 }.to_percent(), 38);
    assert_eq!(Loss { lost: 0, total: 0 }.to_percent(), 0);
    assert_eq!(Loss { lost: 5, total: 5 }.to_percent(), 100);
    assert_eq!(Loss { lost: 1, total: 3 }.to_tenths(), 333);
    assert_eq!(Loss { lost: u64::MAX, total: u64::MAX }.to_tenths(), 1000);
}

#[test]
fn loss_within_an_allowance() {
    assert!(Loss { lost: 5, total: 100 }.is_within(50_000));
    assert!(!Loss { lost: 6, total: 100 }.is_within(50_000));
    assert!(Loss { lost: 0, total: 100 }.is_within(0));
    assert!(!Loss { lost: 1, total: u64::MAX }.is_within(0));
    assert!(Loss { lost: 0, total: 0 }.is_within(0));
    assert!(Loss { lost: 7, total: 7 }.is_within(1_000_000));
}

#[test]
fn latest_reply_skips_timeouts() {
    let mut s = Stats::new(3);
    assert_eq!(s.latest_rtt(), None);
    s.record(Sample::Reply(ms(30)));
    s.record(Sample::Reply(ms(10)));
    assert_eq!(s.latest_rtt(), Some(ms(10)));
    s.record(Sample::Timeout);
    s.record(Sample::Timeout);
    assert_eq!(s.latest_rtt(), Some(ms(10)));
    s.record(Sample::Timeout);
    assert_eq!(s.latest_rtt(), None);
}

#[test]
fn session_average_is_independent_of_window() {
    let mut s = Stats::new(1);
    assert_eq!(s.session_avg_rtt(), None);
    let mut sum: u128 = 0;
    let mut count: u128 = 0;
    let mut x: u128 = 7;
    for i in 0..1000u128 {
        x = (x * 6_364_136_223_846_793_005 + 1_442_695_040_888_963_407) % (1 << 64);
        let rtt = x % (1 + i * i * 1_000_003);
        s.record(Sample::Reply(ns(rtt)));
        s.record(Sample::Timeout);
        sum += rtt;
        count += 1;
        assert_eq!(s.session_avg_rtt(), Some(ns(sum / count)));
    }
    assert_eq!(s.avg_rtt(), None);
}

#[test]
fn session_average_of_longest_spans_is_that_span() {
    let mut s = Stats::new(1);
    let longest = Duration::new(u64::MAX, 999_999_999);
    for _ in 0..5 {
        s.record(Sample::Reply(longest));
        assert_eq!(s.session_avg_rtt(), Some(longest));
    }
    s.record(Sample::Reply(ns(0)));
    assert_eq!(
        s.session_avg_rtt(),
        Some(ns(longest.as_nanos() * 5 / 6))
    );
}

#[test]
fn session_numbers_are_told() {
    let mut s = Stats::new(1);
    s.record(Sample::Reply(ms(8)));
    s.record(Sample::Reply(ms(3)));
    s.record(Sample::Timeout);
    assert_eq!(s.sent(), 3);
    assert_eq!(s.received(), 2);
    assert_eq!(s.min_rtt(), Some(ms(3)));
    assert_eq!(s.max_rtt(), Some(ms(8)));
    assert_eq!(s.sent(), s.sent);
}
