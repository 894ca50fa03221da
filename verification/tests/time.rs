use ekg::text::decimal_string;
use ekg::time::{Duration, SystemTime};

#[test]
fn spans_convert_between_units() {
    let d = Duration::new(3, 7_654_321);
    assert_eq!(d.as_secs(), 3);
    assert_eq!(d.subsec_nanos(), 7_654_321);
    assert_eq!(d.as_millis(), 3007);
    assert_eq!(d.as_nanos(), 3_007_654_321);
    assert_eq!(Duration::from_secs(3), Duration::from_millis(3000));
    assert_eq!(Duration::from_millis(1), Duration::from_nanos(1_000_000));
    assert_eq!(Duration::from_secs(u64::MAX).as_secs(), u64::MAX);
}

#[test]
fn differences_stop_at_zero() {
    let a = Duration::from_secs(5);
    let b = Duration::from_secs(2);
    assert_eq!(a.saturating_sub(b), Duration::from_secs(3));
    assert_eq!(b.saturating_sub(a), Duration::from_secs(0));
}

#[test]
fn points_in_time_move_by_spans() {
    let t = SystemTime::before_epoch(Duration::from_secs(2));
    assert_eq!(t.nanos_since_epoch(), 0);
    let u = t.plus(Duration::from_secs(5));
    assert_eq!(u, SystemTime::after_epoch(Duration::from_secs(3)));
    assert_eq!(u.nanos_since_epoch(), 3_000_000_000);
}

#[test]
fn decimals_read_back() {
    for n in [0u128, 9, 10, 99, 100, 1_690_300_003_123, u128::MAX] {
        assert_eq!(decimal_string(n), n.to_string());
        assert_eq!(decimal_string(n).parse::<u128>().unwrap(), n);
    }
}
