use ekg::pinger::{count_reached, icmp_kind, socket_error_message, IcmpKind, PingEvent, PingLoop};
use ekg::stats::Sample;
use ekg::time::Duration;

#[test]
fn count_reached_none_is_unbounded() {
    assert!(!count_reached(0, None));
    assert!(!count_reached(1_000_000, None));
}

#[test]
fn count_reached_bounds_at_exact_count() {
    assert!(!count_reached(2, Some(3)));
    assert!(count_reached(3, Some(3)));
    assert!(count_reached(4, Some(3)));
}

#[test]
fn count_reached_zero_bound_is_immediate() {
    // --count 0 is short-circuited in main before any pinger is
    // spawned, but the predicate itself should still be correct for
    // it: sent=0 already meets a bound of 0.
    assert!(count_reached(0, Some(0)));
}

#[test]
fn events_become_samples() {
    let d = Duration::from_millis(7);
    assert_eq!(Sample::from(PingEvent::Reply(d)), Sample::Reply(d));
    assert_eq!(Sample::from(PingEvent::Timeout), Sample::Timeout);
}

#[test]
fn bounded_loop_idles_after_its_last_ping() {
    let mut l = PingLoop::new(Some(2));
    assert_eq!(l.next_seq(), Some(0));
    let d = Duration::from_millis(3);
    assert_eq!(l.answered(Some(d)), PingEvent::Reply(d));
    assert_eq!(l.next_seq(), Some(1));
    assert_eq!(l.answered(None), PingEvent::Timeout);
    assert_eq!(l.next_seq(), None);
    assert_eq!(PingLoop::new(Some(0)).next_seq(), None);
}

#[test]
fn sequence_numbers_wrap_around() {
    let mut l = PingLoop::new(None);
    for i in 0..65_537u32 {
        assert_eq!(l.next_seq(), Some(i as u16));
        l.answered(None);
    }
    assert_eq!(l.next_seq(), Some(1));
}

#[test]
fn family_follows_the_address() {
    assert_eq!(icmp_kind(true), IcmpKind::V6);
    assert_eq!(icmp_kind(false), IcmpKind::V4);
}

#[test]
fn socket_error_tells_what_to_do() {
    let msg = socket_error_message("Permission denied (os error 13)");
    let e = "Permission denied (os error 13)";
    assert_eq!(
        msg,
        format!(
            "could not open an unprivileged ICMP socket ({e}).\n\
             \n\
             This usually means the OS is blocking unprivileged (SOCK_DGRAM) ICMP:\n\
             - Linux: check `sysctl net.ipv4.ping_group_range` — the running user's\n\
             group must fall inside that range (e.g. `sudo sysctl -w \\\n\
             net.ipv4.ping_group_range=\"0 2147483647\"` to allow all groups).\n\
             - macOS: unprivileged ICMP is normally enabled by default; if this\n\
             still fails, check for a restrictive sandbox/profile blocking raw/\n\
             datagram ICMP sockets for this process.\n\
             ekg does not fall back to a privileged (raw/sudo) socket."
        )
    );
}
