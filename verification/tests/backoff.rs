use pgqueue::backoff::backoff_delay;
use pgqueue::Duration;

#[test]
fn zero_attempt_is_zero_delay() {
    assert_eq!(
        backoff_delay(0, Duration::from_secs(1), Duration::from_secs(300)),
        Duration::zero()
    );
}

#[test]
fn doubles_each_attempt_until_cap() {
    let base = Duration::from_secs(1);
    let cap = Duration::from_secs(300);
    assert_eq!(backoff_delay(1, base, cap), Duration::from_secs(1));
    assert_eq!(backoff_delay(2, base, cap), Duration::from_secs(2));
    assert_eq!(backoff_delay(3, base, cap), Duration::from_secs(4));
    assert_eq!(backoff_delay(4, base, cap), Duration::from_secs(8));
}

#[test]
fn caps_instead_of_overflowing() {
    let base = Duration::from_secs(1);
    let cap = Duration::from_secs(300);
    assert_eq!(backoff_delay(20, base, cap), cap);
    // Also must not panic on attempt counts large enough to overflow a
    // naive 2^attempt without the shift-saturation guard.
    assert_eq!(backoff_delay(1_000_000, base, cap), cap);
}

#[test]
fn is_deterministic() {
    let a = backoff_delay(5, Duration::from_millis(100), Duration::from_secs(60));
    let b = backoff_delay(5, Duration::from_millis(100), Duration::from_secs(60));
    assert_eq!(a, b);
}

#[test]
fn delay_goes_on_doubling_until_the_cap() {
    let base = Duration::from_millis(1);
    let cap = Duration::from_millis(10_000_000_000);
    assert_eq!(backoff_delay(31, base, cap), Duration::from_millis(1 << 30));
    assert_eq!(backoff_delay(32, base, cap), Duration::from_millis(1 << 31));
    assert_eq!(backoff_delay(33, base, cap), Duration::from_millis(4_294_967_296));
    assert_eq!(backoff_delay(34, base, cap), Duration::from_millis(8_589_934_592));
    assert_eq!(backoff_delay(35, base, cap), cap);
    assert_eq!(backoff_delay(u32::MAX, base, cap), cap);
}

#[test]
fn the_longest_spans_do_not_overflow() {
    let base = Duration::from_secs(u64::MAX / 2);
    let cap = Duration::new(u64::MAX, 999_999_999).unwrap();
    assert_eq!(backoff_delay(2, base, cap), Duration::from_secs(u64::MAX - 1));
    assert_eq!(backoff_delay(3, base, cap), cap);
    assert_eq!(backoff_delay(u32::MAX, cap, cap), cap);
}

#[test]
fn a_cap_of_two_to_the_sixty_fourth_milliseconds_is_no_zero() {
    let cap = Duration::new(18_446_744_073_709_551, 616_000_000).unwrap();
    assert_eq!(backoff_delay(1, Duration::from_secs(1), cap), Duration::from_secs(1));
}

#[test]
fn no_fraction_of_a_second_is_lost() {
    assert_eq!(
        backoff_delay(1, Duration::from_micros(1_500), Duration::from_secs(1)),
        Duration::from_micros(1_500)
    );
    let base = Duration::new(1, 2_999_999).unwrap();
    let cap = Duration::new(2, 500_999_999).unwrap();
    assert_eq!(backoff_delay(1, base, cap), base);
    assert_eq!(backoff_delay(2, base, cap), Duration::new(2, 5_999_998).unwrap());
    assert_eq!(backoff_delay(9, base, cap), cap);
    let nano = Duration::new(0, 1).unwrap();
    assert_eq!(backoff_delay(31, nano, cap), Duration::new(1, 73_741_824).unwrap());
}

#[test]
fn no_base_is_no_delay() {
    let cap = Duration::from_secs(5);
    assert_eq!(backoff_delay(u32::MAX, Duration::zero(), cap), Duration::zero());
    assert_eq!(backoff_delay(7, cap, Duration::zero()), Duration::zero());
}

#[test]
fn delay_never_shrinks_and_stays_under_the_cap() {
    let base = Duration::from_millis(7);
    let cap = Duration::from_secs(90);
    let mut last = 0;
    for attempt in 0..60 {
        let delay = backoff_delay(attempt, base, cap).as_nanos();
        assert!(last <= delay && delay <= cap.as_nanos());
        last = delay;
    }
    assert_eq!(last, 90_000_000_000);
}
