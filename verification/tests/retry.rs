//! The retry schedule.

use postbud::retry::{backoff, total_window, SCHEDULE};
use std::time::Duration;

#[test]
fn backoff_grows_and_then_ends() {
    assert_eq!(backoff(0), Some(Duration::from_secs(60)));
    assert_eq!(backoff(3), Some(Duration::from_secs(3600)));
    assert_eq!(backoff(SCHEDULE.len() as u32), None);
}

#[test]
fn schedule_is_monotonic() {
    for pair in SCHEDULE.windows(2) {
        assert!(pair[1] >= pair[0], "backoff must never shrink: {pair:?}");
    }
}

#[test]
fn retry_window_survives_an_overnight_outage() {
    assert!(
        total_window() >= Duration::from_secs(24 * 3600),
        "a relay outage must not destroy mail overnight"
    );
}

#[test]
fn the_window_is_the_sum_of_the_schedule() {
    assert_eq!(total_window(), Duration::from_secs(177_660));
    assert_eq!(backoff(8), Some(Duration::from_secs(54_000)));
    assert_eq!(backoff(u32::MAX), None);
    let summed: Duration = (0..9u32).map(|n| backoff(n).unwrap()).sum();
    assert_eq!(total_window(), summed);
}

#[test]
fn the_window_is_just_over_two_days() {
    assert!(total_window() > Duration::from_secs(48 * 3600));
    assert!(total_window() <= Duration::from_secs(50 * 3600));
}
