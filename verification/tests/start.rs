use echo_bench::config::StartInstant;
use echo_bench::error::ConfigError;
use echo_bench::start::{start_delay, synchronized_delay};

/// Day number of 1 January 1970.
const EPOCH_DAY: i32 = 719_163;

#[test]
fn target_ahead_waits_for_the_difference() {
    assert_eq!(start_delay(Some(0), Some(100_000_000)), Ok(100_000_000));
    assert_eq!(
        start_delay(Some(1_700_000_000_000_000_000), Some(1_700_000_000_100_000_000)),
        Ok(100_000_000)
    );
    assert_eq!(start_delay(Some(-5), Some(5)), Ok(10));
    assert_eq!(start_delay(Some(41), Some(42)), Ok(1));
}

#[test]
fn target_in_the_past_does_not_wait() {
    assert_eq!(start_delay(Some(100_000_000), Some(0)), Ok(0));
    assert_eq!(start_delay(Some(7), Some(7)), Ok(0));
    assert_eq!(start_delay(Some(i64::MAX), Some(i64::MIN)), Ok(0));
}

#[test]
fn widest_difference_does_not_wrap() {
    assert_eq!(start_delay(Some(i64::MIN), Some(i64::MAX)), Ok(u64::MAX));
    assert_eq!(start_delay(Some(-1), Some(i64::MAX)), Ok(1 << 63));
    assert_eq!(start_delay(Some(i64::MIN), Some(0)), Ok(1 << 63));
}

#[test]
fn instant_without_a_count_is_a_configuration_error() {
    assert_eq!(start_delay(None, Some(5)), Err(ConfigError::UnrepresentableTime));
    assert_eq!(start_delay(Some(5), None), Err(ConfigError::UnrepresentableTime));
    assert_eq!(start_delay(None, None), Err(ConfigError::UnrepresentableTime));
}

#[test]
fn start_long_ago_does_not_wait() {
    let epoch = StartInstant { day: EPOCH_DAY, secs: 0, frac: 0 };
    assert_eq!(synchronized_delay(&epoch), Ok(0));
    let millennium = StartInstant { day: EPOCH_DAY + 10_957, secs: 86_399, frac: 999_999_999 };
    assert_eq!(synchronized_delay(&millennium), Ok(0));
}

#[test]
fn start_far_ahead_waits_until_then() {
    let now = match chrono::Local::now().timestamp_nanos_opt() {
        Some(now) => now,
        None => panic!("the clock is out of range"),
    };
    // 1 January 2200, one second and five nanoseconds after midnight.
    let days_after_epoch: i64 = 84_006;
    let target_nanos = days_after_epoch * 86_400 * 1_000_000_000 + 1_000_000_005;
    let target = StartInstant { day: EPOCH_DAY + days_after_epoch as i32, secs: 1, frac: 5 };
    let before = (target_nanos - now) as u64;
    let delay = match synchronized_delay(&target) {
        Ok(delay) => delay,
        Err(error) => panic!("refused: {:?}", error),
    };
    assert!(delay <= before);
    assert!(before - delay < 60_000_000_000);
}

#[test]
fn start_beyond_the_nanosecond_range_is_refused() {
    let year_3000 = StartInstant { day: EPOCH_DAY + 376_200, secs: 0, frac: 0 };
    assert_eq!(synchronized_delay(&year_3000), Err(ConfigError::UnrepresentableTime));
    let year_1 = StartInstant { day: 1, secs: 0, frac: 0 };
    assert_eq!(synchronized_delay(&year_1), Err(ConfigError::UnrepresentableTime));
}

#[test]
fn start_that_is_no_time_of_day_is_refused() {
    let late = StartInstant { day: EPOCH_DAY, secs: 86_400, frac: 0 };
    assert_eq!(synchronized_delay(&late), Err(ConfigError::UnrepresentableTime));
    let no_day = StartInstant { day: i32::MAX, secs: 0, frac: 0 };
    assert_eq!(synchronized_delay(&no_day), Err(ConfigError::UnrepresentableTime));
}
