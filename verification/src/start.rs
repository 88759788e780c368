//! Start synchronizer: how long a process waits for a wall-clock instant, so
//! that processes launched apart begin together.

use crate::config::StartInstant;
use crate::error::ConfigError;
use vstd::prelude::*;

verus! {

/// What `chrono` gives as the nanoseconds from the start of 1970 to the
/// instant on day `day` at `secs` seconds and `frac` nanoseconds after
/// midnight, no time zone applied; nothing where `chrono` has no such date or
/// time, or where the count does not fit 64 bits.
pub uninterp spec fn naive_nanos(day: int, secs: int, frac: int) -> Option<i64>;

/// `chrono::NaiveDateTime::and_utc().timestamp_nanos_opt()` on the date and
/// time that `chrono` builds from the three numbers: the count as `chrono`
/// computes it, or `None` where `chrono` refuses one of the numbers or the
/// count. It is a function of the three numbers alone.
#[verifier::external_body]
fn naive_timestamp_nanos(day: i32, secs: u32, frac: u32) -> (nanos: Option<i64>)
    ensures
        nanos == naive_nanos(day as int, secs as int, frac as int),
{
    let date = chrono::NaiveDate::from_num_days_from_ce_opt(day)?;
    let time = chrono::NaiveTime::from_num_seconds_from_midnight_opt(secs, frac)?;
    chrono::NaiveDateTime::new(date, time).and_utc().timestamp_nanos_opt()
}

/// `chrono::Local::now().timestamp_nanos_opt()`: the wall clock in
/// nanoseconds since the start of 1970, or `None` where that does not fit 64
/// bits. Nothing is claimed of the result: it is the time. The call aborts if
/// the system clock is set before 1970.
#[verifier::external_body]
fn wall_clock_nanos() -> (nanos: Option<i64>) {
    chrono::Local::now().timestamp_nanos_opt()
}

/// The wait from `now` until `target`, both in nanoseconds since the start of
/// 1970: their distance if the target lies ahead, nothing if it has passed,
/// and an error if either instant has no such count.
pub open spec fn delay_until(now: Option<i64>, target: Option<i64>) -> Result<u64, ConfigError> {
    match (now, target) {
        (Some(now), Some(target)) => Ok(
            if now < target {
                (target - now) as u64
            } else {
                0
            },
        ),
        _ => Err(ConfigError::UnrepresentableTime),
    }
}

/// Nanoseconds to block before any worker begins. The distance between two
/// 64-bit counts always fits the result, so nothing wraps.
pub fn start_delay(now: Option<i64>, target: Option<i64>) -> (delay: Result<u64, ConfigError>)
    ensures
        delay == delay_until(now, target),
        delay matches Ok(wait) ==> (wait > 0 <==> now->0 < target->0) && (wait > 0 ==> wait
            == target->0 - now->0),
{
    match (now, target) {
        (Some(now), Some(target)) => {
            if now < target {
                Ok((target as i128 - now as i128) as u64)
            } else {
                Ok(0)
            }
        },
        _ => Err(ConfigError::UnrepresentableTime),
    }
}

/// Reads the wall clock and says how long to block until `start`. The wait
/// is the one [`delay_until`] gives for the clock's reading, whatever that
/// is; a start that has no nanosecond count is an error at any time.
pub fn synchronized_delay(start: &StartInstant) -> (delay: Result<u64, ConfigError>)
    ensures
        exists|now: Option<i64>|
            delay == delay_until(
                now,
                naive_nanos(start.day as int, start.secs as int, start.frac as int),
            ),
        naive_nanos(start.day as int, start.secs as int, start.frac as int) is None ==> delay
            == Err::<u64, ConfigError>(ConfigError::UnrepresentableTime),
{
    let now = wall_clock_nanos();
    let target = naive_timestamp_nanos(start.day, start.secs, start.frac);
    start_delay(now, target)
}

} // verus!
