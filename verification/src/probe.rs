//! Timing probe: the latency of one exchange.
//!
//! Instants are nanoseconds on a monotonic clock, read by the caller
//! immediately before and after the exchange.

use crate::error::ExchangeError;
use vstd::prelude::*;

verus! {

/// Time from `started` to `finished`; zero if the clock did not advance.
pub open spec fn span(started: u128, finished: u128) -> u128 {
    if finished >= started {
        (finished - started) as u128
    } else {
        0
    }
}

/// Time that passed between two readings of a monotonic clock.
pub fn elapsed_between(started: u128, finished: u128) -> (elapsed: u128)
    ensures
        elapsed == span(started, finished),
{
    if finished >= started {
        finished - started
    } else {
        0
    }
}

/// Latency of an exchange that ran from `started` to `finished` and ended
/// with `outcome`: the elapsed time if it succeeded, its own error if not.
pub fn measure(started: u128, finished: u128, outcome: Result<(), ExchangeError>) -> (latency:
    Result<u128, ExchangeError>)
    ensures
        latency == match outcome {
            Ok(_) => Ok::<u128, ExchangeError>(span(started, finished)),
            Err(error) => Err(error),
        },
{
    match outcome {
        Ok(_) => Ok(elapsed_between(started, finished)),
        Err(error) => Err(error),
    }
}

} // verus!
