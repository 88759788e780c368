//! Failures of an exchange and of a run.

use vstd::prelude::*;

verus! {

/// Ways in which the byte transfer of an exchange breaks down.
#[derive(Clone, Copy, Debug, PartialEq, Eq, Structural)]
pub enum IoFault {
    /// The transport reported an error for a read or a write.
    Broken,
    /// A write accepted no bytes although some were offered.
    WriteStalled,
    /// The stream ended before the whole payload came back.
    EndOfStream,
    /// The transport claims to have moved more bytes than it was asked to.
    Overrun,
    /// A result was handed in that the exchange had not asked for.
    OutOfTurn,
}

/// Ways in which a response differs from the request it answers.
#[derive(Clone, Copy, Debug, PartialEq, Eq, Structural)]
pub enum Mismatch {
    /// The byte at `offset` of the response is `found`, not the byte that was sent.
    WrongByte { offset: usize, found: u8 },
    /// The response holds `actual` bytes where `expected` were sent.
    WrongLength { expected: usize, actual: usize },
}

/// Why an exchange failed. Either kind aborts the run; nothing is retried.
#[derive(Clone, Copy, Debug, PartialEq, Eq, Structural)]
pub enum ExchangeError {
    /// Short or broken I/O in the middle of the exchange.
    Io(IoFault),
    /// The echoed payload is not the payload that was sent.
    Verification(Mismatch),
}

/// Why a worker did not finish its share of the run.
#[derive(Clone, Copy, Debug, PartialEq, Eq, Structural)]
pub enum RunError {
    /// The target could not be reached.
    Connect,
    /// An exchange failed after the session was established.
    Exchange(ExchangeError),
}

/// Error of `parse_size`'s parser, carried as it came.
#[verifier::external_type_specification]
#[verifier::external_body]
pub struct ExSizeSyntaxError(parse_size::Error);

/// Error of `humantime`'s duration parser, carried as it came.
#[verifier::external_type_specification]
#[verifier::external_body]
pub struct ExDurationSyntaxError(humantime::DurationError);

/// Error of `chrono`'s parsers, carried as it came.
#[verifier::external_type_specification]
#[verifier::external_body]
pub struct ExClockSyntaxError(chrono::ParseError);

/// A setting that cannot be used. Fatal before any network activity.
#[derive(Debug, PartialEq)]
pub enum ConfigError {
    /// The text holds more digits than a size or a duration is read with.
    TooManyDigits,
    /// The message size is not a size.
    InvalidSize(parse_size::Error),
    /// The message size is a size, but more than this machine can address.
    SizeTooLarge(u64),
    /// The duration or warmup is not a duration.
    InvalidDuration(humantime::DurationError),
    /// The start time is not a time of day.
    InvalidStartTime(chrono::ParseError),
    /// An instant lies outside what a count of nanoseconds can express, so
    /// the wait until the start cannot be computed exactly.
    UnrepresentableTime,
    /// The name of this host is not valid Unicode.
    HostNameNotUnicode,
    /// Port zero names no target.
    PortZero,
    /// The load cannot be driven as asked.
    Plan(PlanError),
}

/// Why a load driver cannot be set up as asked.
#[derive(Clone, Copy, Debug, PartialEq, Eq, Structural)]
pub enum PlanError {
    /// No exchange can ever be in flight with a parallelism of zero.
    ZeroParallelism,
    /// Controlled-bursty load exists for a repetition count only.
    WindowedControlledBursty,
}

} // verus!
