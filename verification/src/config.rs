//! Settings of a run and how they are read from text.

use crate::coordinator::{plan_of, plan_workers, worker_count, WorkerPlan};
use crate::driver::{Discipline, StopRule};
use crate::error::{ConfigError, PlanError};
use vstd::prelude::*;
use vstd::string::StrSliceExecFns;

verus! {

/// Most digits a message size is read with: as many as the largest 64-bit
/// number has.
pub const MAX_SIZE_DIGITS: usize = 20;

/// Most digits a duration is read with, all its numbers together. With so
/// few digits, and a year as the longest unit, no duration comes near the
/// largest count of seconds.
pub const MAX_DURATION_DIGITS: usize = 11;

/// A decimal digit.
pub open spec fn is_digit(c: char) -> bool {
    '0' <= c && c <= '9'
}

/// Number of decimal digits in `text`.
pub open spec fn digit_count(text: Seq<char>) -> nat
    decreases text.len(),
{
    if text.len() == 0 {
        0
    } else if is_digit(text.last()) {
        digit_count(text.drop_last()) + 1
    } else {
        digit_count(text.drop_last())
    }
}

/// A prefix holds no more digits than the whole text.
pub proof fn lemma_digit_count_of_prefix(text: Seq<char>, len: int)
    requires
        0 <= len <= text.len(),
    ensures
        digit_count(text.take(len)) <= digit_count(text),
    decreases text.len(),
{
    if len < text.len() {
        lemma_digit_count_of_prefix(text.drop_last(), len);
        assert(text.drop_last().take(len) =~= text.take(len));
    } else {
        assert(text.take(len) =~= text);
    }
}

/// Whether `text` holds at most `limit` decimal digits.
pub fn has_at_most_digits(text: &str, limit: usize) -> (within: bool)
    ensures
        within == (digit_count(text@) <= limit),
{
    let len: usize = text.unicode_len();
    let mut count: usize = 0;
    let mut index: usize = 0;
    assert(text@.take(0) =~= Seq::<char>::empty());
    while index < len
        invariant
            index <= len,
            len == text@.len(),
            count <= limit,
            count == digit_count(text@.take(index as int)),
        decreases len - index,
    {
        let c = text.get_char(index);
        assert(text@.take(index + 1).drop_last() =~= text@.take(index as int));
        assert(text@.take(index + 1).last() == c);
        if '0' <= c && c <= '9' {
            if count == limit {
                proof {
                    lemma_digit_count_of_prefix(text@, index + 1);
                }
                return false;
            }
            count += 1;
        }
        index += 1;
    }
    assert(text@.take(len as int) =~= text@);
    true
}

/// What `parse_size`, set to binary units, makes of `text`: the number of
/// bytes, or nothing where it reports an error.
pub uninterp spec fn binary_size(text: Seq<char>) -> Option<u64>;

/// What `humantime` makes of `text`: whole seconds and the nanoseconds beyond
/// them, or nothing where it reports an error.
pub uninterp spec fn human_duration(text: Seq<char>) -> Option<(u64, u32)>;

/// What `chrono` makes of `text` read as a time of day in `format`: seconds
/// since midnight and the nanoseconds beyond them, or nothing where it
/// reports an error.
pub uninterp spec fn clock_time(text: Seq<char>, format: Seq<char>) -> Option<(u32, u32)>;

/// `parse_size::Config::parse_size` with binary units: the parser's own
/// result. It is a function of the text alone; which texts it accepts and
/// what they are worth is not restated here. The parser rounds its 64-bit
/// mantissa up without a check once a digit no longer fits, which takes more
/// than twenty digits; such texts are kept away from it.
#[verifier::external_body]
fn parse_binary_size(text: &str) -> (parsed: Result<u64, parse_size::Error>)
    requires
        digit_count(text@) <= MAX_SIZE_DIGITS,
    ensures
        match parsed {
            Ok(bytes) => binary_size(text@) == Some(bytes),
            Err(_) => binary_size(text@) is None,
        },
{
    parse_size::Config::new().with_binary().parse_size(text)
}

/// `humantime::parse_duration`: the parser's own result, the duration taken
/// apart into whole seconds and the nanoseconds beyond them. It is a function
/// of the text alone. The parser hands a full second of nanoseconds on to
/// `Duration::new`, which aborts if the seconds are already at their largest;
/// texts with enough digits to get there are kept away from it.
#[verifier::external_body]
fn parse_human_duration(text: &str) -> (parsed: Result<(u64, u32), humantime::DurationError>)
    requires
        digit_count(text@) <= MAX_DURATION_DIGITS,
    ensures
        match parsed {
            Ok(duration) => human_duration(text@) == Some(duration),
            Err(_) => human_duration(text@) is None,
        },
{
    humantime::parse_duration(text).map(|duration| (duration.as_secs(), duration.subsec_nanos()))
}

/// `chrono::NaiveTime::parse_from_str`: the parser's own result, the time
/// taken apart into seconds since midnight and the nanoseconds beyond them.
/// It is a function of the text and the format alone, and it is only asked
/// for the one format the start time is written in.
#[verifier::external_body]
fn parse_clock_time(text: &str, format: &str) -> (parsed: Result<(u32, u32), chrono::ParseError>)
    requires
        format@ == start_format(),
    ensures
        match parsed {
            Ok(time) => clock_time(text@, format@) == Some(time),
            Err(_) => clock_time(text@, format@) is None,
        },
{
    chrono::NaiveTime::parse_from_str(text, format).map(
        |time|
            (
                chrono::Timelike::num_seconds_from_midnight(&time),
                chrono::Timelike::nanosecond(&time),
            ),
    )
}

/// `chrono::Local::now().date_naive()`: today's date in the local time zone,
/// as its day number in the proleptic Gregorian calendar. Nothing is claimed
/// of the result: it depends on the clock and the time zone of the machine.
/// The call aborts if the system clock is set before 1970.
#[verifier::external_body]
fn local_today() -> (day: i32) {
    chrono::Datelike::num_days_from_ce(&chrono::Local::now().date_naive())
}

/// The message size that a parsed size stands for.
pub fn size_from_parsed(parsed: Result<u64, parse_size::Error>) -> (size: Result<
    usize,
    ConfigError,
>)
    ensures
        size == match parsed {
            Ok(bytes) => if bytes <= usize::MAX {
                Ok::<usize, ConfigError>(bytes as usize)
            } else {
                Err(ConfigError::SizeTooLarge(bytes))
            },
            Err(cause) => Err(ConfigError::InvalidSize(cause)),
        },
{
    match parsed {
        Ok(bytes) => if bytes <= usize::MAX as u64 {
            Ok(bytes as usize)
        } else {
            Err(ConfigError::SizeTooLarge(bytes))
        },
        Err(cause) => Err(ConfigError::InvalidSize(cause)),
    }
}

/// Reads a message size such as `4096`, `64k` or `1 MiB`; prefixes are powers
/// of 1024. Succeeds exactly on the texts of at most twenty digits that the
/// size parser accepts and whose value this machine can address.
pub fn size_parser(text: &str) -> (size: Result<usize, ConfigError>)
    ensures
        match size {
            Ok(bytes) => digit_count(text@) <= MAX_SIZE_DIGITS && binary_size(text@) == Some(
                bytes as u64,
            ),
            Err(ConfigError::TooManyDigits) => digit_count(text@) > MAX_SIZE_DIGITS,
            Err(ConfigError::InvalidSize(_)) => digit_count(text@) <= MAX_SIZE_DIGITS
                && binary_size(text@) is None,
            Err(ConfigError::SizeTooLarge(bytes)) => digit_count(text@) <= MAX_SIZE_DIGITS
                && binary_size(text@) == Some(bytes) && bytes > usize::MAX,
            Err(_) => false,
        },
{
    if !has_at_most_digits(text, MAX_SIZE_DIGITS) {
        return Err(ConfigError::TooManyDigits);
    }
    size_from_parsed(parse_binary_size(text))
}

/// The whole seconds of a parsed duration.
pub fn seconds_from_parsed(parsed: Result<(u64, u32), humantime::DurationError>) -> (seconds:
    Result<u64, ConfigError>)
    ensures
        seconds == match parsed {
            Ok(duration) => Ok::<u64, ConfigError>(duration.0),
            Err(cause) => Err(ConfigError::InvalidDuration(cause)),
        },
{
    match parsed {
        Ok(duration) => Ok(duration.0),
        Err(cause) => Err(ConfigError::InvalidDuration(cause)),
    }
}

/// Reads a duration such as `60s` or `2min 30s` and keeps its whole seconds.
/// Succeeds exactly on the texts of at most eleven digits that the duration
/// parser accepts.
pub fn duration_parser(text: &str) -> (seconds: Result<u64, ConfigError>)
    ensures
        match seconds {
            Ok(secs) => {
                &&& digit_count(text@) <= MAX_DURATION_DIGITS
                &&& human_duration(text@) matches Some(duration)
                &&& duration.0 == secs
            },
            Err(ConfigError::TooManyDigits) => digit_count(text@) > MAX_DURATION_DIGITS,
            Err(ConfigError::InvalidDuration(_)) => digit_count(text@) <= MAX_DURATION_DIGITS
                && human_duration(text@) is None,
            Err(_) => false,
        },
{
    if !has_at_most_digits(text, MAX_DURATION_DIGITS) {
        return Err(ConfigError::TooManyDigits);
    }
    seconds_from_parsed(parse_human_duration(text))
}

/// A wall-clock instant without a time zone: a day and a time of day.
#[derive(Clone, Copy, Debug, PartialEq, Eq, Structural)]
pub struct StartInstant {
    /// Day number in the proleptic Gregorian calendar; day 1 is 1 January of
    /// year 1.
    pub day: i32,
    /// Seconds since midnight.
    pub secs: u32,
    /// Nanoseconds beyond the second; above 999 999 999 in a leap second.
    pub frac: u32,
}

/// The instant on `day` at a parsed time of day.
pub fn start_from_parsed(day: i32, parsed: Result<(u32, u32), chrono::ParseError>) -> (start:
    Result<StartInstant, ConfigError>)
    ensures
        start == match parsed {
            Ok(time) => Ok::<StartInstant, ConfigError>(
                StartInstant { day, secs: time.0, frac: time.1 },
            ),
            Err(cause) => Err(ConfigError::InvalidStartTime(cause)),
        },
{
    match parsed {
        Ok(time) => Ok(StartInstant { day, secs: time.0, frac: time.1 }),
        Err(cause) => Err(ConfigError::InvalidStartTime(cause)),
    }
}

/// Format of a start time: hours, minutes and seconds.
pub open spec fn start_format() -> Seq<char> {
    "%H:%M:%S"@
}

/// Reads a start time `HH:MM:SS` as that time today. Succeeds exactly on the
/// texts the time parser accepts; the time of day is the parsed one, the day
/// is whatever day it is.
pub fn time_parser(text: &str) -> (start: Result<StartInstant, ConfigError>)
    ensures
        match start {
            Ok(instant) => clock_time(text@, start_format()) == Some((instant.secs, instant.frac)),
            Err(ConfigError::InvalidStartTime(_)) => clock_time(text@, start_format()) is None,
            Err(_) => false,
        },
{
    let today: i32 = local_today();
    start_from_parsed(today, parse_clock_time(text, "%H:%M:%S"))
}

/// Mathematical content of a run configuration.
pub struct RunSettings {
    /// Host of the target.
    pub host: Seq<char>,
    /// Port of the target.
    pub port: u16,
    /// Number of logically concurrent exchanges.
    pub parallelism: usize,
    /// Payload size of every exchange in bytes.
    pub message_size: usize,
    /// When the run stops.
    pub stop: StopRule,
    /// The wall-clock instant to wait for before any worker begins.
    pub start: Option<StartInstant>,
    /// Concurrency regime.
    pub discipline: Discipline,
    /// Identity of this client process.
    pub identity: Seq<char>,
}

impl RunSettings {
    /// The settings can be run: the port names a target, something may be in
    /// flight, and controlled-bursty load has a repetition count.
    pub open spec fn runnable(self) -> bool {
        &&& self.port > 0
        &&& self.parallelism > 0
        &&& !(self.discipline == Discipline::ControlledBursty && self.stop is Window)
    }
}

/// Configuration of a run. It is checked when it is made and does not change.
pub struct RunConfig {
    host: String,
    port: u16,
    parallelism: usize,
    message_size: usize,
    stop: StopRule,
    start: Option<StartInstant>,
    discipline: Discipline,
    identity: String,
}

impl View for RunConfig {
    type V = RunSettings;

    closed spec fn view(&self) -> RunSettings {
        RunSettings {
            host: self.host@,
            port: self.port,
            parallelism: self.parallelism,
            message_size: self.message_size,
            stop: self.stop,
            start: self.start,
            discipline: self.discipline,
            identity: self.identity@,
        }
    }
}

impl RunConfig {
    #[verifier::type_invariant]
    spec fn checked(self) -> bool {
        self@.runnable()
    }

    /// Checks the settings of a run and keeps them. Port zero is refused
    /// first, then a parallelism of zero, then controlled-bursty load over a
    /// window; everything else is accepted as given.
    pub fn new(
        host: String,
        port: u16,
        parallelism: usize,
        message_size: usize,
        stop: StopRule,
        start: Option<StartInstant>,
        discipline: Discipline,
        identity: String,
    ) -> (made: Result<RunConfig, ConfigError>)
        ensures
            match made {
                Ok(config) => config@ == (RunSettings {
                    host: host@,
                    port,
                    parallelism,
                    message_size,
                    stop,
                    start,
                    discipline,
                    identity: identity@,
                }) && config@.runnable(),
                Err(ConfigError::PortZero) => port == 0,
                Err(ConfigError::Plan(PlanError::ZeroParallelism)) => port > 0 && parallelism == 0,
                Err(ConfigError::Plan(PlanError::WindowedControlledBursty)) => {
                    &&& port > 0
                    &&& parallelism > 0
                    &&& discipline == Discipline::ControlledBursty
                    &&& stop is Window
                },
                Err(_) => false,
            },
    {
        if port == 0 {
            return Err(ConfigError::PortZero);
        }
        if parallelism == 0 {
            return Err(ConfigError::Plan(PlanError::ZeroParallelism));
        }
        if discipline == Discipline::ControlledBursty {
            if let StopRule::Window { .. } = stop {
                return Err(ConfigError::Plan(PlanError::WindowedControlledBursty));
            }
        }
        Ok(
            RunConfig {
                host,
                port,
                parallelism,
                message_size,
                stop,
                start,
                discipline,
                identity,
            },
        )
    }

    /// Host of the target.
    pub fn host(&self) -> (host: &str)
        ensures
            host@ == self@.host,
    {
        self.host.as_str()
    }

    /// Port of the target; never zero.
    pub fn port(&self) -> (port: u16)
        ensures
            port == self@.port,
            port > 0,
    {
        proof {
            use_type_invariant(self);
        }
        self.port
    }

    /// Number of logically concurrent exchanges; never zero.
    pub fn parallelism(&self) -> (parallelism: usize)
        ensures
            parallelism == self@.parallelism,
            parallelism > 0,
    {
        proof {
            use_type_invariant(self);
        }
        self.parallelism
    }

    /// Payload size of every exchange in bytes.
    pub fn message_size(&self) -> (size: usize)
        ensures
            size == self@.message_size,
    {
        self.message_size
    }

    /// When the run stops.
    pub fn stop(&self) -> (stop: StopRule)
        ensures
            stop == self@.stop,
    {
        self.stop
    }

    /// The wall-clock instant to wait for, if the start is synchronized.
    pub fn start(&self) -> (start: Option<StartInstant>)
        ensures
            start == self@.start,
    {
        self.start
    }

    /// Concurrency regime.
    pub fn discipline(&self) -> (discipline: Discipline)
        ensures
            discipline == self@.discipline,
    {
        self.discipline
    }

    /// Identity of this client process.
    pub fn identity(&self) -> (identity: &str)
        ensures
            identity@ == self@.identity,
    {
        self.identity.as_str()
    }

    /// The plans of the workers of this run, in worker order.
    pub fn worker_plans(&self) -> (plans: Vec<WorkerPlan>)
        ensures
            plans@.len() == worker_count(self@.discipline, self@.parallelism as nat),
            forall|i: int|
                0 <= i < plans@.len() ==> #[trigger] plans@[i] == plan_of(
                    self@.discipline,
                    self@.parallelism,
                    self@.stop,
                    i as nat,
                ),
    {
        proof {
            use_type_invariant(self);
        }
        match plan_workers(self.discipline, self.parallelism, self.stop) {
            Ok(plans) => plans,
            Err(_) => Vec::new(),
        }
    }
}

} // verus!
