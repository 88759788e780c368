//! Load-generation and timing engine of a latency benchmark for echo services.
//!
//! The crate holds the decisions of the benchmark as verified state machines
//! and pure functions: how one request/response exchange moves over a byte
//! stream and when it counts as correct, which exchanges a worker reports
//! during a warmup-then-measurement window, how many exchanges may be in
//! flight under each load discipline, how repetitions are split between
//! workers, and how long a process waits for a synchronized start. Sockets,
//! tasks, threads and printing are left to the caller, which performs the
//! actions the state machines ask for and hands the results back.
//!
//! # Modules
//!
//! * [`wire`]: sentinel payload, size header, and the [`wire::Exchange`] of a
//!   client over a byte stream.
//! * [`rpc`]: the check of a unary call and the echo service itself.
//! * [`server`]: the session of the byte-stream echo endpoint.
//! * [`link`]: a model of a client and the endpoint on one connection.
//! * [`probe`]: latency from two clock readings.
//! * [`phase`]: warmup, reporting and the end of a window.
//! * [`driver`]: waves of exchanges under each discipline.
//! * [`coordinator`]: workers, their shares and the outcome of the run.
//! * [`start`]: the wait for a synchronized start.
//! * [`identity`]: the identity of a client process.
//! * [`config`]: settings and how they are read from text.
//! * [`error`]: what can go wrong.
//!
//! # What is taken on trust
//!
//! Text is parsed by `parse_size`, `humantime` and `chrono`; the clock is
//! read and instants are counted by `chrono`; the host name, the random tag
//! and the core count come from `gethostname`, `uuid` and `num_cpus`. Each of
//! these calls is made by one small private function marked `external_body`,
//! whose contract says what is assumed of the call. Where a result is a
//! function of the arguments alone it is given a name (`binary_size`,
//! `human_duration`, `clock_time`, `naive_nanos`) and nothing further is
//! assumed of it. Everything else in the crate is proved.

pub mod config;
pub mod coordinator;
pub mod driver;
pub mod error;
pub mod identity;
pub mod link;
pub mod phase;
pub mod probe;
pub mod rpc;
pub mod server;
pub mod start;
pub mod wire;
