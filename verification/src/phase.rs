//! Phase controller: which exchanges of a worker are reported.
//!
//! A worker starts in warmup at elapsed time zero, begins reporting at the
//! first completed exchange whose elapsed time lies strictly after the warmup,
//! and is done at the first elapsed-time reading that reaches the end of the
//! measurement window. Elapsed times are nanoseconds on the worker's own
//! monotonic clock.

use vstd::prelude::*;

verus! {

/// Nanoseconds in one second.
pub const NANOS_PER_SEC: u128 = 1_000_000_000;

/// Stage of a worker within its window.
#[derive(Clone, Copy, Debug, PartialEq, Eq, Structural)]
pub enum Phase {
    /// Exchanges run, none is reported.
    Warmup,
    /// Exchanges that complete inside the window are reported.
    Reporting,
    /// The window is over; no exchange is issued or reported any more.
    Done,
}

/// What the worker has to emit after an elapsed-time reading, in field order.
#[derive(Clone, Copy, Debug, PartialEq, Eq, Structural)]
pub struct Reaction {
    /// Emit the start marker with the elapsed time just read.
    pub start_marker: bool,
    /// Report the latency of the exchange that just completed.
    pub report: bool,
    /// Emit the end marker with the elapsed time just read.
    pub end_marker: bool,
}

impl Reaction {
    /// The reaction that emits nothing.
    pub open spec fn nothing() -> Reaction {
        Reaction { start_marker: false, report: false, end_marker: false }
    }
}

/// Mathematical state of a phase controller.
pub struct PhaseState {
    /// Length of the warmup in nanoseconds.
    pub warmup: nat,
    /// Elapsed time at which the window closes: warmup plus measurement.
    pub deadline: nat,
    /// Current stage.
    pub phase: Phase,
}

impl PhaseState {
    /// State of a worker that has not read its clock yet.
    pub open spec fn initial(warmup_secs: nat, duration_secs: nat) -> PhaseState {
        PhaseState {
            warmup: warmup_secs * NANOS_PER_SEC as nat,
            deadline: (warmup_secs + duration_secs) * NANOS_PER_SEC as nat,
            phase: Phase::Warmup,
        }
    }

    /// Effect of an exchange that completed when the clock read `elapsed`.
    pub open spec fn on_completion(self, elapsed: nat) -> (PhaseState, Reaction) {
        if self.phase == Phase::Done {
            (self, Reaction::nothing())
        } else {
            let starts = self.phase == Phase::Warmup && elapsed > self.warmup;
            let reporting = self.phase == Phase::Reporting || starts;
            let ends = elapsed >= self.deadline;
            let phase = if ends {
                Phase::Done
            } else if reporting {
                Phase::Reporting
            } else {
                Phase::Warmup
            };
            (
                PhaseState { phase, ..self },
                Reaction { start_marker: starts, report: reporting && !ends, end_marker: ends },
            )
        }
    }

    /// Effect of a clock reading taken while no exchange has just completed.
    pub open spec fn on_tick(self, elapsed: nat) -> (PhaseState, Reaction) {
        if self.phase != Phase::Done && elapsed >= self.deadline {
            (
                PhaseState { phase: Phase::Done, ..self },
                Reaction { start_marker: false, report: false, end_marker: true },
            )
        } else {
            (self, Reaction::nothing())
        }
    }
}

/// One elapsed-time reading of a worker, in nanoseconds.
pub enum Reading {
    /// The clock was read before issuing more work.
    Tick(nat),
    /// The clock was read when an exchange completed.
    Completion(nat),
}

impl Reading {
    /// The elapsed time that was read.
    pub open spec fn at(self) -> nat {
        match self {
            Reading::Tick(elapsed) => elapsed,
            Reading::Completion(elapsed) => elapsed,
        }
    }
}

/// One line of a worker's output, with the elapsed time it belongs to.
pub enum Emission {
    /// The start marker.
    Start(nat),
    /// The latency of an exchange that completed at the given elapsed time.
    Sample(nat),
    /// The end marker.
    End(nat),
}

impl Emission {
    /// The elapsed time the line belongs to.
    pub open spec fn at(self) -> nat {
        match self {
            Emission::Start(elapsed) => elapsed,
            Emission::Sample(elapsed) => elapsed,
            Emission::End(elapsed) => elapsed,
        }
    }
}

/// The lines a reaction stands for, in the order in which they are emitted.
pub open spec fn emissions(reaction: Reaction, at: nat) -> Seq<Emission> {
    let start = if reaction.start_marker {
        seq![Emission::Start(at)]
    } else {
        Seq::<Emission>::empty()
    };
    let sample = if reaction.report {
        seq![Emission::Sample(at)]
    } else {
        Seq::<Emission>::empty()
    };
    let end = if reaction.end_marker {
        seq![Emission::End(at)]
    } else {
        Seq::<Emission>::empty()
    };
    start + sample + end
}

impl PhaseState {
    /// Effect of one reading.
    pub open spec fn react(self, reading: Reading) -> (PhaseState, Reaction) {
        match reading {
            Reading::Tick(elapsed) => self.on_tick(elapsed),
            Reading::Completion(elapsed) => self.on_completion(elapsed),
        }
    }

    /// State after a sequence of readings.
    pub open spec fn after(self, readings: Seq<Reading>) -> PhaseState
        decreases readings.len(),
    {
        if readings.len() == 0 {
            self
        } else {
            self.after(readings.drop_last()).react(readings.last()).0
        }
    }

    /// Everything emitted over a sequence of readings.
    pub open spec fn emitted(self, readings: Seq<Reading>) -> Seq<Emission>
        decreases readings.len(),
    {
        if readings.len() == 0 {
            Seq::<Emission>::empty()
        } else {
            self.emitted(readings.drop_last()) + emissions(
                self.after(readings.drop_last()).react(readings.last()).1,
                readings.last().at(),
            )
        }
    }
}

/// A start marker can only open the log, an end marker can only close it, and
/// a sample needs a start marker before it.
pub open spec fn well_ordered(log: Seq<Emission>) -> bool {
    &&& forall|i: int| 0 <= i < log.len() && #[trigger] log[i] is Start ==> i == 0
    &&& forall|i: int| 0 <= i < log.len() && #[trigger] log[i] is End ==> i == log.len() - 1
    &&& forall|i: int| 0 <= i < log.len() && #[trigger] log[i] is Sample ==> log[0] is Start
}

/// The start marker lies after the warmup, every sample before the close of
/// the window, and the end marker at or after it.
pub open spec fn within_window(log: Seq<Emission>, warmup: nat, deadline: nat) -> bool {
    forall|i: int|
        0 <= i < log.len() ==> match #[trigger] log[i] {
            Emission::Start(at) => warmup < at,
            Emission::Sample(at) => at < deadline,
            Emission::End(at) => deadline <= at,
        }
}

/// The readings never go back in time.
pub open spec fn chronological(readings: Seq<Reading>) -> bool {
    forall|i: int, j: int| 0 <= i <= j < readings.len() ==> readings[i].at() <= readings[j].at()
}

/// Whatever a worker reads from its clock, its output holds at most one start
/// marker and at most one end marker, the start marker comes first, the end
/// marker last, and every reported sample follows a start marker and lies
/// before the close of the window. The end marker is there exactly when the
/// worker is done; a worker in warmup has emitted nothing, and a reporting
/// worker has emitted its start marker.
pub proof fn lemma_window_log(warmup_secs: nat, duration_secs: nat, readings: Seq<Reading>)
    ensures
        ({
            let init = PhaseState::initial(warmup_secs, duration_secs);
            let log = init.emitted(readings);
            let end = init.after(readings);
            &&& end.warmup == init.warmup
            &&& end.deadline == init.deadline
            &&& well_ordered(log)
            &&& within_window(log, init.warmup, init.deadline)
            &&& end.phase == Phase::Warmup ==> log.len() == 0
            &&& end.phase == Phase::Reporting ==> {
                &&& log.len() > 0
                &&& log[0] is Start
                &&& !(log.last() is End)
            }
            &&& end.phase == Phase::Done <==> log.len() > 0 && log.last() is End
        }),
    decreases readings.len(),
{
    let init = PhaseState::initial(warmup_secs, duration_secs);
    if readings.len() > 0 {
        lemma_window_log(warmup_secs, duration_secs, readings.drop_last());
        let before = init.after(readings.drop_last());
        let old_log = init.emitted(readings.drop_last());
        let step = emissions(before.react(readings.last()).1, readings.last().at());
        let log = init.emitted(readings);
        assert(log == old_log + step);
        assert forall|i: int| 0 <= i < log.len() implies (i < old_log.len() && log[i] == old_log[i])
            || (i >= old_log.len() && log[i] == step[i - old_log.len()]) by {}
    }
}

/// With a clock that never goes back, the output is in time order: the start
/// marker is no later than any sample, every sample lies strictly inside the
/// window, and so strictly before the end marker.
pub proof fn lemma_log_is_chronological(
    warmup_secs: nat,
    duration_secs: nat,
    readings: Seq<Reading>,
)
    requires
        chronological(readings),
    ensures
        ({
            let log = PhaseState::initial(warmup_secs, duration_secs).emitted(readings);
            &&& forall|i: int, j: int| 0 <= i <= j < log.len() ==> log[i].at() <= log[j].at()
            &&& forall|i: int, j: int|
                0 <= i < log.len() && 0 <= j < log.len() && log[i] is Sample && log[j] is End
                    ==> log[i].at() < log[j].at()
            &&& forall|i: int|
                0 <= i < log.len() && log[i] is Sample ==> warmup_secs * NANOS_PER_SEC
                    < log[i].at() < (warmup_secs + duration_secs) * NANOS_PER_SEC
            &&& forall|i: int|
                0 <= i < log.len() && readings.len() > 0 ==> log[i].at() <= readings.last().at()
        }),
    decreases readings.len(),
{
    let init = PhaseState::initial(warmup_secs, duration_secs);
    lemma_window_log(warmup_secs, duration_secs, readings);
    if readings.len() > 0 {
        let earlier = readings.drop_last();
        assert forall|i: int, j: int| 0 <= i <= j < earlier.len() implies earlier[i].at()
            <= earlier[j].at() by {
            assert(earlier[i] == readings[i] && earlier[j] == readings[j]);
        }
        lemma_log_is_chronological(warmup_secs, duration_secs, earlier);
        let old_log = init.emitted(earlier);
        let step = emissions(init.after(earlier).react(readings.last()).1, readings.last().at());
        let log = init.emitted(readings);
        assert(log == old_log + step);
        if earlier.len() > 0 {
            assert(earlier.last() == readings[readings.len() - 2]);
        }
        assert forall|i: int| 0 <= i < log.len() implies (i < old_log.len() && log[i] == old_log[i])
            || (i >= old_log.len() && log[i] == step[i - old_log.len()] && log[i].at()
            == readings.last().at()) by {}
    }
}

/// A window of positive length that is closed by a completed exchange has
/// exactly one start marker and one end marker in its output.
pub proof fn lemma_closing_completion_has_both_markers(
    warmup_secs: nat,
    duration_secs: nat,
    readings: Seq<Reading>,
)
    requires
        duration_secs > 0,
        readings.len() > 0,
        readings.last() is Completion,
        PhaseState::initial(warmup_secs, duration_secs).after(readings.drop_last()).phase
            != Phase::Done,
        PhaseState::initial(warmup_secs, duration_secs).after(readings).phase == Phase::Done,
    ensures
        ({
            let log = PhaseState::initial(warmup_secs, duration_secs).emitted(readings);
            &&& log.len() >= 2
            &&& log[0] is Start
            &&& log.last() is End
            &&& forall|i: int| 0 < i < log.len() ==> !(log[i] is Start)
            &&& forall|i: int| 0 <= i < log.len() - 1 ==> !(log[i] is End)
        }),
{
    let init = PhaseState::initial(warmup_secs, duration_secs);
    lemma_window_log(warmup_secs, duration_secs, readings.drop_last());
    lemma_window_log(warmup_secs, duration_secs, readings);
    let before = init.after(readings.drop_last());
    let old_log = init.emitted(readings.drop_last());
    let step = emissions(before.react(readings.last()).1, readings.last().at());
    let log = init.emitted(readings);
    assert(log == old_log + step);
    assert(init.deadline > init.warmup) by (nonlinear_arith)
        requires
            duration_secs > 0,
            init.warmup == warmup_secs * 1_000_000_000,
            init.deadline == (warmup_secs + duration_secs) * 1_000_000_000,
    ;
    if before.phase == Phase::Warmup {
        assert(step[0] is Start);
        assert(log[0] == step[0]);
    } else {
        assert(log[0] == old_log[0]);
    }
}

/// Per-worker controller of the phases of a window: warmup, reporting, done.
pub struct PhaseController {
    warmup: u128,
    deadline: u128,
    phase: Phase,
}

impl View for PhaseController {
    type V = PhaseState;

    closed spec fn view(&self) -> PhaseState {
        PhaseState {
            warmup: self.warmup as nat,
            deadline: self.deadline as nat,
            phase: self.phase,
        }
    }
}

impl PhaseController {
    /// Controller of a worker that starts now, for a warmup and a measurement
    /// interval given in whole seconds.
    pub fn new(warmup_secs: u64, duration_secs: u64) -> (controller: PhaseController)
        ensures
            controller@ == PhaseState::initial(warmup_secs as nat, duration_secs as nat),
    {
        let warmup: u128 = warmup_secs as u128 * NANOS_PER_SEC;
        let window: u128 = duration_secs as u128 * NANOS_PER_SEC;
        assert((warmup_secs + duration_secs) * NANOS_PER_SEC == warmup + window)
            by (nonlinear_arith)
            requires
                warmup == warmup_secs * NANOS_PER_SEC,
                window == duration_secs * NANOS_PER_SEC,
        ;
        PhaseController { warmup, deadline: warmup + window, phase: Phase::Warmup }
    }

    /// Current stage.
    pub fn phase(&self) -> (phase: Phase)
        ensures
            phase == self@.phase,
    {
        self.phase
    }

    /// Whether the window is over.
    pub fn is_done(&self) -> (done: bool)
        ensures
            done == (self@.phase == Phase::Done),
    {
        self.phase == Phase::Done
    }

    /// Records that an exchange completed when the worker's clock read
    /// `elapsed` nanoseconds, and says what to emit for it.
    pub fn on_completion(&mut self, elapsed: u128) -> (reaction: Reaction)
        ensures
            (final(self)@, reaction) == old(self)@.on_completion(elapsed as nat),
    {
        if self.phase == Phase::Done {
            return Reaction { start_marker: false, report: false, end_marker: false };
        }
        let starts = self.phase == Phase::Warmup && elapsed > self.warmup;
        let reporting = self.phase == Phase::Reporting || starts;
        let ends = elapsed >= self.deadline;
        if ends {
            self.phase = Phase::Done;
        } else if reporting {
            self.phase = Phase::Reporting;
        }
        Reaction { start_marker: starts, report: reporting && !ends, end_marker: ends }
    }

    /// Records a clock reading of `elapsed` nanoseconds taken before issuing
    /// more work, and says whether the end marker is due.
    pub fn on_tick(&mut self, elapsed: u128) -> (reaction: Reaction)
        ensures
            (final(self)@, reaction) == old(self)@.on_tick(elapsed as nat),
    {
        if self.phase != Phase::Done && elapsed >= self.deadline {
            self.phase = Phase::Done;
            Reaction { start_marker: false, report: false, end_marker: true }
        } else {
            Reaction { start_marker: false, report: false, end_marker: false }
        }
    }
}

} // verus!
