//! Load driver: how many exchanges are issued, and when.
//!
//! A driver is a state machine that the caller polls before issuing work and
//! informs of every completed exchange. The caller performs the exchanges; the
//! driver decides the size of each wave, keeps the barrier between waves,
//! stops on the first failure and says which completions are reported.

use crate::error::{ExchangeError, IoFault, PlanError};
use crate::phase::{
    emissions, lemma_window_log, well_ordered, within_window, Emission, Phase, PhaseController,
    PhaseState, Reaction, Reading, NANOS_PER_SEC,
};
use vstd::prelude::*;

verus! {

/// Concurrency regime of a driver.
#[derive(Clone, Copy, Debug, PartialEq, Eq, Structural)]
pub enum Discipline {
    /// One exchange at a time; the next starts when the previous completed.
    ClosedLoop,
    /// Whole waves at once: every repetition, or `parallelism` per wave in a
    /// window.
    Bursty,
    /// Waves of at most `parallelism` exchanges until the repetitions are used
    /// up.
    ControlledBursty,
}

/// When a driver stops issuing.
#[derive(Clone, Copy, Debug, PartialEq, Eq, Structural)]
pub enum StopRule {
    /// After this many exchanges.
    Repetitions(usize),
    /// When the warmup and the measurement interval, in seconds, have passed.
    Window { warmup_secs: u64, duration_secs: u64 },
}

/// What the caller does next.
#[derive(Clone, Copy, Debug, PartialEq, Eq, Structural)]
pub enum Directive {
    /// Issue this many exchanges concurrently, then hand in each result.
    Issue(usize),
    /// Exchanges of the current wave are in flight: hand in their results.
    Await,
    /// The stopping condition is met. `end_marker` asks for the end marker
    /// with the elapsed time just read.
    Finished { end_marker: bool },
    /// An exchange failed with this error; the run is over.
    Aborted(ExchangeError),
}

/// Mathematical state of a load driver.
pub struct DriverState {
    /// Concurrency regime.
    pub discipline: Discipline,
    /// Configured number of concurrent exchanges.
    pub parallelism: nat,
    /// Repetitions that have not been issued yet; zero in a window.
    pub pending: nat,
    /// The phase controller of a windowed run.
    pub window: Option<PhaseState>,
    /// Exchanges issued and not yet completed.
    pub in_flight: nat,
    /// The first failure, once there is one.
    pub failure: Option<ExchangeError>,
}

/// The reaction that reports a sample and nothing else.
pub open spec fn report_only() -> Reaction {
    Reaction { start_marker: false, report: true, end_marker: false }
}

impl DriverState {
    /// State of a driver before its first poll.
    pub open spec fn initial(
        discipline: Discipline,
        parallelism: nat,
        stop: StopRule,
    ) -> DriverState {
        DriverState {
            discipline,
            parallelism,
            pending: match stop {
                StopRule::Repetitions(reps) => reps as nat,
                StopRule::Window { .. } => 0,
            },
            window: match stop {
                StopRule::Repetitions(_) => None,
                StopRule::Window { warmup_secs, duration_secs } => Some(
                    PhaseState::initial(warmup_secs as nat, duration_secs as nat),
                ),
            },
            in_flight: 0,
            failure: None,
        }
    }

    /// Most exchanges that one wave may hold.
    pub open spec fn wave_cap(self) -> nat {
        match self.discipline {
            Discipline::ClosedLoop => 1,
            Discipline::Bursty => if self.window is Some {
                self.parallelism
            } else {
                self.pending
            },
            Discipline::ControlledBursty => self.parallelism,
        }
    }

    /// Size of the wave that is issued next.
    pub open spec fn wave_size(self) -> nat {
        if self.window is Some || self.wave_cap() <= self.pending {
            self.wave_cap()
        } else {
            self.pending
        }
    }

    /// Effect of a poll when the worker's clock reads `elapsed`.
    pub open spec fn on_poll(self, elapsed: nat) -> (DriverState, Directive) {
        if self.failure is Some {
            (self, Directive::Aborted(self.failure->0))
        } else if self.in_flight > 0 {
            (self, Directive::Await)
        } else if self.window is Some {
            let (window, reaction) = self.window->0.on_tick(elapsed);
            if window.phase == Phase::Done {
                (
                    DriverState { window: Some(window), ..self },
                    Directive::Finished { end_marker: reaction.end_marker },
                )
            } else {
                (
                    DriverState { in_flight: self.wave_size(), ..self },
                    Directive::Issue(self.wave_size() as usize),
                )
            }
        } else if self.pending == 0 {
            (self, Directive::Finished { end_marker: false })
        } else {
            (
                DriverState {
                    pending: (self.pending - self.wave_size()) as nat,
                    in_flight: self.wave_size(),
                    ..self
                },
                Directive::Issue(self.wave_size() as usize),
            )
        }
    }

    /// Effect of an exchange that completed with `outcome` when the worker's
    /// clock read `elapsed`.
    pub open spec fn on_completion(self, elapsed: nat, outcome: Result<(), ExchangeError>) -> (
        DriverState,
        Reaction,
    ) {
        if self.in_flight == 0 {
            (
                DriverState {
                    failure: if self.failure is Some {
                        self.failure
                    } else {
                        Some(ExchangeError::Io(IoFault::OutOfTurn))
                    },
                    ..self
                },
                Reaction::nothing(),
            )
        } else {
            let landed = DriverState { in_flight: (self.in_flight - 1) as nat, ..self };
            if self.failure is Some {
                (landed, Reaction::nothing())
            } else if outcome is Err {
                (DriverState { failure: Some(outcome->Err_0), ..landed }, Reaction::nothing())
            } else if self.window is Some {
                let (window, reaction) = self.window->0.on_completion(elapsed);
                (DriverState { window: Some(window), ..landed }, reaction)
            } else {
                (landed, report_only())
            }
        }
    }
}

/// One call made to a driver.
pub enum DriverEvent {
    /// A poll at the given elapsed time.
    Poll(nat),
    /// The result of an exchange that completed at the given elapsed time.
    Completion(nat, Result<(), ExchangeError>),
}

impl DriverEvent {
    /// The elapsed time handed in with the call.
    pub open spec fn at(self) -> nat {
        match self {
            DriverEvent::Poll(elapsed) => elapsed,
            DriverEvent::Completion(elapsed, _) => elapsed,
        }
    }
}

impl DriverState {
    /// State after one call.
    pub open spec fn step(self, event: DriverEvent) -> DriverState {
        match event {
            DriverEvent::Poll(elapsed) => self.on_poll(elapsed).0,
            DriverEvent::Completion(elapsed, outcome) => self.on_completion(elapsed, outcome).0,
        }
    }

    /// What the caller emits for one call.
    pub open spec fn output(self, event: DriverEvent) -> Reaction {
        match event {
            DriverEvent::Poll(elapsed) => Reaction {
                start_marker: false,
                report: false,
                end_marker: self.on_poll(elapsed).1 == (Directive::Finished { end_marker: true }),
            },
            DriverEvent::Completion(elapsed, outcome) => self.on_completion(elapsed, outcome).1,
        }
    }

    /// The reading that one call passes on to the phase controller, if any.
    pub open spec fn reading(self, event: DriverEvent) -> Seq<Reading> {
        match event {
            DriverEvent::Poll(elapsed) => if self.failure is None && self.in_flight == 0 {
                seq![Reading::Tick(elapsed)]
            } else {
                Seq::<Reading>::empty()
            },
            DriverEvent::Completion(elapsed, outcome) => if self.failure is None && self.in_flight
                > 0 && outcome is Ok {
                seq![Reading::Completion(elapsed)]
            } else {
                Seq::<Reading>::empty()
            },
        }
    }

    /// State after a sequence of calls.
    pub open spec fn after(self, events: Seq<DriverEvent>) -> DriverState
        decreases events.len(),
    {
        if events.len() == 0 {
            self
        } else {
            self.after(events.drop_last()).step(events.last())
        }
    }

    /// Number of samples reported over a sequence of calls.
    pub open spec fn reported(self, events: Seq<DriverEvent>) -> nat
        decreases events.len(),
    {
        if events.len() == 0 {
            0
        } else {
            let earlier = self.reported(events.drop_last());
            if self.after(events.drop_last()).output(events.last()).report {
                earlier + 1
            } else {
                earlier
            }
        }
    }

    /// Everything emitted over a sequence of calls.
    pub open spec fn emitted(self, events: Seq<DriverEvent>) -> Seq<Emission>
        decreases events.len(),
    {
        if events.len() == 0 {
            Seq::<Emission>::empty()
        } else {
            self.emitted(events.drop_last()) + emissions(
                self.after(events.drop_last()).output(events.last()),
                events.last().at(),
            )
        }
    }

    /// The readings that reach the phase controller over a sequence of calls.
    pub open spec fn readings(self, events: Seq<DriverEvent>) -> Seq<Reading>
        decreases events.len(),
    {
        if events.len() == 0 {
            Seq::<Reading>::empty()
        } else {
            self.readings(events.drop_last()) + self.after(events.drop_last()).reading(
                events.last(),
            )
        }
    }
}

/// However a driver is called, the exchanges in flight never exceed the cap
/// of its discipline: one in closed loop, `parallelism` under controlled-bursty
/// load and in a bursty window, the repetition count in a bursty batch.
pub proof fn lemma_in_flight_is_bounded(
    discipline: Discipline,
    parallelism: nat,
    stop: StopRule,
    events: Seq<DriverEvent>,
)
    ensures
        ({
            let init = DriverState::initial(discipline, parallelism, stop);
            let end = init.after(events);
            &&& end.discipline == discipline
            &&& end.parallelism == parallelism
            &&& end.window is Some <==> stop is Window
            &&& end.pending <= init.pending
            &&& discipline == Discipline::ClosedLoop ==> end.in_flight <= 1
            &&& discipline == Discipline::ControlledBursty ==> end.in_flight <= parallelism
            &&& discipline == Discipline::Bursty && stop is Window ==> end.in_flight <= parallelism
            &&& stop is Repetitions ==> end.in_flight + end.pending <= stop->Repetitions_0
        }),
    decreases events.len(),
{
    if events.len() > 0 {
        lemma_in_flight_is_bounded(discipline, parallelism, stop, events.drop_last());
    }
}

/// A driver with a parallelism above zero never issues an empty wave, never
/// issues while exchanges are in flight, and never issues more than the cap
/// of its discipline: one exchange in closed loop, `parallelism` under
/// controlled-bursty load and in a bursty window, and no more than are
/// pending under a repetition count.
pub proof fn lemma_waves_are_within_the_cap(
    discipline: Discipline,
    parallelism: usize,
    stop: StopRule,
    events: Seq<DriverEvent>,
    elapsed: nat,
)
    requires
        parallelism > 0,
    ensures
        ({
            let end = DriverState::initial(discipline, parallelism as nat, stop).after(events);
            end.on_poll(elapsed).1 matches Directive::Issue(count) ==> {
                &&& end.in_flight == 0
                &&& end.on_poll(elapsed).0.in_flight == count
                &&& 1 <= count
                &&& discipline == Discipline::ClosedLoop ==> count == 1
                &&& discipline == Discipline::ControlledBursty ==> count <= parallelism
                &&& discipline == Discipline::Bursty && stop is Window ==> count == parallelism
                &&& stop is Repetitions ==> count <= end.pending
                &&& discipline == Discipline::Bursty && stop is Repetitions ==> count
                    == end.pending
            }
        }),
{
    lemma_in_flight_is_bounded(discipline, parallelism as nat, stop, events);
}

/// Under a repetition count every repetition is pending, in flight or done:
/// as long as no exchange has failed, the samples reported so far and the
/// exchanges in flight and pending add up to the count. A driver that
/// finishes has therefore reported exactly that many samples.
pub proof fn lemma_repetitions_are_conserved(
    discipline: Discipline,
    parallelism: nat,
    reps: usize,
    events: Seq<DriverEvent>,
)
    ensures
        ({
            let init = DriverState::initial(discipline, parallelism, StopRule::Repetitions(reps));
            let end = init.after(events);
            &&& init.reported(events) <= reps
            &&& end.failure is None ==> init.reported(events) + end.in_flight + end.pending == reps
            &&& forall|elapsed: nat| #[trigger]
                end.on_poll(elapsed).1 is Finished ==> init.reported(events) == reps
        }),
    decreases events.len(),
{
    if events.len() > 0 {
        lemma_repetitions_are_conserved(discipline, parallelism, reps, events.drop_last());
        lemma_in_flight_is_bounded(
            discipline,
            parallelism,
            StopRule::Repetitions(reps),
            events.drop_last(),
        );
    }
}

/// Once an exchange has failed nothing more is reported, and the failure
/// stays the first one.
pub proof fn lemma_nothing_is_reported_after_a_failure(
    start: DriverState,
    events: Seq<DriverEvent>,
)
    requires
        start.failure is Some,
    ensures
        start.after(events).failure == start.failure,
        start.reported(events) == 0,
    decreases events.len(),
{
    if events.len() > 0 {
        lemma_nothing_is_reported_after_a_failure(start, events.drop_last());
    }
}

/// The output of a windowed driver is the output of a phase controller that
/// starts in warmup and is handed the readings the driver passes on.
pub proof fn lemma_windowed_output_is_phase_output(
    discipline: Discipline,
    parallelism: nat,
    warmup_secs: u64,
    duration_secs: u64,
    events: Seq<DriverEvent>,
)
    ensures
        ({
            let init = DriverState::initial(
                discipline,
                parallelism,
                StopRule::Window { warmup_secs, duration_secs },
            );
            let phase = PhaseState::initial(warmup_secs as nat, duration_secs as nat);
            &&& init.after(events).window == Some(phase.after(init.readings(events)))
            &&& init.emitted(events) == phase.emitted(init.readings(events))
        }),
    decreases events.len(),
{
    let init = DriverState::initial(
        discipline,
        parallelism,
        StopRule::Window { warmup_secs, duration_secs },
    );
    let phase = PhaseState::initial(warmup_secs as nat, duration_secs as nat);
    if events.len() > 0 {
        let earlier = events.drop_last();
        lemma_windowed_output_is_phase_output(
            discipline,
            parallelism,
            warmup_secs,
            duration_secs,
            earlier,
        );
        let before = init.after(earlier);
        let passed = before.reading(events.last());
        let readings = init.readings(events);
        assert(readings == init.readings(earlier) + passed);
        if passed.len() == 0 {
            assert(readings == init.readings(earlier));
            assert(emissions(before.output(events.last()), events.last().at())
                == Seq::<Emission>::empty());
            assert(init.emitted(events) == init.emitted(earlier));
        } else {
            assert(readings.drop_last() == init.readings(earlier));
            assert(readings.last() == passed[0]);
        }
    }
}

/// In a window every worker emits at most one start marker and at most one
/// end marker, the start marker first and the end marker last, and reports
/// samples only between them; the start marker lies after the warmup, every
/// sample before the close of the window, and the end marker at or after it.
pub proof fn lemma_windowed_log(
    discipline: Discipline,
    parallelism: nat,
    warmup_secs: u64,
    duration_secs: u64,
    events: Seq<DriverEvent>,
)
    ensures
        ({
            let init = DriverState::initial(
                discipline,
                parallelism,
                StopRule::Window { warmup_secs, duration_secs },
            );
            let log = init.emitted(events);
            &&& well_ordered(log)
            &&& within_window(
                log,
                warmup_secs as nat * NANOS_PER_SEC as nat,
                (warmup_secs as nat + duration_secs as nat) * NANOS_PER_SEC as nat,
            )
        }),
{
    let init = DriverState::initial(
        discipline,
        parallelism,
        StopRule::Window { warmup_secs, duration_secs },
    );
    lemma_windowed_output_is_phase_output(
        discipline,
        parallelism,
        warmup_secs,
        duration_secs,
        events,
    );
    lemma_window_log(warmup_secs as nat, duration_secs as nat, init.readings(events));
}

/// State machine behind one stream of load.
pub struct LoadDriver {
    discipline: Discipline,
    parallelism: usize,
    pending: usize,
    window: Option<PhaseController>,
    in_flight: usize,
    failure: Option<ExchangeError>,
}

impl View for LoadDriver {
    type V = DriverState;

    closed spec fn view(&self) -> DriverState {
        DriverState {
            discipline: self.discipline,
            parallelism: self.parallelism as nat,
            pending: self.pending as nat,
            window: match self.window {
                Some(controller) => Some(controller@),
                None => None,
            },
            in_flight: self.in_flight as nat,
            failure: self.failure,
        }
    }
}

impl LoadDriver {
    /// A driver for the given regime. A parallelism of zero is refused, and so
    /// is controlled-bursty load over a window.
    pub fn new(discipline: Discipline, parallelism: usize, stop: StopRule) -> (made: Result<
        LoadDriver,
        PlanError,
    >)
        ensures
            match made {
                Ok(driver) => {
                    &&& parallelism > 0
                    &&& !(discipline == Discipline::ControlledBursty && stop is Window)
                    &&& driver@ == DriverState::initial(discipline, parallelism as nat, stop)
                },
                Err(PlanError::ZeroParallelism) => parallelism == 0,
                Err(PlanError::WindowedControlledBursty) => {
                    &&& parallelism > 0
                    &&& discipline == Discipline::ControlledBursty
                    &&& stop is Window
                },
            },
    {
        if parallelism == 0 {
            return Err(PlanError::ZeroParallelism);
        }
        match stop {
            StopRule::Repetitions(reps) => Ok(
                LoadDriver {
                    discipline,
                    parallelism,
                    pending: reps,
                    window: None,
                    in_flight: 0,
                    failure: None,
                },
            ),
            StopRule::Window { warmup_secs, duration_secs } => {
                if discipline == Discipline::ControlledBursty {
                    return Err(PlanError::WindowedControlledBursty);
                }
                Ok(
                    LoadDriver {
                        discipline,
                        parallelism,
                        pending: 0,
                        window: Some(PhaseController::new(warmup_secs, duration_secs)),
                        in_flight: 0,
                        failure: None,
                    },
                )
            },
        }
    }

    /// Exchanges issued and not yet completed.
    pub fn in_flight(&self) -> (count: usize)
        ensures
            count == self@.in_flight,
    {
        self.in_flight
    }

    /// Repetitions that have not been issued yet.
    pub fn pending(&self) -> (count: usize)
        ensures
            count == self@.pending,
    {
        self.pending
    }

    /// The first failure handed in, if any.
    pub fn failure(&self) -> (failure: Option<ExchangeError>)
        ensures
            failure == self@.failure,
    {
        self.failure
    }

    fn wave_size(&self) -> (size: usize)
        ensures
            size == self@.wave_size(),
    {
        let cap: usize = match self.discipline {
            Discipline::ClosedLoop => 1,
            Discipline::Bursty => if self.window.is_some() {
                self.parallelism
            } else {
                self.pending
            },
            Discipline::ControlledBursty => self.parallelism,
        };
        if self.window.is_some() || cap <= self.pending {
            cap
        } else {
            self.pending
        }
    }

    /// Asks what to do next, the worker's clock reading `elapsed` nanoseconds.
    /// A new wave is only issued when none is in flight.
    pub fn poll(&mut self, elapsed: u128) -> (directive: Directive)
        ensures
            (final(self)@, directive) == old(self)@.on_poll(elapsed as nat),
    {
        if let Some(error) = self.failure {
            return Directive::Aborted(error);
        }
        if self.in_flight > 0 {
            return Directive::Await;
        }
        let size: usize = self.wave_size();
        match &mut self.window {
            Some(controller) => {
                let reaction = controller.on_tick(elapsed);
                if controller.is_done() {
                    Directive::Finished { end_marker: reaction.end_marker }
                } else {
                    self.in_flight = size;
                    Directive::Issue(size)
                }
            },
            None => {
                if self.pending == 0 {
                    Directive::Finished { end_marker: false }
                } else {
                    self.pending = self.pending - size;
                    self.in_flight = size;
                    Directive::Issue(size)
                }
            },
        }
    }

    /// Hands in the result of one exchange of the current wave, completed when
    /// the worker's clock read `elapsed` nanoseconds, and says what to emit
    /// for it. Nothing is reported for a failed exchange or after one.
    pub fn complete(&mut self, elapsed: u128, outcome: Result<(), ExchangeError>) -> (reaction:
        Reaction)
        ensures
            (final(self)@, reaction) == old(self)@.on_completion(elapsed as nat, outcome),
    {
        let silent = Reaction { start_marker: false, report: false, end_marker: false };
        if self.in_flight == 0 {
            if self.failure.is_none() {
                self.failure = Some(ExchangeError::Io(IoFault::OutOfTurn));
            }
            return silent;
        }
        self.in_flight = self.in_flight - 1;
        if self.failure.is_some() {
            return silent;
        }
        match outcome {
            Err(error) => {
                self.failure = Some(error);
                silent
            },
            Ok(_) => match &mut self.window {
                Some(controller) => controller.on_completion(elapsed),
                None => Reaction { start_marker: false, report: true, end_marker: false },
            },
        }
    }
}

} // verus!
