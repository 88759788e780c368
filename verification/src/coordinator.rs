//! Run coordinator: how a run is split between workers and what their
//! outcomes add up to.

use crate::driver::{
    lemma_repetitions_are_conserved, Discipline, DriverEvent, DriverState, StopRule,
};
use crate::error::{PlanError, RunError};
use vstd::arithmetic::div_mod::lemma_fundamental_div_mod;
use vstd::prelude::*;

verus! {

/// `num_cpus::get()`: the number of logical cores open to this process,
/// which is at least one. Which number is up to the machine.
#[verifier::external_body]
fn logical_cores() -> (count: usize)
    ensures
        count >= 1,
{
    num_cpus::get()
}

/// The parallelism of a run: what was asked for, else one per logical core.
pub fn resolve_parallelism(requested: Option<usize>) -> (parallelism: usize)
    ensures
        requested matches Some(asked) ==> parallelism == asked,
        requested is None ==> parallelism >= 1,
{
    match requested {
        Some(asked) => asked,
        None => logical_cores(),
    }
}

/// Repetitions of worker `index` when `reps` are split between `parallelism`
/// workers: an equal part each, and what is left over on top for worker 0.
pub open spec fn share(reps: nat, parallelism: nat, index: nat) -> nat {
    if parallelism == 0 {
        0
    } else if index == 0 {
        reps / parallelism + reps % parallelism
    } else {
        reps / parallelism
    }
}

/// Sum of `shares`.
pub open spec fn total(shares: Seq<usize>) -> nat
    decreases shares.len(),
{
    if shares.len() == 0 {
        0
    } else {
        total(shares.drop_last()) + shares.last() as nat
    }
}

/// Splits `reps` repetitions between `parallelism` workers. Every repetition
/// goes to exactly one worker; no worker but the first gets more than
/// another.
pub fn partition_reps(reps: usize, parallelism: usize) -> (shares: Vec<usize>)
    ensures
        shares@.len() == parallelism,
        forall|i: int|
            0 <= i < parallelism ==> #[trigger] shares@[i] == share(
                reps as nat,
                parallelism as nat,
                i as nat,
            ),
        parallelism > 0 ==> total(shares@) == reps,
{
    let mut shares: Vec<usize> = Vec::new();
    if parallelism == 0 {
        return shares;
    }
    let part: usize = reps / parallelism;
    let left: usize = reps % parallelism;
    proof {
        lemma_fundamental_div_mod(reps as int, parallelism as int);
        assert(part <= parallelism * part) by (nonlinear_arith)
            requires
                parallelism >= 1,
        ;
    }
    shares.push(part + left);
    assert(shares@.drop_last() =~= Seq::<usize>::empty());
    assert(total(shares@.drop_last()) == 0);
    assert(total(shares@) == 1 * part + left);
    let mut index: usize = 1;
    while index < parallelism
        invariant
            1 <= index <= parallelism,
            shares@.len() == index,
            part == reps as nat / parallelism as nat,
            left == reps as nat % parallelism as nat,
            reps == parallelism * part + left,
            forall|i: int|
                0 <= i < index ==> #[trigger] shares@[i] == share(
                    reps as nat,
                    parallelism as nat,
                    i as nat,
                ),
            total(shares@) == index * part + left,
        decreases parallelism - index,
    {
        let ghost before = shares@;
        shares.push(part);
        assert(shares@.drop_last() =~= before);
        assert((index + 1) * part == index * part + part) by (nonlinear_arith);
        index += 1;
    }
    shares
}

/// What one worker is asked to do.
#[derive(Clone, Copy, Debug, PartialEq, Eq, Structural)]
pub struct WorkerPlan {
    /// Concurrency regime of the worker's driver.
    pub discipline: Discipline,
    /// Parallelism of the worker's driver.
    pub parallelism: usize,
    /// When the worker stops.
    pub stop: StopRule,
}

/// Number of workers of a run: one per unit of parallelism in closed loop,
/// where each worker is one sequence of exchanges; a single one otherwise,
/// whose waves carry the parallelism.
pub open spec fn worker_count(discipline: Discipline, parallelism: nat) -> nat {
    if discipline == Discipline::ClosedLoop {
        parallelism
    } else {
        1
    }
}

/// The plan of worker `index`. Closed-loop workers share a repetition count
/// between them and each keep a whole window; a bursty worker takes the run as
/// it is.
pub open spec fn plan_of(discipline: Discipline, parallelism: usize, stop: StopRule, index: nat)
    -> WorkerPlan {
    if discipline == Discipline::ClosedLoop {
        WorkerPlan {
            discipline,
            parallelism: 1,
            stop: match stop {
                StopRule::Repetitions(reps) => StopRule::Repetitions(
                    share(reps as nat, parallelism as nat, index) as usize,
                ),
                StopRule::Window { .. } => stop,
            },
        }
    } else {
        WorkerPlan { discipline, parallelism, stop }
    }
}

/// Repetitions asked of the workers of `plans`, all together.
pub open spec fn planned_repetitions(plans: Seq<WorkerPlan>) -> nat
    decreases plans.len(),
{
    if plans.len() == 0 {
        0
    } else {
        planned_repetitions(plans.drop_last()) + match plans.last().stop {
            StopRule::Repetitions(reps) => reps as nat,
            StopRule::Window { .. } => 0,
        }
    }
}

/// Fans a run out into the plans of its workers. A parallelism of zero is
/// refused, and so is controlled-bursty load over a window; every plan that
/// is handed out is one a load driver accepts, and under a repetition count
/// the plans ask for exactly that many exchanges between them.
pub fn plan_workers(discipline: Discipline, parallelism: usize, stop: StopRule) -> (planned:
    Result<Vec<WorkerPlan>, PlanError>)
    ensures
        match planned {
            Ok(plans) => {
                &&& parallelism > 0
                &&& !(discipline == Discipline::ControlledBursty && stop is Window)
                &&& plans@.len() == worker_count(discipline, parallelism as nat)
                &&& forall|i: int|
                    0 <= i < plans@.len() ==> #[trigger] plans@[i] == plan_of(
                        discipline,
                        parallelism,
                        stop,
                        i as nat,
                    )
                &&& forall|i: int|
                    0 <= i < plans@.len() ==> (#[trigger] plans@[i]).parallelism > 0
                &&& stop matches StopRule::Repetitions(reps) ==> planned_repetitions(plans@) == reps
            },
            Err(PlanError::ZeroParallelism) => parallelism == 0,
            Err(PlanError::WindowedControlledBursty) => {
                &&& parallelism > 0
                &&& discipline == Discipline::ControlledBursty
                &&& stop is Window
            },
        },
{
    if parallelism == 0 {
        return Err(PlanError::ZeroParallelism);
    }
    let mut plans: Vec<WorkerPlan> = Vec::new();
    match discipline {
        Discipline::ClosedLoop => {
            match stop {
                StopRule::Repetitions(reps) => {
                    let shares = partition_reps(reps, parallelism);
                    let mut index: usize = 0;
                    while index < parallelism
                        invariant
                            index <= parallelism,
                            discipline == Discipline::ClosedLoop,
                            stop == StopRule::Repetitions(reps),
                            shares@.len() == parallelism,
                            forall|i: int|
                                0 <= i < parallelism ==> #[trigger] shares@[i] == share(
                                    reps as nat,
                                    parallelism as nat,
                                    i as nat,
                                ),
                            plans@.len() == index,
                            forall|i: int|
                                0 <= i < index ==> #[trigger] plans@[i] == plan_of(
                                    discipline,
                                    parallelism,
                                    stop,
                                    i as nat,
                                ),
                            planned_repetitions(plans@) == total(shares@.take(index as int)),
                        decreases parallelism - index,
                    {
                        let ghost before = plans@;
                        plans.push(
                            WorkerPlan {
                                discipline,
                                parallelism: 1,
                                stop: StopRule::Repetitions(shares[index]),
                            },
                        );
                        assert(plans@.drop_last() =~= before);
                        assert(shares@.take(index + 1).drop_last() =~= shares@.take(index as int));
                        index += 1;
                    }
                    assert(shares@.take(parallelism as int) =~= shares@);
                },
                StopRule::Window { .. } => {
                    let mut index: usize = 0;
                    while index < parallelism
                        invariant
                            index <= parallelism,
                            discipline == Discipline::ClosedLoop,
                            stop is Window,
                            plans@.len() == index,
                            forall|i: int|
                                0 <= i < index ==> #[trigger] plans@[i] == plan_of(
                                    discipline,
                                    parallelism,
                                    stop,
                                    i as nat,
                                ),
                        decreases parallelism - index,
                    {
                        plans.push(WorkerPlan { discipline, parallelism: 1, stop });
                        index += 1;
                    }
                },
            }
        },
        _ => {
            if discipline == Discipline::ControlledBursty {
                if let StopRule::Window { .. } = stop {
                    return Err(PlanError::WindowedControlledBursty);
                }
            }
            plans.push(WorkerPlan { discipline, parallelism, stop });
            assert(plans@.drop_last() =~= Seq::<WorkerPlan>::empty());
            assert(planned_repetitions(plans@.drop_last()) == 0);
        },
    }
    Ok(plans)
}

/// The driver of a plan, before its first poll.
pub open spec fn driver_of(plan: WorkerPlan) -> DriverState {
    DriverState::initial(plan.discipline, plan.parallelism as nat, plan.stop)
}

/// Samples reported by the workers of `plans`, all together, when the driver
/// of worker `i` has been called as `traces[i]` says.
pub open spec fn reported_by_all(plans: Seq<WorkerPlan>, traces: Seq<Seq<DriverEvent>>) -> nat
    decreases plans.len(),
{
    if plans.len() == 0 {
        0
    } else {
        reported_by_all(plans.drop_last(), traces.drop_last()) + driver_of(plans.last()).reported(
            traces.last(),
        )
    }
}

/// A run under a repetition count whose workers have all finished has
/// reported exactly as many samples as its plans ask for: with the plans of
/// [`plan_workers`], the repetition count of the run.
pub proof fn lemma_finished_run_reports_every_repetition(
    plans: Seq<WorkerPlan>,
    traces: Seq<Seq<DriverEvent>>,
)
    requires
        traces.len() == plans.len(),
        forall|i: int|
            0 <= i < plans.len() ==> (#[trigger] plans[i]).stop is Repetitions && driver_of(
                plans[i],
            ).after(traces[i]).on_poll(0).1 is Finished,
    ensures
        reported_by_all(plans, traces) == planned_repetitions(plans),
    decreases plans.len(),
{
    if plans.len() > 0 {
        let last = plans.last();
        let (others, their_traces) = (plans.drop_last(), traces.drop_last());
        assert(last == plans[plans.len() - 1]);
        assert forall|i: int| 0 <= i < others.len() implies {
            &&& (#[trigger] others[i]).stop is Repetitions
            &&& driver_of(others[i]).after(their_traces[i]).on_poll(0).1 is Finished
        } by {
            assert(others[i] == plans[i]);
            assert(their_traces[i] == traces[i]);
        }
        lemma_finished_run_reports_every_repetition(others, their_traces);
        lemma_repetitions_are_conserved(
            last.discipline,
            last.parallelism as nat,
            last.stop->Repetitions_0,
            traces.last(),
        );
        assert(last.stop == StopRule::Repetitions(last.stop->Repetitions_0));
        assert(driver_of(last).after(traces.last()).on_poll(0).1 is Finished);
    }
}

/// How a worker ended.
#[derive(Clone, Copy, Debug, PartialEq, Eq, Structural)]
pub enum WorkerOutcome {
    /// It ran to its stopping condition.
    Completed,
    /// It gave up with this error.
    Failed(RunError),
    /// It died without an outcome; this is logged and otherwise passed over.
    Panicked,
}

/// The outcome of the run, from the outcomes of its workers in the order in
/// which they were joined: the error of the first worker that failed, and
/// success if none did. Later failures are not merged into it.
pub fn run_verdict(outcomes: &Vec<WorkerOutcome>) -> (verdict: Result<(), RunError>)
    ensures
        match verdict {
            Ok(_) => forall|i: int| 0 <= i < outcomes@.len() ==> !(outcomes@[i] is Failed),
            Err(error) => exists|i: int|
                {
                    &&& 0 <= i < outcomes@.len()
                    &&& outcomes@[i] == WorkerOutcome::Failed(error)
                    &&& forall|j: int| 0 <= j < i ==> !(outcomes@[j] is Failed)
                },
        },
{
    let mut index: usize = 0;
    while index < outcomes.len()
        invariant
            index <= outcomes@.len(),
            forall|j: int| 0 <= j < index ==> !(outcomes@[j] is Failed),
        decreases outcomes@.len() - index,
    {
        if let WorkerOutcome::Failed(error) = outcomes[index] {
            return Err(error);
        }
        index += 1;
    }
    Ok(())
}

/// The closing lines of a run.
#[derive(Clone, Copy, Debug, PartialEq, Eq, Structural)]
pub struct Summary {
    /// Wall time of the whole run in nanoseconds; given for a repetition
    /// count only.
    pub elapsed: Option<u128>,
    /// The configured message size.
    pub message_size: usize,
}

/// The summary of a run that took `elapsed` nanoseconds.
pub fn summarize(stop: StopRule, message_size: usize, elapsed: u128) -> (summary: Summary)
    ensures
        summary.message_size == message_size,
        summary.elapsed == if stop is Repetitions {
            Some(elapsed)
        } else {
            None
        },
{
    match stop {
        StopRule::Repetitions(_) => Summary { elapsed: Some(elapsed), message_size },
        StopRule::Window { .. } => Summary { elapsed: None, message_size },
    }
}

} // verus!
