use echo_bench::coordinator::plan_workers;
use echo_bench::driver::{Directive, Discipline, LoadDriver, StopRule};
use echo_bench::error::{ExchangeError, IoFault, Mismatch, PlanError};
use echo_bench::phase::Reaction;

const MS: u128 = 1_000_000;

fn silent() -> Reaction {
    Reaction { start_marker: false, report: false, end_marker: false }
}

fn sample() -> Reaction {
    Reaction { start_marker: false, report: true, end_marker: false }
}

fn driver(discipline: Discipline, parallelism: usize, stop: StopRule) -> LoadDriver {
    match LoadDriver::new(discipline, parallelism, stop) {
        Ok(driver) => driver,
        Err(error) => panic!("driver refused: {:?}", error),
    }
}

/// Runs a repetition-count driver against a target that never fails and
/// completes the exchanges of a wave last-issued first. Returns the samples
/// reported, the sizes of the waves and the most exchanges ever in flight.
fn run_to_the_end(mut driver: LoadDriver) -> (usize, Vec<usize>, usize) {
    let mut reported = 0;
    let mut waves = Vec::new();
    let mut in_flight = 0usize;
    let mut most = 0;
    loop {
        match driver.poll(0) {
            Directive::Issue(count) => {
                waves.push(count);
                in_flight += count;
                most = most.max(in_flight);
                assert_eq!(driver.in_flight(), in_flight);
                assert_eq!(driver.poll(0), Directive::Await);
                while in_flight > 0 {
                    in_flight -= 1;
                    if driver.complete(0, Ok(())).report {
                        reported += 1;
                    }
                    assert_eq!(driver.in_flight(), in_flight);
                }
            }
            Directive::Await => panic!("nothing is in flight"),
            Directive::Finished { end_marker } => {
                assert!(!end_marker);
                return (reported, waves, most);
            }
            Directive::Aborted(error) => panic!("aborted: {:?}", error),
        }
    }
}

#[test]
fn zero_parallelism_is_refused() {
    for discipline in [Discipline::ClosedLoop, Discipline::Bursty, Discipline::ControlledBursty] {
        assert!(matches!(
            LoadDriver::new(discipline, 0, StopRule::Repetitions(10)),
            Err(PlanError::ZeroParallelism)
        ));
        assert!(matches!(
            LoadDriver::new(discipline, 0, StopRule::Window { warmup_secs: 1, duration_secs: 1 }),
            Err(PlanError::ZeroParallelism)
        ));
    }
}

#[test]
fn controlled_bursty_needs_a_repetition_count() {
    assert!(matches!(
        LoadDriver::new(
            Discipline::ControlledBursty,
            4,
            StopRule::Window { warmup_secs: 1, duration_secs: 1 }
        ),
        Err(PlanError::WindowedControlledBursty)
    ));
    assert!(LoadDriver::new(Discipline::ControlledBursty, 4, StopRule::Repetitions(1)).is_ok());
    assert!(LoadDriver::new(
        Discipline::Bursty,
        4,
        StopRule::Window { warmup_secs: 1, duration_secs: 1 }
    )
    .is_ok());
}

#[test]
fn closed_loop_issues_one_exchange_at_a_time() {
    let (reported, waves, most) =
        run_to_the_end(driver(Discipline::ClosedLoop, 1, StopRule::Repetitions(7)));
    assert_eq!(reported, 7);
    assert_eq!(waves, vec![1; 7]);
    assert_eq!(most, 1);
}

#[test]
fn closed_loop_of_three_workers_reports_a_thousand_samples() {
    let plans = match plan_workers(Discipline::ClosedLoop, 3, StopRule::Repetitions(1000)) {
        Ok(plans) => plans,
        Err(error) => panic!("plan refused: {:?}", error),
    };
    let mut per_worker = Vec::new();
    for plan in &plans {
        let (reported, waves, most) =
            run_to_the_end(driver(plan.discipline, plan.parallelism, plan.stop));
        assert!(waves.iter().all(|wave| *wave == 1));
        assert_eq!(most, 1);
        per_worker.push(reported);
    }
    assert_eq!(per_worker, vec![334, 333, 333]);
    assert_eq!(per_worker.iter().sum::<usize>(), 1000);
}

#[test]
fn bursty_batch_issues_every_repetition_at_once() {
    let (reported, waves, most) =
        run_to_the_end(driver(Discipline::Bursty, 4, StopRule::Repetitions(1000)));
    assert_eq!(reported, 1000);
    assert_eq!(waves, vec![1000]);
    assert_eq!(most, 1000);
}

#[test]
fn controlled_bursty_issues_waves_of_at_most_the_parallelism() {
    let (reported, waves, most) =
        run_to_the_end(driver(Discipline::ControlledBursty, 4, StopRule::Repetitions(10)));
    assert_eq!(reported, 10);
    assert_eq!(waves, vec![4, 4, 2]);
    assert_eq!(most, 4);
}

#[test]
fn controlled_bursty_never_exceeds_its_parallelism() {
    for parallelism in 1..=64usize {
        for reps in [0usize, 1, 63, 64, 65, 1000] {
            let (reported, waves, most) = run_to_the_end(driver(
                Discipline::ControlledBursty,
                parallelism,
                StopRule::Repetitions(reps),
            ));
            assert_eq!(reported, reps);
            assert!(most <= parallelism);
            assert_eq!(most, reps.min(parallelism));
            assert_eq!(waves.iter().sum::<usize>(), reps);
            assert_eq!(waves.len(), (reps + parallelism - 1) / parallelism);
            assert!(waves.iter().all(|wave| 1 <= *wave && *wave <= parallelism));
        }
    }
}

#[test]
fn no_repetitions_finish_at_the_first_poll() {
    let mut driver = driver(Discipline::Bursty, 2, StopRule::Repetitions(0));
    assert_eq!(driver.poll(0), Directive::Finished { end_marker: false });
    assert_eq!(driver.pending(), 0);
    assert_eq!(driver.failure(), None);
}

#[test]
fn next_wave_waits_for_the_whole_wave() {
    let mut driver = driver(Discipline::ControlledBursty, 3, StopRule::Repetitions(5));
    assert_eq!(driver.poll(0), Directive::Issue(3));
    assert_eq!(driver.pending(), 2);
    assert_eq!(driver.complete(1, Ok(())), sample());
    assert_eq!(driver.poll(1), Directive::Await);
    assert_eq!(driver.complete(2, Ok(())), sample());
    assert_eq!(driver.poll(2), Directive::Await);
    assert_eq!(driver.complete(3, Ok(())), sample());
    assert_eq!(driver.poll(3), Directive::Issue(2));
    assert_eq!(driver.pending(), 0);
}

#[test]
fn first_failure_aborts_the_run() {
    let broken = ExchangeError::Io(IoFault::Broken);
    let wrong = ExchangeError::Verification(Mismatch::WrongByte { offset: 0, found: 1 });
    let mut driver = driver(Discipline::ControlledBursty, 4, StopRule::Repetitions(10));
    assert_eq!(driver.poll(0), Directive::Issue(4));
    assert_eq!(driver.complete(1, Ok(())), sample());
    assert_eq!(driver.complete(2, Err(wrong)), silent());
    assert_eq!(driver.failure(), Some(wrong));
    assert_eq!(driver.poll(2), Directive::Aborted(wrong));
    assert_eq!(driver.complete(3, Ok(())), silent());
    assert_eq!(driver.complete(4, Err(broken)), silent());
    assert_eq!(driver.failure(), Some(wrong));
    assert_eq!(driver.in_flight(), 0);
    assert_eq!(driver.poll(5), Directive::Aborted(wrong));
    assert_eq!(driver.pending(), 6);
}

#[test]
fn unsolicited_completion_fails_the_run() {
    let mut driver = driver(Discipline::ClosedLoop, 1, StopRule::Repetitions(3));
    assert_eq!(driver.complete(0, Ok(())), silent());
    assert_eq!(driver.poll(0), Directive::Aborted(ExchangeError::Io(IoFault::OutOfTurn)));
}

#[test]
fn closed_loop_window_at_ten_milliseconds_per_exchange() {
    let mut driver = driver(
        Discipline::ClosedLoop,
        1,
        StopRule::Window { warmup_secs: 2, duration_secs: 5 },
    );
    let mut starts: Vec<u128> = Vec::new();
    let mut ends: Vec<u128> = Vec::new();
    let mut samples = 0;
    let mut clock: u128 = 0;
    loop {
        match driver.poll(clock) {
            Directive::Issue(count) => {
                assert_eq!(count, 1);
                clock += 10 * MS;
                let reaction = driver.complete(clock, Ok(()));
                if reaction.start_marker {
                    starts.push(clock);
                }
                if reaction.report {
                    samples += 1;
                }
                if reaction.end_marker {
                    ends.push(clock);
                }
            }
            Directive::Finished { end_marker } => {
                if end_marker {
                    ends.push(clock);
                }
                break;
            }
            other => panic!("unexpected directive {:?}", other),
        }
    }
    assert_eq!(starts.len(), 1);
    assert_eq!(ends.len(), 1);
    assert!(2_000 * MS < starts[0] && starts[0] <= 2_010 * MS);
    assert!(7_000 * MS <= ends[0] && ends[0] < 7_010 * MS);
    assert!((499..=501).contains(&samples));
    assert_eq!(samples, 499);
}

#[test]
fn bursty_window_issues_waves_of_the_parallelism_until_done() {
    let mut driver = driver(
        Discipline::Bursty,
        8,
        StopRule::Window { warmup_secs: 1, duration_secs: 2 },
    );
    let mut starts = 0;
    let mut ends = 0;
    let mut samples = 0;
    let mut waves = 0;
    let mut clock: u128 = 0;
    loop {
        match driver.poll(clock) {
            Directive::Issue(count) => {
                assert_eq!(count, 8);
                assert_eq!(driver.in_flight(), 8);
                waves += 1;
                clock += 100 * MS;
                for _ in 0..count {
                    let reaction = driver.complete(clock, Ok(()));
                    starts += reaction.start_marker as usize;
                    samples += reaction.report as usize;
                    ends += reaction.end_marker as usize;
                }
            }
            Directive::Finished { end_marker } => {
                ends += end_marker as usize;
                break;
            }
            other => panic!("unexpected directive {:?}", other),
        }
    }
    assert_eq!(waves, 30);
    assert_eq!(starts, 1);
    assert_eq!(ends, 1);
    assert_eq!(samples, 19 * 8);
}

#[test]
fn window_that_closes_while_idle_ends_at_the_poll() {
    let mut driver = driver(
        Discipline::ClosedLoop,
        1,
        StopRule::Window { warmup_secs: 1, duration_secs: 1 },
    );
    assert_eq!(driver.poll(0), Directive::Issue(1));
    assert_eq!(driver.complete(500 * MS, Ok(())), silent());
    assert_eq!(driver.poll(2_000 * MS), Directive::Finished { end_marker: true });
    assert_eq!(driver.poll(2_100 * MS), Directive::Finished { end_marker: false });
}

#[test]
fn failure_in_a_window_suppresses_the_rest_of_the_wave() {
    let broken = ExchangeError::Io(IoFault::EndOfStream);
    let mut driver = driver(
        Discipline::Bursty,
        3,
        StopRule::Window { warmup_secs: 0, duration_secs: 10 },
    );
    assert_eq!(driver.poll(0), Directive::Issue(3));
    assert_eq!(
        driver.complete(5, Ok(())),
        Reaction { start_marker: true, report: true, end_marker: false }
    );
    assert_eq!(driver.complete(6, Err(broken)), silent());
    assert_eq!(driver.complete(7, Ok(())), silent());
    assert_eq!(driver.poll(8), Directive::Aborted(broken));
}
