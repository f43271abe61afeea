use chronix::workloads::{a, calcul};
use chronix::{check_cycle_options, Aggregation, BenchConfig, ConfigError, Event, ProtocolError, Runner, Step};

/// Drives a run, answering each clock read with the next value of `clock`.
fn drive(runner: &mut Runner, clock: &[u64]) -> Vec<Step> {
    let mut steps = Vec::new();
    let mut next = 0;
    loop {
        let step = runner.next_step();
        steps.push(step);
        match step {
            Step::Done => break,
            Step::ReadClock => {
                runner.advance(Event::Clock(clock[next])).unwrap();
                next += 1;
            }
            _ => runner.advance(Event::Completed).unwrap(),
        }
    }
    steps
}

const CLOCK: [u64; 10] = [100, 130, 200, 212, 300, 340, 400, 415, 500, 520];

#[test]
fn end_to_end_minimum_of_five() {
    let cfg = BenchConfig::new(2, 5, Aggregation::Min, false);
    let mut runner = Runner::new(cfg, false);
    let steps = drive(&mut runner, &CLOCK);
    let mut expected = vec![Step::Warmup, Step::Warmup];
    for _ in 0..5 {
        expected.extend([Step::Barrier, Step::ReadClock, Step::RunTimed, Step::ReadClock]);
    }
    expected.extend([Step::RunFinal, Step::Done]);
    assert_eq!(steps, expected);
    assert_eq!(runner.sample_count(), 5);
    let st = runner.summary(4).unwrap();
    assert_eq!(st.aggregated, Some((12, 12)));
    assert_eq!(st.total_ticks, None);
    assert_eq!(st.accesses, 4);
    assert_eq!(st.aggregation, Aggregation::Min);
}

#[test]
fn cycle_total_is_sum_of_deltas() {
    let cfg = BenchConfig::new(2, 5, Aggregation::Median, true);
    let mut runner = Runner::new(cfg, true);
    let steps = drive(&mut runner, &CLOCK);
    assert_eq!(steps[0], Step::PinCore);
    let st = runner.summary(1).unwrap();
    assert_eq!(st.total_ticks, Some(30 + 12 + 40 + 15 + 20));
    assert_eq!(st.aggregated, Some((20, 20)));
}

#[test]
fn p95_over_run() {
    let cfg = BenchConfig::new(0, 5, Aggregation::P95, false);
    let mut runner = Runner::new(cfg, true);
    drive(&mut runner, &CLOCK);
    assert_eq!(runner.summary(1).unwrap().aggregated, Some((40, 40)));
}

#[test]
fn summary_waits_for_repetitions() {
    let cfg = BenchConfig::new(1, 2, Aggregation::Min, false);
    let mut runner = Runner::new(cfg, false);
    assert!(runner.summary(1).is_none());
    runner.advance(Event::Completed).unwrap();
    assert!(runner.summary(1).is_none());
}

#[test]
fn zero_repetitions_give_no_aggregate() {
    let cfg = BenchConfig::new(1, 0, Aggregation::Median, false);
    let mut runner = Runner::new(cfg, true);
    let steps = drive(&mut runner, &[]);
    assert_eq!(steps, vec![Step::Warmup, Step::RunFinal, Step::Done]);
    let st = runner.summary(3).unwrap();
    assert_eq!(st.aggregated, None);
    assert_eq!(st.total_ticks, Some(0));
}

#[test]
fn refused_events() {
    let cfg = BenchConfig::new(0, 1, Aggregation::Min, false);
    let mut runner = Runner::new(cfg, false);
    assert_eq!(runner.next_step(), Step::Barrier);
    assert_eq!(runner.advance(Event::Clock(5)), Err(ProtocolError::UnexpectedEvent));
    runner.advance(Event::Completed).unwrap();
    assert_eq!(runner.advance(Event::Completed), Err(ProtocolError::UnexpectedEvent));
    runner.advance(Event::Clock(50)).unwrap();
    runner.advance(Event::Completed).unwrap();
    assert_eq!(runner.advance(Event::Clock(49)), Err(ProtocolError::ClockWentBackwards));
    assert_eq!(runner.next_step(), Step::ReadClock);
    runner.advance(Event::Clock(50)).unwrap();
    assert_eq!(runner.summary(1).unwrap().aggregated, Some((0, 0)));
    runner.advance(Event::Completed).unwrap();
    assert_eq!(runner.advance(Event::Completed), Err(ProtocolError::Finished));
}

#[test]
fn total_overflow_refused() {
    let cfg = BenchConfig::new(0, 2, Aggregation::Min, false);
    let mut runner = Runner::new(cfg, true);
    let reads = [0, u64::MAX, 0];
    let mut i = 0;
    loop {
        match runner.next_step() {
            Step::ReadClock if i < 3 => {
                runner.advance(Event::Clock(reads[i])).unwrap();
                i += 1;
            }
            Step::ReadClock => {
                assert_eq!(runner.advance(Event::Clock(1)), Err(ProtocolError::TotalOverflow));
                break;
            }
            _ => runner.advance(Event::Completed).unwrap(),
        }
    }
    assert_eq!(runner.sample_count(), 1);
}

#[test]
fn config_round_trip() {
    let cfg = BenchConfig::new(7, 3, Aggregation::P95, true);
    assert_eq!(cfg.warmup, 7);
    assert_eq!(cfg.reps, 3);
    assert_eq!(cfg.aggregation, Aggregation::P95);
    assert!(cfg.pin_core0);
    let mut runner = Runner::new(cfg, false);
    assert_eq!(runner.config(), cfg);
    drive(&mut runner, &CLOCK);
    assert_eq!(runner.config(), cfg);
    assert!(!runner.has_cycles());
}

#[test]
fn default_config() {
    let d = BenchConfig::default();
    assert_eq!(d, BenchConfig::new(1, 10, Aggregation::Min, false));
}

#[test]
fn cycle_options_checked() {
    assert_eq!(check_cycle_options(0, true), Err(ConfigError::MissingAccesses));
    assert_eq!(check_cycle_options(0, false), Err(ConfigError::MissingAccesses));
    assert_eq!(check_cycle_options(4, false), Err(ConfigError::MissingCalibration));
    assert_eq!(check_cycle_options(4, true), Ok(()));
}

#[test]
fn sample_workloads() {
    a(2);
    assert_eq!(calcul(1423), 1423 + 4_999_950_000);
    assert!(!chronix::InstantTimer.has_cycles());
    chronix::pin_current_thread_to_core0();
}
