use vstd::prelude::*;
use crate::config::{Aggregation, BenchConfig};
use crate::stats::{least, median_pair, percentile_of, minimum, median_mut, percentile_mut};

verus! {

/// What the caller must do next to carry the run forward.
#[derive(Clone, Copy, Debug, PartialEq, Eq, Structural)]
pub enum Step {
    /// Ask for the thread to be pinned (best effort), then report `Completed`.
    PinCore,
    /// Run the workload once, untimed, then report `Completed`.
    Warmup,
    /// Emit the timer's ordering barrier, then report `Completed`.
    Barrier,
    /// Read the timer and report `Clock` with the reading.
    ReadClock,
    /// Run the workload once between the two clock readings, then report `Completed`.
    RunTimed,
    /// Run the workload a last time, untimed, keep its result, then report `Completed`.
    RunFinal,
    /// Nothing is left to do.
    Done,
}

/// What the caller reports after carrying out a step.
#[derive(Clone, Copy, Debug, PartialEq, Eq, Structural)]
pub enum Event {
    Completed,
    Clock(u64),
}

/// Why an event was refused; a refused event leaves the runner as it was.
#[derive(Clone, Copy, Debug, PartialEq, Eq, Structural)]
pub enum ProtocolError {
    /// A clock reading where none was asked for, or the other way round.
    UnexpectedEvent,
    /// The end reading of a repetition is below its start reading.
    ClockWentBackwards,
    /// The total of the raw tick deltas no longer fits in 64 bits.
    TotalOverflow,
    /// The run is over.
    Finished,
}

/// Steps spent on pinning: one if pinning was asked for.
pub open spec fn pin_steps(cfg: BenchConfig) -> int {
    if cfg.pin_core0 { 1 } else { 0 }
}

/// Position of the first step of the first repetition.
pub open spec fn timed_start(cfg: BenchConfig) -> int {
    pin_steps(cfg) + cfg.warmup
}

/// Position just after the last step of the last repetition.
pub open spec fn timed_end(cfg: BenchConfig) -> int {
    timed_start(cfg) + 4 * cfg.reps
}

/// The four steps of one repetition: barrier, start reading, workload, end reading.
pub open spec fn rep_step(j: int) -> Step {
    if j == 0 {
        Step::Barrier
    } else if j == 1 {
        Step::ReadClock
    } else if j == 2 {
        Step::RunTimed
    } else {
        Step::ReadClock
    }
}

/// The `n`-th step of a run, counting from zero: pinning if asked for, the warmups, the
/// repetitions one after the other, the final execution, then nothing.
pub open spec fn step_at(cfg: BenchConfig, n: int) -> Step {
    if n < pin_steps(cfg) {
        Step::PinCore
    } else if n < timed_start(cfg) {
        Step::Warmup
    } else if n < timed_end(cfg) {
        rep_step((n - timed_start(cfg)) % 4)
    } else if n == timed_end(cfg) {
        Step::RunFinal
    } else {
        Step::Done
    }
}

/// Whether the `n`-th step is the start reading of a repetition.
pub open spec fn is_start_read(cfg: BenchConfig, n: int) -> bool {
    timed_start(cfg) <= n < timed_end(cfg) && (n - timed_start(cfg)) % 4 == 1
}

/// Whether the `n`-th step is the end reading of a repetition.
pub open spec fn is_end_read(cfg: BenchConfig, n: int) -> bool {
    timed_start(cfg) <= n < timed_end(cfg) && (n - timed_start(cfg)) % 4 == 3
}

/// Repetitions finished before the `n`-th step.
pub open spec fn reps_done(cfg: BenchConfig, n: int) -> int {
    if n <= timed_start(cfg) {
        0
    } else if n >= timed_end(cfg) {
        cfg.reps as int
    } else {
        (n - timed_start(cfg)) / 4
    }
}

/// The sum of the samples.
pub open spec fn sum_of(s: Seq<u64>) -> int
    decreases s.len(),
{
    if s.len() == 0 {
        0
    } else {
        sum_of(s.drop_last()) + s.last()
    }
}

/// The aggregate of the samples as a pair whose mean is the value: both halves equal except for
/// the median of an even count.
pub open spec fn aggregate_of(s: Seq<u64>, agg: Aggregation) -> (u64, u64) {
    match agg {
        Aggregation::Min => (least(s), least(s)),
        Aggregation::Median => median_pair(s),
        Aggregation::P95 => (percentile_of(s, 95), percentile_of(s, 95)),
    }
}

/// The outcome of a run, in raw ticks.
#[derive(Clone, Copy, Debug)]
pub struct TickStat {
    /// The aggregate as a pair whose mean is the value; `None` when no repetition ran.
    pub aggregated: Option<(u64, u64)>,
    /// Logical operations per execution, as declared by the caller.
    pub accesses: u32,
    /// The sum of all raw tick deltas, present only for a timer that counts cycles.
    pub total_ticks: Option<u64>,
    pub aggregation: Aggregation,
}

/// The run protocol: it says which step comes next and collects one sample per repetition,
/// the difference between its end and start readings.
pub struct Runner {
    cfg: BenchConfig,
    has_cycles: bool,
    pos: u64,
    start: u64,
    samples: Vec<u64>,
    total: u64,
    readings: Ghost<Seq<u64>>,
}

impl Runner {
    pub closed spec fn spec_cfg(&self) -> BenchConfig {
        self.cfg
    }

    pub closed spec fn spec_has_cycles(&self) -> bool {
        self.has_cycles
    }

    /// Steps carried out so far.
    pub closed spec fn spec_pos(&self) -> int {
        self.pos as int
    }

    /// The last start reading.
    pub closed spec fn spec_start(&self) -> u64 {
        self.start
    }

    /// The samples collected so far, in order.
    pub closed spec fn spec_samples(&self) -> Seq<u64> {
        self.samples@
    }

    /// The clock readings reported so far, in order.
    pub closed spec fn spec_readings(&self) -> Seq<u64> {
        self.readings@
    }

    pub closed spec fn spec_total(&self) -> u64 {
        self.total
    }

    /// The step due now.
    pub open spec fn spec_step(&self) -> Step {
        step_at(self.spec_cfg(), self.spec_pos())
    }

    /// Same samples, readings, total and start reading as `other`.
    pub open spec fn same_data(&self, other: Self) -> bool {
        &&& self.spec_start() == other.spec_start()
        &&& self.spec_samples() == other.spec_samples()
        &&& self.spec_readings() == other.spec_readings()
        &&& self.spec_total() == other.spec_total()
    }

    pub closed spec fn wf(&self) -> bool {
        let n = self.pos as int;
        let cfg = self.cfg;
        &&& n <= timed_end(cfg) + 1
        &&& self.samples@.len() == reps_done(cfg, n)
        &&& self.total == sum_of(self.samples@)
        &&& self.readings@.len() == 2 * self.samples@.len() + (if timed_start(cfg) <= n
            < timed_end(cfg) && (n - timed_start(cfg)) % 4 >= 2 {
            1int
        } else {
            0int
        })
        &&& forall|i: int|
            0 <= i < self.samples@.len() ==> #[trigger] self.samples@[i] == self.readings@[2 * i + 1]
                - self.readings@[2 * i]
        &&& (self.readings@.len() % 2 == 1 ==> self.start == self.readings@.last())
    }

    /// A runner at the first step of a run with `cfg`, for a timer that counts cycles or not.
    pub fn new(cfg: BenchConfig, has_cycles: bool) -> (r: Self)
        ensures
            r.wf(),
            r.spec_cfg() == cfg,
            r.spec_has_cycles() == has_cycles,
            r.spec_pos() == 0,
            r.spec_samples() == Seq::<u64>::empty(),
            r.spec_readings() == Seq::<u64>::empty(),
            r.spec_total() == 0,
    {
        Runner {
            cfg,
            has_cycles,
            pos: 0,
            start: 0,
            samples: Vec::new(),
            total: 0,
            readings: Ghost(Seq::empty()),
        }
    }

    /// The configuration, unchanged from construction.
    pub fn config(&self) -> (r: BenchConfig)
        ensures
            r == self.spec_cfg(),
    {
        self.cfg
    }

    /// Whether the timer counts cycles.
    pub fn has_cycles(&self) -> (r: bool)
        ensures
            r == self.spec_has_cycles(),
    {
        self.has_cycles
    }

    /// The step to carry out next.
    pub fn next_step(&self) -> (r: Step)
        requires
            self.wf(),
        ensures
            r == step_at(self.spec_cfg(), self.spec_pos()),
    {
        let p: u64 = if self.cfg.pin_core0 { 1 } else { 0 };
        let ts: u64 = p + self.cfg.warmup as u64;
        let te: u64 = ts + 4 * (self.cfg.reps as u64);
        if self.pos < p {
            Step::PinCore
        } else if self.pos < ts {
            Step::Warmup
        } else if self.pos < te {
            let j = (self.pos - ts) % 4;
            if j == 0 {
                Step::Barrier
            } else if j == 1 {
                Step::ReadClock
            } else if j == 2 {
                Step::RunTimed
            } else {
                Step::ReadClock
            }
        } else if self.pos == te {
            Step::RunFinal
        } else {
            Step::Done
        }
    }

    /// Carries the run one step forward on the event reported for the current step. A clock
    /// reading is due exactly at the two reading steps of a repetition; the end reading adds
    /// its difference from the start reading as a sample and to the total. A refused event
    /// changes nothing.
    pub fn advance(&mut self, e: Event) -> (r: Result<(), ProtocolError>)
        requires
            old(self).wf(),
        ensures
            final(self).wf(),
            final(self).spec_cfg() == old(self).spec_cfg(),
            final(self).spec_has_cycles() == old(self).spec_has_cycles(),
            r is Err ==> *final(self) == *old(self),
            r is Ok ==> final(self).spec_pos() == old(self).spec_pos() + 1,
            (r == Err::<(), ProtocolError>(ProtocolError::Finished)) <==> old(self).spec_step()
                == Step::Done,
            old(self).spec_step() != Step::Done ==> ((r == Err::<(), ProtocolError>(
                ProtocolError::UnexpectedEvent,
            )) <==> ((e is Clock) != (old(self).spec_step() == Step::ReadClock))),
            old(self).spec_step() != Step::Done && (e is Clock) == (old(self).spec_step()
                == Step::ReadClock) && !is_end_read(old(self).spec_cfg(), old(self).spec_pos())
                ==> r is Ok,
            r == Err::<(), ProtocolError>(ProtocolError::ClockWentBackwards) || r == Err::<
                (),
                ProtocolError,
            >(ProtocolError::TotalOverflow) ==> e is Clock && is_end_read(
                old(self).spec_cfg(),
                old(self).spec_pos(),
            ),
            old(self).spec_step() != Step::ReadClock && r is Ok ==> final(self).same_data(
                *old(self),
            ),
            e is Clock && is_start_read(old(self).spec_cfg(), old(self).spec_pos())
                ==> {
                &&& r is Ok
                &&& final(self).spec_start() == e->Clock_0
                &&& final(self).spec_samples() == old(self).spec_samples()
                &&& final(self).spec_total() == old(self).spec_total()
                &&& final(self).spec_readings() == old(self).spec_readings().push(e->Clock_0)
            },
            e is Clock && is_end_read(old(self).spec_cfg(), old(self).spec_pos())
                ==> {
                let start = old(self).spec_start();
                &&& (r == Err::<(), ProtocolError>(ProtocolError::ClockWentBackwards)) <==> e->Clock_0
                    < start
                &&& (r == Err::<(), ProtocolError>(ProtocolError::TotalOverflow)) <==> (e->Clock_0 >= start
                    && old(self).spec_total() + (e->Clock_0 - start) > u64::MAX)
                &&& (e->Clock_0 >= start && old(self).spec_total() + (e->Clock_0 - start)
                    <= u64::MAX) ==> r is Ok
                &&& r is Ok ==> {
                    &&& final(self).spec_samples() == old(self).spec_samples().push(
                        (e->Clock_0 - start) as u64,
                    )
                    &&& final(self).spec_total() == old(self).spec_total() + (e->Clock_0 - start)
                    &&& final(self).spec_readings() == old(self).spec_readings().push(e->Clock_0)
                }
            },
    {
        let step = self.next_step();
        let ghost n = self.pos as int;
        let ghost cfg = self.cfg;
        proof {
            lemma_step_position(cfg, n);
        }
        match step {
            Step::Done => Err(ProtocolError::Finished),
            Step::ReadClock => {
                match e {
                    Event::Completed => Err(ProtocolError::UnexpectedEvent),
                    Event::Clock(t) => {
                        let p: u64 = if self.cfg.pin_core0 { 1 } else { 0 };
                        let ts: u64 = p + self.cfg.warmup as u64;
                        if (self.pos - ts) % 4 == 1 {
                            self.start = t;
                            self.readings = Ghost(self.readings@.push(t));
                            self.pos = self.pos + 1;
                            Ok(())
                        } else {
                            if t < self.start {
                                return Err(ProtocolError::ClockWentBackwards);
                            }
                            let delta = t - self.start;
                            if self.total > u64::MAX - delta {
                                return Err(ProtocolError::TotalOverflow);
                            }
                            let ghost old_samples = self.samples@;
                            let ghost old_readings = self.readings@;
                            self.total = self.total + delta;
                            self.samples.push(delta);
                            self.readings = Ghost(self.readings@.push(t));
                            self.pos = self.pos + 1;
                            proof {
                                assert(self.samples@.drop_last() =~= old_samples);
                                assert forall|i: int| 0 <= i < self.samples@.len() implies #[trigger] self.samples@[i]
                                    == self.readings@[2 * i + 1] - self.readings@[2 * i] by {
                                    if i < old_samples.len() {
                                        assert(self.samples@[i] == old_samples[i]);
                                    } else {
                                        assert(old_readings.last() == self.readings@[2 * i]);
                                    }
                                }
                            }
                            Ok(())
                        }
                    },
                }
            },
            _ => {
                match e {
                    Event::Clock(_) => Err(ProtocolError::UnexpectedEvent),
                    Event::Completed => {
                        self.pos = self.pos + 1;
                        Ok(())
                    },
                }
            },
        }
    }

    /// The number of samples collected so far.
    pub fn sample_count(&self) -> (r: usize)
        ensures
            r == self.spec_samples().len(),
    {
        self.samples.len()
    }

    /// Once every repetition has run, the aggregate of the samples under the configured
    /// aggregation, and, for a timer that counts cycles, the total of the raw tick deltas;
    /// before that, `None`.
    pub fn summary(&self, accesses: u32) -> (r: Option<TickStat>)
        requires
            self.wf(),
        ensures
            r is Some <==> self.spec_pos() >= timed_end(self.spec_cfg()),
            r matches Some(st) ==> {
                &&& self.spec_samples().len() == self.spec_cfg().reps
                &&& self.spec_readings().len() == 2 * self.spec_cfg().reps
                &&& forall|i: int|
                    0 <= i < self.spec_samples().len() ==> #[trigger] self.spec_samples()[i]
                        == self.spec_readings()[2 * i + 1] - self.spec_readings()[2 * i]
                &&& (st.aggregated is None <==> self.spec_cfg().reps == 0)
                &&& (st.aggregated matches Some(pair) ==> pair == aggregate_of(
                    self.spec_samples(),
                    self.spec_cfg().aggregation,
                ))
                &&& st.total_ticks == (if self.spec_has_cycles() {
                    Some(self.spec_total())
                } else {
                    None
                })
                &&& self.spec_total() == sum_of(self.spec_samples())
                &&& st.accesses == accesses
                &&& st.aggregation == self.spec_cfg().aggregation
            },
    {
        let p: u64 = if self.cfg.pin_core0 { 1 } else { 0 };
        let te: u64 = p + self.cfg.warmup as u64 + 4 * (self.cfg.reps as u64);
        if self.pos < te {
            return None;
        }
        let aggregated = aggregate(&self.samples, self.cfg.aggregation);
        let total_ticks = if self.has_cycles { Some(self.total) } else { None };
        Some(TickStat { aggregated, accesses, total_ticks, aggregation: self.cfg.aggregation })
    }
}

/// The aggregate of the samples as a pair whose mean is the value, or `None` for no samples.
pub fn aggregate(samples: &Vec<u64>, agg: Aggregation) -> (r: Option<(u64, u64)>)
    ensures
        r is None <==> samples@.len() == 0,
        r matches Some(pair) ==> pair == aggregate_of(samples@, agg),
{
    match agg {
        Aggregation::Min => match minimum(samples) {
            Some(m) => Some((m, m)),
            None => None,
        },
        Aggregation::Median => {
            let mut v = samples.clone();
            assert(v@ =~= samples@);
            median_mut(&mut v)
        },
        Aggregation::P95 => {
            let mut v = samples.clone();
            assert(v@ =~= samples@);
            match percentile_mut(&mut v, 95) {
                Some(x) => Some((x, x)),
                None => None,
            }
        },
    }
}

/// A run takes its steps in this order: pinning if asked for, every warmup, then for each
/// repetition in turn the barrier, the start reading, the workload and the end reading, then
/// the final execution, and nothing after it.
pub proof fn lemma_run_order(cfg: BenchConfig, i: int, w: int)
    requires
        0 <= i < cfg.reps,
        0 <= w < cfg.warmup,
    ensures
        cfg.pin_core0 ==> step_at(cfg, 0) == Step::PinCore,
        step_at(cfg, pin_steps(cfg) + w) == Step::Warmup,
        step_at(cfg, timed_start(cfg) + 4 * i) == Step::Barrier,
        step_at(cfg, timed_start(cfg) + 4 * i + 1) == Step::ReadClock,
        is_start_read(cfg, timed_start(cfg) + 4 * i + 1),
        step_at(cfg, timed_start(cfg) + 4 * i + 2) == Step::RunTimed,
        step_at(cfg, timed_start(cfg) + 4 * i + 3) == Step::ReadClock,
        is_end_read(cfg, timed_start(cfg) + 4 * i + 3),
        step_at(cfg, timed_end(cfg)) == Step::RunFinal,
        step_at(cfg, timed_end(cfg) + 1) == Step::Done,
{
    vstd::arithmetic::div_mod::lemma_mod_multiples_vanish(i, 0, 4);
    vstd::arithmetic::div_mod::lemma_mod_multiples_vanish(i, 1, 4);
    vstd::arithmetic::div_mod::lemma_mod_multiples_vanish(i, 2, 4);
    vstd::arithmetic::div_mod::lemma_mod_multiples_vanish(i, 3, 4);
    assert(4 * i + 3 < 4 * cfg.reps);
}

/// Where the `n`-th step stands within its repetition, and how the count of finished
/// repetitions moves with one more step.
proof fn lemma_step_position(cfg: BenchConfig, n: int)
    requires
        0 <= n,
    ensures
        timed_start(cfg) <= n < timed_end(cfg) ==> {
            let d = n - timed_start(cfg);
            &&& 0 <= d / 4 < cfg.reps
            &&& d == 4 * (d / 4) + d % 4
            &&& 0 <= d % 4 < 4
            &&& reps_done(cfg, n) == d / 4
            &&& reps_done(cfg, n + 1) == if d % 4 == 3 { d / 4 + 1 } else { d / 4 }
            &&& (d + 1) % 4 == if d % 4 == 3 { 0 } else { d % 4 + 1 }
        },
        n < timed_start(cfg) ==> reps_done(cfg, n) == 0 && reps_done(cfg, n + 1) == 0,
        n >= timed_end(cfg) ==> reps_done(cfg, n) == cfg.reps && reps_done(cfg, n + 1)
            == cfg.reps,
{
    if timed_start(cfg) <= n < timed_end(cfg) {
        let d = n - timed_start(cfg);
        vstd::arithmetic::div_mod::lemma_fundamental_div_mod(d, 4);
        vstd::arithmetic::div_mod::lemma_fundamental_div_mod(d + 1, 4);
        assert(0 <= d % 4 < 4);
        assert(d / 4 < cfg.reps);
        if d + 1 == 4 * cfg.reps {
            assert(d % 4 == 3);
        }
    }
}

} // verus!
