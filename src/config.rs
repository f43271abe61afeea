use vstd::prelude::*;
use vstd::string::StringSliceAdditionalSpecFns;

verus! {

/// The reduction applied to the timed samples.
#[derive(Clone, Copy, Debug, PartialEq, Eq, Structural)]
pub enum Aggregation {
    Min,
    Median,
    P95,
}

/// The parameters of one run; a runner keeps its own copy.
#[derive(Clone, Copy, Debug, PartialEq, Eq, Structural)]
pub struct BenchConfig {
    /// Untimed executions before the timed ones.
    pub warmup: u32,
    /// Timed executions, one sample each.
    pub reps: u32,
    pub aggregation: Aggregation,
    /// Whether to ask for the current thread to be pinned to the first core before measuring.
    pub pin_core0: bool,
}

/// The aggregation an option value names: `min`, `median` or `p95`, in lower case.
pub open spec fn aggregation_named(name: Seq<u8>) -> Option<Aggregation> {
    if name == seq!['m' as u8, 'i' as u8, 'n' as u8] {
        Some(Aggregation::Min)
    } else if name == seq!['m' as u8, 'e' as u8, 'd' as u8, 'i' as u8, 'a' as u8, 'n' as u8] {
        Some(Aggregation::Median)
    } else if name == seq!['p' as u8, '9' as u8, '5' as u8] {
        Some(Aggregation::P95)
    } else {
        None
    }
}

impl Aggregation {
    /// The aggregation named `name`, or `None` for any other text.
    pub fn from_name(name: &str) -> (r: Option<Aggregation>)
        ensures
            r == aggregation_named(name.spec_bytes()),
    {
        let b = name.as_bytes();
        if b.len() == 3 && b[0] == 'm' as u8 && b[1] == 'i' as u8 && b[2] == 'n' as u8 {
            assert(b@ =~= seq!['m' as u8, 'i' as u8, 'n' as u8]);
            Some(Aggregation::Min)
        } else if b.len() == 6 && b[0] == 'm' as u8 && b[1] == 'e' as u8 && b[2] == 'd' as u8 && b[3] == 'i' as u8
            && b[4] == 'a' as u8 && b[5] == 'n' as u8 {
            assert(b@ =~= seq!['m' as u8, 'e' as u8, 'd' as u8, 'i' as u8, 'a' as u8, 'n' as u8]);
            Some(Aggregation::Median)
        } else if b.len() == 3 && b[0] == 'p' as u8 && b[1] == '9' as u8 && b[2] == '5' as u8 {
            assert(b@ =~= seq!['p' as u8, '9' as u8, '5' as u8]);
            Some(Aggregation::P95)
        } else {
            proof {
                if b@.len() == 3 {
                    assert(b@ != seq!['m' as u8, 'i' as u8, 'n' as u8] ==> exists|i: int| 0 <= i < 3 && b@[i]
                        != seq!['m' as u8, 'i' as u8, 'n' as u8][i]);
                }
                assert(b@ == seq!['m' as u8, 'i' as u8, 'n' as u8] ==> b@[0] == 'm' as u8 && b@[1] == 'i' as u8 && b@[2]
                    == 'n' as u8);
                assert(b@ == seq!['p' as u8, '9' as u8, '5' as u8] ==> b@[0] == 'p' as u8 && b@[1] == '9' as u8 && b@[2]
                    == '5' as u8);
                assert(b@ == seq!['m' as u8, 'e' as u8, 'd' as u8, 'i' as u8, 'a' as u8, 'n' as u8] ==> b@[0] == 'm' as u8 && b@[1]
                    == 'e' as u8 && b@[2] == 'd' as u8 && b@[3] == 'i' as u8 && b@[4] == 'a' as u8 && b@[5] == 'n' as u8);
            }
            None
        }
    }
}

impl BenchConfig {
    /// A configuration from named options, each one absent taking its default: one warmup,
    /// ten repetitions, the minimum, no pinning. An aggregation name that is none of `min`,
    /// `median` and `p95` is refused rather than replaced.
    pub fn from_options(
        warmup: Option<u32>,
        reps: Option<u32>,
        agg: Option<&str>,
        pin: Option<bool>,
    ) -> (r: Result<BenchConfig, ConfigError>)
        ensures
            r is Err <==> (agg matches Some(name) && aggregation_named(name.spec_bytes()) is None),
            r is Err ==> r == Err::<BenchConfig, ConfigError>(ConfigError::UnknownAggregation),
            r matches Ok(c) ==> {
                &&& c.warmup == (match warmup {
                    Some(w) => w,
                    None => 1,
                })
                &&& c.reps == (match reps {
                    Some(n) => n,
                    None => 10,
                })
                &&& c.aggregation == (match agg {
                    Some(name) => aggregation_named(name.spec_bytes())->Some_0,
                    None => Aggregation::Min,
                })
                &&& c.pin_core0 == (match pin {
                    Some(p) => p,
                    None => false,
                })
            },
    {
        let aggregation = match agg {
            Some(name) => match Aggregation::from_name(name) {
                Some(a) => a,
                None => return Err(ConfigError::UnknownAggregation),
            },
            None => Aggregation::Min,
        };
        let warmup = match warmup {
            Some(w) => w,
            None => 1,
        };
        let reps = match reps {
            Some(n) => n,
            None => 10,
        };
        let pin_core0 = match pin {
            Some(p) => p,
            None => false,
        };
        Ok(BenchConfig { warmup, reps, aggregation, pin_core0 })
    }

    pub fn new(warmup: u32, reps: u32, aggregation: Aggregation, pin_core0: bool) -> (r: Self)
        ensures
            r.warmup == warmup,
            r.reps == reps,
            r.aggregation == aggregation,
            r.pin_core0 == pin_core0,
    {
        BenchConfig { warmup, reps, aggregation, pin_core0 }
    }
}

impl Default for BenchConfig {
    /// One warmup, ten repetitions, the minimum, no pinning.
    fn default() -> (r: Self)
        ensures
            r.warmup == 1,
            r.reps == 10,
            r.aggregation == Aggregation::Min,
            !r.pin_core0,
    {
        BenchConfig { warmup: 1, reps: 10, aggregation: Aggregation::Min, pin_core0: false }
    }
}

/// Why a run on the cycle counter may not start.
#[derive(Clone, Copy, Debug, PartialEq, Eq, Structural)]
pub enum ConfigError {
    /// No access count was declared; the per-access figures would divide by zero.
    MissingAccesses,
    /// No positive calibration was given; tick conversion would divide by zero.
    MissingCalibration,
    /// The aggregation option names none of the known reductions.
    UnknownAggregation,
}

/// A run on the cycle counter needs both a declared access count and a positive calibration;
/// a missing access count is reported first.
pub fn check_cycle_options(accesses: u32, calibrated: bool) -> (r: Result<(), ConfigError>)
    ensures
        r == Err::<(), ConfigError>(ConfigError::MissingAccesses) <==> accesses == 0,
        r == Err::<(), ConfigError>(ConfigError::MissingCalibration) <==> accesses != 0
            && !calibrated,
        r is Ok <==> accesses != 0 && calibrated,
{
    if accesses == 0 {
        Err(ConfigError::MissingAccesses)
    } else if !calibrated {
        Err(ConfigError::MissingCalibration)
    } else {
        Ok(())
    }
}

} // verus!
