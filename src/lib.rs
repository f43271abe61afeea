pub mod config;
pub mod output;
pub mod prelude;
pub mod runner;
pub mod stats;
pub mod timer;
pub mod workloads;

pub use config::{Aggregation, BenchConfig, ConfigError, check_cycle_options};
pub use output::Stdout;
pub use prelude::pin_current_thread_to_core0;
pub use runner::{Event, ProtocolError, Runner, Step, TickStat, aggregate};
pub use stats::{median_mut, minimum, percentile_index, percentile_mut, select_nth};
pub use timer::InstantTimer;
