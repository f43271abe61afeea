use vstd::prelude::*;

verus! {

/// The wall-clock timer: its ticks are nanoseconds since a process-wide epoch.
#[derive(Clone, Copy, Debug)]
pub struct InstantTimer;

impl InstantTimer {
    /// Wall-clock ticks are not cycles.
    pub fn has_cycles(&self) -> (r: bool)
        ensures
            !r,
    {
        false
    }
}

} // verus!
