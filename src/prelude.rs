use vstd::prelude::*;

verus! {

/// Pinning is a best-effort hint that the portable build leaves undone; the platform pinning
/// lives beside the code that drives a run.
pub fn pin_current_thread_to_core0() {
}

} // verus!
