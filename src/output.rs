use vstd::prelude::*;

verus! {

/// The reporting sink that writes to standard output.
#[derive(Clone, Copy, Debug)]
pub struct Stdout;

} // verus!
