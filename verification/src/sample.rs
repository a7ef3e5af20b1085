use vstd::prelude::*;

verus! {

/// One reading of a counter: the instant it was taken and the value read.
#[derive(Clone, Copy, Debug, PartialEq, Eq, Structural)]
pub struct Sample {
    pub timestamp: i64,
    pub value: u64,
}

impl Sample {
    pub fn new(timestamp: i64, value: u64) -> (sample: Sample)
        ensures
            sample == (Sample { timestamp, value }),
    {
        Sample { timestamp, value }
    }
}

} // verus!
