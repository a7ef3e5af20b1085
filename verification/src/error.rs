use vstd::prelude::*;

verus! {

/// The ways in which the engine refuses work.
#[derive(Clone, Copy, Debug, PartialEq, Eq, Structural)]
pub enum IncreaseError {
    /// The schedule parameters do not describe any window.
    InvalidParameters,
    /// A sample lies outside the time bounds that the engine was created with.
    OutOfRangeSample,
    /// A window holds two or more samples that all share one timestamp, so
    /// no rate can be derived from them.
    DegenerateWindow,
    /// Two partial states cannot be combined.
    UnmergeablePartials,
}

impl IncreaseError {
    /// A short description of the error.
    pub fn message(&self) -> (text: &'static str)
        ensures
            text@ == self.message_spec(),
    {
        match self {
            IncreaseError::InvalidParameters => "invalid schedule parameters",
            IncreaseError::OutOfRangeSample => "sample time outside the schedule bounds",
            IncreaseError::DegenerateWindow => "window without observed duration",
            IncreaseError::UnmergeablePartials => "partial states cannot be merged",
        }
    }

    /// The text of [`IncreaseError::message`].
    pub open spec fn message_spec(&self) -> Seq<char> {
        match self {
            IncreaseError::InvalidParameters => "invalid schedule parameters"@,
            IncreaseError::OutOfRangeSample => "sample time outside the schedule bounds"@,
            IncreaseError::DegenerateWindow => "window without observed duration"@,
            IncreaseError::UnmergeablePartials => "partial states cannot be merged"@,
        }
    }
}

} // verus!
