//! Results of a poll cycle that the protocol logic reports per point.
use vstd::prelude::*;

verus! {

/// A point that could not be read in a poll cycle, with the reason.
#[derive(Debug, Clone, PartialEq, Eq)]
pub struct PointFailure {
    pub point_id: u32,
    pub error: String,
}

impl PointFailure {
    /// A failure of `point_id` with the message `error`.
    pub fn with_error(point_id: u32, error: &str) -> (f: PointFailure)
        ensures
            f.point_id == point_id,
            f.error@ == error@,
    {
        PointFailure { point_id, error: error.to_owned() }
    }
}

} // verus!
