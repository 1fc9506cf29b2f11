use vstd::prelude::*;

verus! {

/// The length of the interval each point of a series covers.
#[derive(Clone, Copy, Debug, PartialEq, Eq, Structural)]
pub enum TimeRange {
    Second,
    FiveMinute,
    Minute,
    Hour,
    Day,
    Month,
}

} // verus!
