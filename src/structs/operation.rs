use vstd::prelude::*;

verus! {

/// The side of the book an order is meant for.
#[derive(Clone, Copy, Debug, PartialEq, Eq, Structural)]
pub enum Operation {
    Buy,
    Sell,
}

} // verus!
