//! Shares.
use vstd::prelude::*;

verus! {

/// A share of a whole, as two counts.
#[derive(Clone, Copy, PartialEq, Eq, Structural, Debug)]
pub struct Ratio {
    /// What is shared out.
    pub part: u128,
    /// The whole that it is part of.
    pub whole: u128,
}

} // verus!
