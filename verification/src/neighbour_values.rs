//! A query for runs of values that sit next to each other in memory, and
//! the shape of its answer.
use crate::memory::ReadFromBytes;
use crate::results::AddressValue;
use vstd::prelude::*;

verus! {

/// What to look for: a window size and the values expected inside it.
#[derive(Clone, Debug, PartialEq, Eq)]
pub struct NeighbourValuesQuery<T: ReadFromBytes> {
    pub window_size: usize,
    pub values: Vec<T>,
}

/// Where a matching window was found.
#[derive(Clone, Debug, PartialEq, Eq)]
pub struct NeighbourValues<T: ReadFromBytes> {
    pub window_size: usize,
    pub values: Vec<AddressValue<T>>,
}

} // verus!
