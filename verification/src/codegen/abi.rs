//! Target properties and aggregate calling-convention policy.

use vstd::prelude::*;

verus! {

/// Target properties required by the Vinyl ABI.
#[derive(Debug, Clone, Copy, PartialEq, Eq, Structural)]
pub struct TargetData {
    /// Size of a native pointer in bytes.
    pub pointer_size: u32,
}

impl TargetData {
    /// Creates target data from a native pointer size.
    pub fn new(pointer_size: u32) -> (t: Self)
        ensures
            t.pointer_size == pointer_size,
    {
        TargetData { pointer_size }
    }
}

/// ABI representation of an aggregate value.
#[derive(Debug, Clone, Copy, PartialEq, Eq, Structural)]
pub enum AggregateAbi {
    /// The value is passed through a hidden or explicit memory pointer.
    Indirect,
    /// The value is passed in one or more integer registers.
    Registers { count: usize },
}

impl AggregateAbi {
    /// Number of register chunks of an ABI choice; zero for indirect values.
    pub open spec fn spec_register_count(self) -> usize {
        match self {
            AggregateAbi::Indirect => 0,
            AggregateAbi::Registers { count } => count,
        }
    }

    /// Returns the number of register chunks, or zero for indirect values.
    pub fn register_count(self) -> (n: usize)
        ensures
            n == self.spec_register_count(),
    {
        match self {
            AggregateAbi::Indirect => 0,
            AggregateAbi::Registers { count } => count,
        }
    }

    /// Returns whether the value is passed indirectly.
    pub fn is_indirect(self) -> (b: bool)
        ensures
            b <==> self is Indirect,
    {
        match self {
            AggregateAbi::Indirect => true,
            AggregateAbi::Registers { .. } => false,
        }
    }
}

} // verus!
