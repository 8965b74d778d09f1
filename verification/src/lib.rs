//! A behaviour-tree compiler.
//!
//! An authored tree of [`tree::BehaviourNode`]s is flattened into a stream of
//! fixed-width instruction words. Leaf and decorator names are resolved
//! against the registries of a [`context::BehaviourContext`], so the compiled
//! [`tree::BehaviourTree`] holds numeric handles only.
use vstd::prelude::*;

pub mod context;
pub mod flatten;
pub mod identifier;
pub mod instruction;
pub mod registry;
pub mod state;
pub mod stream;
pub mod tree;

verus! {

/// Adds two machine-sized numbers whose sum is representable.
pub fn add(left: usize, right: usize) -> (sum: usize)
    requires
        left + right <= usize::MAX,
    ensures
        sum == left + right,
{
    left + right
}

} // verus!
