//! Outcomes of running a node, and the state reserved for an interpreter.
use vstd::prelude::*;

verus! {

/// What running a node yields.
#[derive(Debug, PartialEq, Eq, Structural)]
pub enum TreeResult {
    Failure,
    Success,
    Running,
}

/// The running instances of one compiled tree. Reserved for an interpreter;
/// the compiler neither builds nor reads it.
pub struct TreeState {
    executions: Vec<ExecutionState>,
}

/// One running instance: where it stands in the instruction stream and the
/// positions it came through. Reserved for an interpreter.
pub struct ExecutionState {
    previous: Vec<usize>,
    position: usize,
}

} // verus!
