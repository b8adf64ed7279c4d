//! The ways in which evaluating a checked program can fail.

use vstd::prelude::*;

verus! {

/// Why an evaluation stopped.
#[derive(Debug, Clone, Copy, PartialEq, Eq, Structural)]
pub enum Error {
    Missing,
    InvalidState,
    NonBooleanCondition,
    PatternMismatch,
    UnknownVariable,
    InvalidFunction,
    InvalidArgCount,
}

} // verus!
