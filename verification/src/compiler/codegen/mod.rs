//! What the code generator and the ownership analysis share about stack slots.

pub mod symbol;

use vstd::prelude::*;

verus! {

/// The ownership state of a stack slot.
#[derive(Debug, Clone, Copy, PartialEq, Eq, Structural)]
pub enum VariableState {
    Available,
    Moved,
    Borrowed,
    MutBorrowed,
}

} // verus!
