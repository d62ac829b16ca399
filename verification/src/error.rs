//! Errors of state machines.

use vstd::prelude::*;

verus! {

/// A state machine, or what serves it, could not do its work.
#[derive(Debug, Clone, Copy, PartialEq, Eq)]
pub struct RexError;

/// A value could not be read as one of another type.
#[derive(Debug, Clone, Copy, PartialEq, Eq)]
pub struct ConversionError;

impl RexError {
    /// Writes this error.
    pub fn to_string(&self) -> (text: String)
        ensures
            text@ == "StateMachineError"@,
    {
        "StateMachineError".to_owned()
    }
}

} // verus!
