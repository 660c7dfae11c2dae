//! The two recoverable outcomes of a failed slot resolution.

use vstd::prelude::*;

verus! {

/// Error returned from the checked accessors.
#[derive(Eq, PartialEq, Ord, PartialOrd, Clone, Copy, Debug, Structural)]
pub enum SplitMutError {
    /// No value was found for the specified key.
    NoValue,
    /// The same value has already been returned earlier in the same call
    /// or session.
    SameValue,
}

impl SplitMutError {
    /// A short human-readable account of the error.
    pub fn description(&self) -> (r: &'static str)
        ensures
            *self == SplitMutError::NoValue ==> r@ == "No value"@,
            *self == SplitMutError::SameValue ==> r@ == "Duplicate values"@,
    {
        match self {
            SplitMutError::NoValue => "No value",
            SplitMutError::SameValue => "Duplicate values",
        }
    }
}

} // verus!
