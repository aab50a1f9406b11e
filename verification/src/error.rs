//! Errors reported by the decoders and builders.

use vstd::prelude::*;

verus! {

/// Why a decode or build step gave up.
#[derive(Clone, Copy, Debug, PartialEq, Eq, Structural)]
pub enum DecodeError {
    /// The input ended before the expected number of bytes or pixels was produced.
    TruncatedInput,
    /// The caller handed over input that breaks a documented precondition.
    InvalidInput,
}

impl DecodeError {
    /// The text that describes the error.
    pub open spec fn spec_message(self) -> Seq<char> {
        match self {
            DecodeError::TruncatedInput => "input ended before all data was read"@,
            DecodeError::InvalidInput => "input violates a documented precondition"@,
        }
    }

    /// A short human-readable description of the error.
    pub fn message(&self) -> (text: &'static str)
        ensures
            text@ == self.spec_message(),
    {
        match self {
            DecodeError::TruncatedInput => "input ended before all data was read",
            DecodeError::InvalidInput => "input violates a documented precondition",
        }
    }
}

} // verus!
