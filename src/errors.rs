//! Errors of the proof systems.
use vstd::prelude::*;

verus! {

/// Errors of the folding arguments.
#[derive(Clone, Copy, Debug, PartialEq, Eq)]
pub enum ProofError {
    /// A well-formed proof that does not pass the check.
    VerificationError,
    /// A malformed encoding.
    FormatError,
    /// Vector lengths or generator capacity that do not fit the statement.
    InvalidGeneratorsLength,
}

/// Errors of the constraint-system protocol.
#[derive(Clone, Debug, PartialEq, Eq)]
pub enum R1CSError {
    /// Not enough generators for the number of constraints.
    InvalidGeneratorsLength,
    /// A malformed encoding.
    FormatError,
    /// A well-formed proof that does not pass the check.
    VerificationError,
    /// A variable has no assignment.
    MissingAssignment,
    /// A gadget failed, for the stated reason.
    GadgetError { description: String },
}

impl R1CSError {
    /// The constraint-system error that a folding-argument error stands for.
    pub open spec fn from_proof_error_spec(e: ProofError) -> R1CSError {
        match e {
            ProofError::VerificationError => R1CSError::VerificationError,
            ProofError::FormatError => R1CSError::FormatError,
            ProofError::InvalidGeneratorsLength => R1CSError::InvalidGeneratorsLength,
        }
    }

    /// Maps a folding-argument error.
    pub fn from_proof_error(e: ProofError) -> (r: R1CSError)
        ensures
            r == Self::from_proof_error_spec(e),
    {
        match e {
            ProofError::VerificationError => R1CSError::VerificationError,
            ProofError::FormatError => R1CSError::FormatError,
            ProofError::InvalidGeneratorsLength => R1CSError::InvalidGeneratorsLength,
        }
    }
}

} // verus!
