//! The failure taxonomy of the toolkit: every failure is hard and final, and
//! identical inputs reproduce identical failures.

use vstd::prelude::*;

verus! {

/// A hard, non-recoverable failure of circuit assembly, key setup, proving or
/// verification.
#[derive(Clone, Copy, Debug, PartialEq, Eq, Structural)]
pub enum TaigaError {
    /// A requested circuit bound exceeds the available universal parameters.
    SetupError,
    /// A witness fails an asserted equality: a caller-data bug, never retried.
    ConstraintViolation,
    /// The proving step was handed key material of the wrong shape.
    ProofGenerationFailure,
    /// A proof, public input and verifying key do not belong together.
    VerificationFailure,
}

} // verus!
