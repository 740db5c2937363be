//! The aggregated R1CS proof system.
pub mod constraint_system;
pub mod mega_check;
pub mod r1cs_proof;
pub mod r1cs_prover;
pub mod r1cs_verifier;

pub use self::constraint_system::{ConstraintSystem, LinearCombination, Variable};
pub use self::r1cs_proof::R1CSProof;
pub use self::r1cs_prover::{Prover, ProverCS};
pub use self::r1cs_verifier::{Verifier, VerifierCS};
