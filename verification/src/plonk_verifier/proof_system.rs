//! The proof systems that a verifier can belong to.

pub mod plonk;
