//! Verified core of a PLONK-style proof system over BN254: field and curve
//! values, multi-scalar multiplication, Kate commitments, the Fiat-Shamir
//! transcript and the verifier.

pub mod arithmetic_circuit;
pub mod batch;
pub mod bn254_scalar_multiplication;
pub mod bytes;
pub mod circuit_polynomials;
pub mod commitment_scheme;
pub mod errors;
pub mod evaluation_domain;
pub mod fft;
pub mod field;
pub mod group;
pub mod group_laws;
pub mod hash;
pub mod label_map;
pub mod manifest;
pub mod modular;
pub mod msm;
pub mod opening;
pub mod opening_batch;
pub mod persisted_key;
pub mod pippenger;
pub mod plonk_verifier;
pub mod polynomial;
pub mod polynomial_store;
pub mod protocol;
pub mod proving_key;
pub mod recursion;
pub mod reference_string;
pub mod settings;
pub mod transcript;
pub mod verification_key;
pub mod wnaf;
pub mod work_queue;
