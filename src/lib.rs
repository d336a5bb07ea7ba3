//! Privacy-preserving aggregation of encrypted interaction signals: ElGamal
//! over the Ristretto group, policy-weighted homomorphic aggregation, a
//! verifier for proofs of correct decryption, and the per-account state
//! machine that orders these steps.
pub mod group;
pub mod elgamal;
pub mod decryption_proof;
pub mod state;
pub mod codec;
pub mod processor;
pub mod confirmation;
