//! Snarky ceremonies: an updatable structured reference string (SRS) for
//! Groth16 over BLS12-381, with proofs of knowledge of every update and a
//! verifier for the whole transcript.
//!
//! Group elements are reasoned about through their discrete logarithm with
//! respect to the fixed generators: for a point `p` of a prime-order group,
//! `log1(p)` is the unique `k < order()` with `p = k * G`.

pub mod backend;
pub mod constraints;
pub mod error;
pub mod flow;
pub mod laws;
pub mod polynomial;
pub mod prover;
pub mod srs;
