//! A Groth16 zk-SNARK over BLS12-381: rank-1 constraint systems, their
//! reduction to a quadratic arithmetic program, the trusted setup, the
//! prover and the verifier, and canonical encodings of keys and proofs.
//! Field and curve arithmetic and the pairing are delegated to arkworks;
//! the protocol logic on top of them is verified.
pub mod field;
pub mod group;
pub mod rng;
pub mod r1cs;
pub mod circuit;
pub mod qap;
pub mod keygen;
pub mod prover;
pub mod verification;
pub mod codec;
