//! Dual-gate custody: threshold authorization with authenticated member
//! contributions.
//!
//! A signature cannot always be distributed, but an authorization can. Two gates
//! must both pass over the same canonical message for an operation to go through:
//! each approving member signs a contribution envelope, and the signed evaluation
//! shares reconstruct the affine authorization value `k1 * x + k2` of coefficients
//! that no single party knows.
pub mod answers;
pub mod arith;
pub mod backend;
pub mod binding;
pub mod bytes;
pub mod curve;
pub mod decoding;
pub mod field;
pub mod handout;
pub mod laws;
pub mod linear;
pub mod messages;
pub mod openings;
pub mod pedersen;
pub mod poly;
pub mod prime;
pub mod protocol;
pub mod random;
pub mod recovery;
pub mod robust;
pub mod secrecy;
pub mod setup;
pub mod shamir;
pub mod signature;
