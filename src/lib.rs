//! Polynomial commitments over BLS12-381 G1, computed both from a powers-of-tau
//! reference string and from its Lagrange-basis counterpart.
pub mod field;
pub mod group;
pub mod poly;
pub mod utils;
pub mod prover;
pub mod srs;
pub mod serialize;
