//! The wire format: for every type that travels between nodes or is stored,
//! its encoding, its parser and the proof that the two agree.

pub mod attestation;
pub mod block;
pub mod message;
pub mod laws;
