//! Checking that the votes of a step prove a quorum.

pub mod verifiers;
