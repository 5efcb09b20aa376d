//! Collecting the votes of a round until a quorum stands.

pub mod accumulator;
