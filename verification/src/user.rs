//! The validator set and what is drawn from it: committees and generators.

pub mod provisioners;
pub mod sortition;
pub mod committee;
