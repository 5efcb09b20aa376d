//! The chain as a node keeps it: accepting blocks, labelling them, reverting.

pub mod acceptor;
pub mod future_msgs;
pub mod metrics;
