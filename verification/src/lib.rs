//! Consensus core of a proof-of-stake chain: sortition, vote aggregation,
//! quorum verification, block acceptance and the wire format of its messages.

pub mod config;
pub mod codec;
pub mod num;
pub mod ledger;
pub mod message;
pub mod crypto;
pub mod bls;
pub mod encoding;
pub mod user;
pub mod commons;
pub mod quorum;
pub mod agreement;
pub mod msg_handler;
pub mod phase;
pub mod chain;
pub mod network;
pub mod recovery;
pub mod transfer;
