//! The constants of the protocol.

use vstd::prelude::*;

verus! {

/// The iterations a round may take before it gives up.
pub const CONSENSUS_MAX_ITER: u8 = 50;

/// How many ancestors the rolling finality rule looks at.
pub const CONSENSUS_ROLLING_FINALITY_THRESHOLD: u64 = 20;

/// The shortest base timeout of a step, in milliseconds.
pub const MIN_STEP_TIMEOUT: u64 = 7_000;

/// The longest base timeout of a step, in milliseconds.
pub const MAX_STEP_TIMEOUT: u64 = 40_000;

/// Candidate blocks this far below the tip, or further, are deleted.
pub const CANDIDATES_DELETION_OFFSET: u64 = 10;

/// How many rounds above the next one a message may be and still be kept.
pub const OFFSET_FUTURE_MSGS: u64 = 5;

/// The number of peers that a request for a resource is first sent to.
pub const REDUNDANCY_PEER_COUNT: usize = 8;

/// How many senders may wait for a slot in a queue before the count is reset.
pub const MAX_PENDING_SENDERS: u64 = 1000;

} // verus!
