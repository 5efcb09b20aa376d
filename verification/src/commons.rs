//! What the steps of a round share: the data of the round and the errors.

use vstd::prelude::*;
use crate::bls::{BlsError, PublicKey};
use crate::ledger::{Attestation, Block, Header, Seed};
use crate::message::{ConsensusHeader, StepName, ValidationResult};

verus! {

/// Why a message was not taken in, or a step did not end.
#[derive(Clone, Copy, Debug, PartialEq, Eq)]
pub enum ConsensusError {
    InvalidMsgType,
    PastEvent,
    FutureEvent,
    InvalidPrevBlockHash(crate::ledger::Hash),
    NotCommitteeMember,
    InvalidSignature,
    /// The iteration that timed out.
    Timeout(u8),
}

/// Why the votes of a step do not prove a quorum.
#[derive(Clone, Copy, Debug, PartialEq, Eq, Structural)]
pub enum StepSigError {
    /// The voters do not hold the seats that the quorum asks for.
    VoteSetTooSmall,
    /// There is no voter whose key could be aggregated.
    EmptyApk,
    /// The step is not one in which votes are cast.
    InvalidType,
    /// Aggregating the keys or verifying the signature failed.
    VerificationFailed(BlsError),
}

/// The base timeout of each step, in milliseconds.
#[derive(Clone, Copy, Debug, PartialEq, Eq, Structural)]
pub struct TimeoutSet {
    pub proposal: u64,
    pub validation: u64,
    pub ratification: u64,
}

impl TimeoutSet {
    pub fn get(&self, step: StepName) -> (t: u64)
        ensures
            t == match step {
                StepName::Proposal => self.proposal,
                StepName::Validation => self.validation,
                StepName::Ratification => self.ratification,
            },
    {
        match step {
            StepName::Proposal => self.proposal,
            StepName::Validation => self.validation,
            StepName::Ratification => self.ratification,
        }
    }
}

/// The secret key of `bls12_381_bls`. It is carried, never looked into.
#[verifier::external_type_specification]
#[verifier::external_body]
pub struct ExBlsSecretKey(bls12_381_bls::SecretKey);

/// Copying a secret key. Nothing is claimed of the copy.
pub assume_specification[ <bls12_381_bls::SecretKey as Clone>::clone ](
    key: &bls12_381_bls::SecretKey,
) -> bls12_381_bls::SecretKey
;

/// A member of the committee that attested the tip, with its seats.
pub type Voter = (PublicKey, usize);

/// What a node knows when a round starts. It does not change during the
/// round.
#[derive(Clone, Debug)]
pub struct RoundUpdate {
    /// The round: one above the height of the tip.
    pub round: u64,
    /// The keys with which this node takes part.
    pub pubkey_bls: PublicKey,
    pub secret_key: bls12_381_bls::SecretKey,
    pub seed: Seed,
    pub hash: crate::ledger::Hash,
    pub state_root: crate::ledger::Hash,
    pub att: Attestation,
    pub att_voters: Vec<Voter>,
    pub timestamp: u64,
    pub base_timeouts: TimeoutSet,
}

impl RoundUpdate {
    /// The round that follows the block with header `tip_header`.
    pub fn new(
        pubkey_bls: PublicKey,
        secret_key: bls12_381_bls::SecretKey,
        tip_header: &Header,
        base_timeouts: TimeoutSet,
        att_voters: Vec<Voter>,
    ) -> (ru: RoundUpdate)
        requires
            tip_header.height < u64::MAX,
        ensures
            ru.round == tip_header.height + 1,
            ru.pubkey_bls == pubkey_bls,
            ru.secret_key == secret_key,
            ru.seed == tip_header.seed,
            ru.hash == tip_header.hash,
            ru.state_root == tip_header.state_hash,
            ru.att == tip_header.att,
            ru.timestamp == tip_header.timestamp,
            ru.att_voters == att_voters,
            ru.base_timeouts == base_timeouts,
    {
        let round = tip_header.height + 1;
        RoundUpdate {
            round,
            pubkey_bls,
            secret_key,
            att: tip_header.att,
            hash: tip_header.hash,
            seed: tip_header.seed,
            timestamp: tip_header.timestamp,
            base_timeouts,
            att_voters,
            state_root: tip_header.state_hash,
        }
    }

    /// The seed of the tip.
    pub fn seed(&self) -> (s: Seed)
        ensures
            s == self.seed,
    {
        self.seed
    }

    /// The hash of the tip.
    pub fn hash(&self) -> (h: crate::ledger::Hash)
        ensures
            h == self.hash,
    {
        self.hash
    }

    /// The attestation of the tip.
    pub fn att(&self) -> (a: &Attestation)
        ensures
            *a == self.att,
    {
        &self.att
    }

    /// The timestamp of the tip.
    pub fn timestamp(&self) -> (t: u64)
        ensures
            t == self.timestamp,
    {
        self.timestamp
    }

    /// The committee members that attested the tip.
    pub fn att_voters(&self) -> (v: &Vec<Voter>)
        ensures
            *v == self.att_voters,
    {
        &self.att_voters
    }

    /// The state root after the tip.
    pub fn state_root(&self) -> (r: crate::ledger::Hash)
        ensures
            r == self.state_root,
    {
        self.state_root
    }
}

/// What the steps of a round keep between iterations. A node supplies the
/// store; nothing is assumed of it.
pub trait Database {
    fn store_candidate_block(&mut self, b: Block);

    fn store_validation_result(&mut self, ch: &ConsensusHeader, vr: &ValidationResult);

    fn get_last_iter(&self) -> (crate::ledger::Hash, u8);

    fn store_last_iter(&mut self, data: (crate::ledger::Hash, u8));
}

} // verus!
