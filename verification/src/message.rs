//! The messages that committee members exchange during a round.

use vstd::prelude::*;
use crate::ledger::{
    Attestation, AttestationView, Block, BlockView, PublicKeyBytes, Signature, StepVotes,
    StepVotesView, Vote, VoteView,
};

verus! {

/// The three steps of an iteration, in the order in which they run.
#[derive(Clone, Copy, Debug, PartialEq, Eq, Hash, Structural)]
pub enum StepName {
    Proposal,
    Validation,
    Ratification,
}

impl StepName {
    /// The place of the step inside its iteration: 0, 1 or 2.
    pub open spec fn index(self) -> nat {
        match self {
            StepName::Proposal => 0,
            StepName::Validation => 1,
            StepName::Ratification => 2,
        }
    }

    /// The number of the step counted from the start of the round.
    pub open spec fn spec_to_step(self, iteration: u8) -> nat {
        iteration as nat * 3 + self.index()
    }

    pub fn to_step(self, iteration: u8) -> (step: u16)
        ensures
            step == self.spec_to_step(iteration),
    {
        let base: u16 = iteration as u16 * 3;
        match self {
            StepName::Proposal => base,
            StepName::Validation => base + 1,
            StepName::Ratification => base + 2,
        }
    }
}

/// How a message stands in time against the step that a node is in.
#[derive(Clone, Copy, Debug, PartialEq, Eq, Structural)]
pub enum Status {
    Past,
    Present,
    Future,
}

/// What every consensus message says about where it belongs.
#[derive(Clone, Copy, Debug, PartialEq, Eq)]
pub struct ConsensusHeader {
    pub prev_block_hash: crate::ledger::Hash,
    pub round: u64,
    pub iteration: u8,
    pub block_hash: crate::ledger::Hash,
}

pub struct ConsensusHeaderView {
    pub prev_block_hash: Seq<u8>,
    pub round: u64,
    pub iteration: u8,
    pub block_hash: Seq<u8>,
}

impl View for ConsensusHeader {
    type V = ConsensusHeaderView;

    open spec fn view(&self) -> ConsensusHeaderView {
        ConsensusHeaderView {
            prev_block_hash: self.prev_block_hash@,
            round: self.round,
            iteration: self.iteration,
            block_hash: self.block_hash@,
        }
    }
}

/// Where `round` stands against `against`.
pub open spec fn spec_compare_round(round: u64, against: u64) -> Status {
    if round == against {
        Status::Present
    } else if round > against {
        Status::Future
    } else {
        Status::Past
    }
}

/// Where `(round, step)` stands against `(against_round, against_step)`:
/// the round decides, and the step within the same round.
pub open spec fn spec_compare(round: u64, step: nat, against_round: u64, against_step: nat)
    -> Status {
    if round < against_round {
        Status::Past
    } else if round > against_round {
        Status::Future
    } else if step < against_step {
        Status::Past
    } else if step > against_step {
        Status::Future
    } else {
        Status::Present
    }
}

impl ConsensusHeader {
    pub fn compare_round(&self, round: u64) -> (s: Status)
        ensures
            s == spec_compare_round(self.round, round),
    {
        if self.round == round {
            Status::Present
        } else if self.round > round {
            Status::Future
        } else {
            Status::Past
        }
    }
}

/// Who signed a message, and the signature.
#[derive(Clone, Copy, Debug, PartialEq, Eq)]
pub struct SignInfo {
    pub signer: PublicKeyBytes,
    pub signature: Signature,
}

pub struct SignInfoView {
    pub signer: Seq<u8>,
    pub signature: Seq<u8>,
}

impl View for SignInfo {
    type V = SignInfoView;

    open spec fn view(&self) -> SignInfoView {
        SignInfoView { signer: self.signer@, signature: self.signature@ }
    }
}

/// How the validation step ended.
#[derive(Clone, Copy, Debug, PartialEq, Eq, Structural)]
pub enum QuorumType {
    Valid,
    Invalid,
    NoCandidate,
    NoQuorum,
}

/// The outcome of the validation step that a ratification vote refers to.
#[derive(Clone, Copy, Debug, PartialEq, Eq)]
pub struct ValidationResult {
    pub quorum: QuorumType,
    pub vote: Vote,
    pub sv: StepVotes,
}

pub struct ValidationResultView {
    pub quorum: QuorumType,
    pub vote: VoteView,
    pub sv: StepVotesView,
}

impl View for ValidationResult {
    type V = ValidationResultView;

    open spec fn view(&self) -> ValidationResultView {
        ValidationResultView { quorum: self.quorum, vote: self.vote@, sv: self.sv@ }
    }
}

impl ValidationResult {
    pub fn new(sv: StepVotes, vote: Vote, quorum: QuorumType) -> (r: ValidationResult)
        ensures
            r.sv == sv,
            r.vote == vote,
            r.quorum == quorum,
    {
        ValidationResult { quorum, vote, sv }
    }
}

/// A vote of the validation step.
#[derive(Clone, Copy, Debug, PartialEq, Eq)]
pub struct Validation {
    pub header: ConsensusHeader,
    pub vote: Vote,
    pub sign_info: SignInfo,
}

pub struct ValidationView {
    pub header: ConsensusHeaderView,
    pub vote: VoteView,
    pub sign_info: SignInfoView,
}

impl View for Validation {
    type V = ValidationView;

    open spec fn view(&self) -> ValidationView {
        ValidationView { header: self.header@, vote: self.vote@, sign_info: self.sign_info@ }
    }
}

/// A vote of the ratification step.
#[derive(Clone, Copy, Debug, PartialEq, Eq)]
pub struct Ratification {
    pub header: ConsensusHeader,
    pub vote: Vote,
    pub timestamp: u64,
    pub validation_result: ValidationResult,
    pub sign_info: SignInfo,
}

pub struct RatificationView {
    pub header: ConsensusHeaderView,
    pub vote: VoteView,
    pub timestamp: u64,
    pub validation_result: ValidationResultView,
    pub sign_info: SignInfoView,
}

impl View for Ratification {
    type V = RatificationView;

    open spec fn view(&self) -> RatificationView {
        RatificationView {
            header: self.header@,
            vote: self.vote@,
            timestamp: self.timestamp,
            validation_result: self.validation_result@,
            sign_info: self.sign_info@,
        }
    }
}

/// The block that the generator of an iteration proposes.
#[derive(Clone, Debug, PartialEq, Eq)]
pub struct Candidate {
    pub candidate: Block,
}

pub struct CandidateView {
    pub candidate: BlockView,
}

impl View for Candidate {
    type V = CandidateView;

    open spec fn view(&self) -> CandidateView {
        CandidateView { candidate: self.candidate@ }
    }
}

/// The claim that an iteration ended, with the votes that show it.
#[derive(Clone, Copy, Debug, PartialEq, Eq)]
pub struct Quorum {
    pub header: ConsensusHeader,
    pub att: Attestation,
}

impl Quorum {
    /// The vote that the quorum was reached on.
    pub fn vote(&self) -> (v: &Vote)
        ensures
            *v == match self.att.result {
                crate::ledger::RatificationResult::Fail(w) => w,
                crate::ledger::RatificationResult::Success(w) => w,
            },
    {
        self.att.result.vote()
    }
}

pub struct QuorumView {
    pub header: ConsensusHeaderView,
    pub att: AttestationView,
}

impl View for Quorum {
    type V = QuorumView;

    open spec fn view(&self) -> QuorumView {
        QuorumView { header: self.header@, att: self.att@ }
    }
}

/// A request for resources that is passed from peer to peer until one of
/// them has what is asked for.
#[derive(Clone, Debug, PartialEq, Eq)]
pub struct GetResource {
    /// The hashes of what is asked for.
    pub inventory: Vec<crate::ledger::Hash>,
    /// The address of the peer that asks, as text.
    pub requester: Vec<u8>,
    /// The second at which the request ends.
    pub ttl_as_sec: u64,
    /// How many hops the request may still make.
    pub hops_limit: u16,
}

pub struct GetResourceView {
    pub inventory: Seq<Seq<u8>>,
    pub requester: Seq<u8>,
    pub ttl_as_sec: u64,
    pub hops_limit: u16,
}

pub open spec fn hashes_view(l: Seq<crate::ledger::Hash>) -> Seq<Seq<u8>> {
    Seq::new(l.len(), |i: int| l[i]@)
}

impl View for GetResource {
    type V = GetResourceView;

    open spec fn view(&self) -> GetResourceView {
        GetResourceView {
            inventory: hashes_view(self.inventory@),
            requester: self.requester@,
            ttl_as_sec: self.ttl_as_sec,
            hops_limit: self.hops_limit,
        }
    }
}

impl GetResource {
    pub fn new(
        inventory: Vec<crate::ledger::Hash>,
        requester: Vec<u8>,
        ttl_as_sec: u64,
        hops_limit: u16,
    ) -> (r: GetResource)
        ensures
            r == (GetResource { inventory, requester, ttl_as_sec, hops_limit }),
    {
        GetResource { inventory, requester, ttl_as_sec, hops_limit }
    }

    /// Whether the request is still alive at the second `now`.
    pub fn is_alive(&self, now: u64) -> (alive: bool)
        ensures
            alive == (now < self.ttl_as_sec && self.hops_limit > 0),
    {
        now < self.ttl_as_sec && self.hops_limit > 0
    }
}

/// The kinds of messages, as the network tells them apart.
#[derive(Clone, Copy, Debug, PartialEq, Eq, Structural)]
pub enum Topics {
    GetResource,
    Candidate,
    Validation,
    Ratification,
    Quorum,
    Unknown,
}

impl Topics {
    /// The byte that stands for the topic on the wire.
    pub open spec fn spec_to_u8(self) -> u8 {
        match self {
            Topics::GetResource => 8,
            Topics::Candidate => 15,
            Topics::Validation => 17,
            Topics::Ratification => 18,
            Topics::Quorum => 19,
            Topics::Unknown => 255,
        }
    }

    pub fn to_u8(self) -> (b: u8)
        ensures
            b == self.spec_to_u8(),
    {
        match self {
            Topics::GetResource => 8,
            Topics::Candidate => 15,
            Topics::Validation => 17,
            Topics::Ratification => 18,
            Topics::Quorum => 19,
            Topics::Unknown => 255,
        }
    }

    /// The topic that a byte stands for, if it stands for one.
    pub open spec fn spec_from_u8(b: u8) -> Option<Topics> {
        if b == 8 {
            Some(Topics::GetResource)
        } else if b == 15 {
            Some(Topics::Candidate)
        } else if b == 17 {
            Some(Topics::Validation)
        } else if b == 18 {
            Some(Topics::Ratification)
        } else if b == 19 {
            Some(Topics::Quorum)
        } else if b == 255 {
            Some(Topics::Unknown)
        } else {
            None
        }
    }

    pub fn from_u8(b: u8) -> (t: Option<Topics>)
        ensures
            t == Self::spec_from_u8(b),
    {
        if b == 8 {
            Some(Topics::GetResource)
        } else if b == 15 {
            Some(Topics::Candidate)
        } else if b == 17 {
            Some(Topics::Validation)
        } else if b == 18 {
            Some(Topics::Ratification)
        } else if b == 19 {
            Some(Topics::Quorum)
        } else if b == 255 {
            Some(Topics::Unknown)
        } else {
            None
        }
    }
}

/// What a message carries.
#[derive(Clone, Debug, PartialEq, Eq)]
pub enum Payload {
    Candidate(Candidate),
    Validation(Validation),
    Ratification(Ratification),
    Quorum(Quorum),
    GetResource(GetResource),
    Empty,
}

pub enum PayloadView {
    Candidate(CandidateView),
    Validation(ValidationView),
    Ratification(RatificationView),
    Quorum(QuorumView),
    GetResource(GetResourceView),
    Empty,
}

impl View for Payload {
    type V = PayloadView;

    open spec fn view(&self) -> PayloadView {
        match *self {
            Payload::Candidate(c) => PayloadView::Candidate(c@),
            Payload::Validation(v) => PayloadView::Validation(v@),
            Payload::Ratification(r) => PayloadView::Ratification(r@),
            Payload::Quorum(q) => PayloadView::Quorum(q@),
            Payload::GetResource(g) => PayloadView::GetResource(g@),
            Payload::Empty => PayloadView::Empty,
        }
    }
}

impl PayloadView {
    /// The topic under which the payload travels.
    pub open spec fn topic(self) -> Topics {
        match self {
            PayloadView::Candidate(_) => Topics::Candidate,
            PayloadView::Validation(_) => Topics::Validation,
            PayloadView::Ratification(_) => Topics::Ratification,
            PayloadView::Quorum(_) => Topics::Quorum,
            PayloadView::GetResource(_) => Topics::GetResource,
            PayloadView::Empty => Topics::Unknown,
        }
    }
}

/// What the transport knows about a message: how many hops it may still make.
#[derive(Clone, Copy, Debug, PartialEq, Eq, Structural)]
pub struct Metadata {
    pub height: u8,
}

/// A consensus message as it enters or leaves a node.
#[derive(Clone, Debug, PartialEq, Eq)]
pub struct Message {
    pub header: ConsensusHeader,
    pub payload: Payload,
    pub metadata: Option<Metadata>,
}

/// A message as contracts see what of it travels: the header and the
/// payload.
pub struct MessageView {
    pub header: ConsensusHeaderView,
    pub payload: PayloadView,
}

impl View for Message {
    type V = MessageView;

    open spec fn view(&self) -> MessageView {
        MessageView { header: self.header@, payload: self.payload@ }
    }
}

impl Message {
    /// A request for resources, as a message of no round.
    pub fn new_get_resource(request: GetResource) -> (msg: Message)
        ensures
            msg.payload == Payload::GetResource(request),
            msg.metadata.is_none(),
            msg.header.round == 0,
    {
        Message {
            header: ConsensusHeader {
                prev_block_hash: [0u8; 32],
                round: 0,
                iteration: 0,
                block_hash: [0u8; 32],
            },
            payload: Payload::GetResource(request),
            metadata: None,
        }
    }

    /// The topic under which the message travels.
    pub fn topic(&self) -> (t: Topics)
        ensures
            t == self@.payload.topic(),
    {
        match &self.payload {
            Payload::Candidate(_) => Topics::Candidate,
            Payload::Validation(_) => Topics::Validation,
            Payload::Ratification(_) => Topics::Ratification,
            Payload::Quorum(_) => Topics::Quorum,
            Payload::GetResource(_) => Topics::GetResource,
            Payload::Empty => Topics::Unknown,
        }
    }

    /// The step that the message belongs to, if it is a step message: a
    /// candidate belongs to the proposal, a vote to its voting step.
    pub open spec fn spec_step_name(&self) -> Option<StepName> {
        match self.payload {
            Payload::Candidate(_) => Some(StepName::Proposal),
            Payload::Validation(_) => Some(StepName::Validation),
            Payload::Ratification(_) => Some(StepName::Ratification),
            _ => None,
        }
    }

    /// The number of the message's step within its round; 0 for a message
    /// that belongs to no step.
    pub open spec fn spec_step(&self) -> nat {
        match self.spec_step_name() {
            Some(name) => name.spec_to_step(self.header.iteration),
            None => 0,
        }
    }

    /// The signer's key bytes: the generator for a candidate, the voter for
    /// a vote, nobody for anything else.
    pub open spec fn spec_signer(&self) -> Option<PublicKeyBytes> {
        match self.payload {
            Payload::Candidate(c) => Some(c.candidate.header.generator_bls_pubkey),
            Payload::Validation(v) => Some(v.sign_info.signer),
            Payload::Ratification(r) => Some(r.sign_info.signer),
            _ => None,
        }
    }

    pub fn get_step(&self) -> (step: u16)
        ensures
            step == self.spec_step(),
    {
        match &self.payload {
            Payload::Candidate(_) => StepName::Proposal.to_step(self.header.iteration),
            Payload::Validation(_) => StepName::Validation.to_step(self.header.iteration),
            Payload::Ratification(_) => StepName::Ratification.to_step(self.header.iteration),
            _ => 0,
        }
    }

    pub fn get_signer(&self) -> (signer: Option<PublicKeyBytes>)
        ensures
            signer == self.spec_signer(),
    {
        match &self.payload {
            Payload::Candidate(c) => Some(c.candidate.header.generator_bls_pubkey),
            Payload::Validation(v) => Some(v.sign_info.signer),
            Payload::Ratification(r) => Some(r.sign_info.signer),
            _ => None,
        }
    }

    /// Where the message stands against the given round, iteration and step.
    pub fn compare(&self, round: u64, iteration: u8, step: StepName) -> (s: Status)
        ensures
            s == spec_compare(
                self.header.round,
                self.spec_step(),
                round,
                step.spec_to_step(iteration),
            ),
    {
        let mine = self.get_step();
        let theirs = step.to_step(iteration);
        if self.header.round < round {
            Status::Past
        } else if self.header.round > round {
            Status::Future
        } else if mine < theirs {
            Status::Past
        } else if mine > theirs {
            Status::Future
        } else {
            Status::Present
        }
    }
}

} // verus!
