//! Admission of the messages of a step.

use vstd::prelude::*;
use crate::codec::bytes_eq;
use crate::commons::{ConsensusError, RoundUpdate};
use crate::ledger::PublicKeyBytes;
use crate::message::{spec_compare, Message, Status, StepName};
use crate::user::committee::{is_seated, Committee, CommitteeView};

verus! {

/// Whether a step has an output to give or still collects.
#[derive(Clone, Debug, PartialEq, Eq)]
pub enum HandleMsgOutput {
    Pending,
    Ready(Message),
}

/// The committees of the steps of a round that were drawn so far, by the
/// number of the step.
#[derive(Debug)]
pub struct RoundCommittees {
    pub committees: std::collections::HashMap<u16, Committee>,
}

impl View for RoundCommittees {
    type V = Map<u16, Committee>;

    open spec fn view(&self) -> Map<u16, Committee> {
        self.committees@
    }
}

impl RoundCommittees {
    pub fn new() -> (rc: RoundCommittees)
        ensures
            rc@ == Map::<u16, Committee>::empty(),
    {
        RoundCommittees { committees: std::collections::HashMap::new() }
    }

    /// The committee of the step, if it was drawn.
    pub fn get_committee(&self, step: u16) -> (c: Option<&Committee>)
        ensures
            match c {
                Some(committee) => self@.contains_key(step) && *committee == self@[step],
                None => !self@.contains_key(step),
            },
    {
        broadcast use vstd::std_specs::hash::group_hash_axioms;

        self.committees.get(&step)
    }

    /// Keeps the committee of a step, in place of the one kept before.
    pub fn insert(&mut self, step: u16, committee: Committee)
        ensures
            final(self)@ == old(self)@.insert(step, committee),
    {
        broadcast use vstd::std_specs::hash::group_hash_axioms;

        let _ = self.committees.insert(step, committee);
    }
}

/// Whether a message may enter the step `(round, iteration, step)` of a node
/// whose tip has the hash `tip_hash`, before its payload is looked at.
///
/// A message without a signer is of the wrong type. One that belongs to an
/// earlier or a later step is turned away as past or future. One of the
/// present step must build on the tip and come from a member of the
/// committee.
pub open spec fn spec_admission(
    msg: Message,
    round: u64,
    tip_hash: Seq<u8>,
    iteration: u8,
    step: StepName,
    committee: CommitteeView,
) -> Result<(), ConsensusError> {
    match msg.spec_signer() {
        None => Err(ConsensusError::InvalidMsgType),
        Some(signer) => match spec_compare(
            msg.header.round,
            msg.spec_step(),
            round,
            step.spec_to_step(iteration),
        ) {
            Status::Past => Err(ConsensusError::PastEvent),
            Status::Future => Err(ConsensusError::FutureEvent),
            Status::Present => if msg.header.prev_block_hash@ != tip_hash {
                Err(ConsensusError::InvalidPrevBlockHash(msg.header.prev_block_hash))
            } else if !is_seated(committee.members, signer@) {
                Err(ConsensusError::NotCommitteeMember)
            } else {
                Ok(())
            },
        },
    }
}

/// Decides whether a message may enter the step, before its payload is
/// looked at.
pub fn check_admission(
    msg: &Message,
    ru: &RoundUpdate,
    iteration: u8,
    step: StepName,
    committee: &Committee,
) -> (res: Result<(), ConsensusError>)
    ensures
        res == spec_admission(*msg, ru.round, ru.hash@, iteration, step, committee@),
{
    let signer = match msg.get_signer() {
        Some(s) => s,
        None => return Err(ConsensusError::InvalidMsgType),
    };
    match msg.compare(ru.round, iteration, step) {
        Status::Past => Err(ConsensusError::PastEvent),
        Status::Present => {
            let msg_tip = msg.header.prev_block_hash;
            let tip = ru.hash();
            if !bytes_eq(msg_tip.as_slice(), tip.as_slice()) {
                return Err(ConsensusError::InvalidPrevBlockHash(msg_tip));
            }
            if !committee.is_member(&signer) {
                return Err(ConsensusError::NotCommitteeMember);
            }
            Ok(())
        },
        Status::Future => Err(ConsensusError::FutureEvent),
    }
}

/// What the check of a message comes to, given what the step says of its
/// payload: the step is asked only about messages that may enter.
pub open spec fn spec_is_valid(
    admission: Result<(), ConsensusError>,
    verified: Result<(), ConsensusError>,
) -> Result<(), ConsensusError> {
    match admission {
        Err(e) => Err(e),
        Ok(()) => verified,
    }
}

/// Decides on a message, given what the step says of its payload.
pub fn is_valid_given(
    msg: &Message,
    ru: &RoundUpdate,
    iteration: u8,
    step: StepName,
    committee: &Committee,
    verified: Result<(), ConsensusError>,
) -> (res: Result<(), ConsensusError>)
    ensures
        res == spec_is_valid(
            spec_admission(*msg, ru.round, ru.hash@, iteration, step, committee@),
            verified,
        ),
{
    match check_admission(msg, ru, iteration, step, committee) {
        Err(e) => Err(e),
        Ok(()) => verified,
    }
}

/// What a step of the round does with the messages that reach it. Each step
/// implements it; nothing is assumed of what a step decides.
pub trait MsgHandler {
    /// What the step says of the payload of a message. Each step gives its
    /// own meaning to this; the trait fixes none.
    open spec fn spec_verify(
        &self,
        msg: Message,
        iteration: u8,
        round_committees: RoundCommittees,
    ) -> Result<(), ConsensusError> {
        arbitrary()
    }

    /// Checks a message: first whether it may enter the step at all, then,
    /// if it may, what the step says of its payload. A message that may not
    /// enter is turned away without the step being asked.
    fn is_valid(
        &self,
        msg: &Message,
        ru: &RoundUpdate,
        iteration: u8,
        step: StepName,
        committee: &Committee,
        round_committees: &RoundCommittees,
    ) -> (res: Result<(), ConsensusError>)
        ensures
            res == spec_is_valid(
                spec_admission(*msg, ru.round, ru.hash@, iteration, step, committee@),
                self.spec_verify(*msg, iteration, *round_committees),
            ),
    {
        match check_admission(msg, ru, iteration, step, committee) {
            Err(e) => Err(e),
            Ok(()) => self.verify(msg, iteration, round_committees),
        }
    }

    /// Verifies the payload of a message that may enter the step.
    fn verify(&self, msg: &Message, iteration: u8, round_committees: &RoundCommittees) -> (res:
        Result<(), ConsensusError>)
        ensures
            res == self.spec_verify(*msg, iteration, *round_committees),
    ;

    /// Takes in a verified message of the present iteration.
    fn collect(
        &mut self,
        msg: Message,
        ru: &RoundUpdate,
        committee: &Committee,
        generator: Option<PublicKeyBytes>,
    ) -> Result<HandleMsgOutput, ConsensusError>;

    /// Takes in a verified message of an earlier iteration.
    fn collect_from_past(
        &mut self,
        msg: Message,
        ru: &RoundUpdate,
        committee: &Committee,
        generator: Option<PublicKeyBytes>,
    ) -> Result<HandleMsgOutput, ConsensusError>;

    /// Says what the step gives when its time is up.
    fn handle_timeout(&self) -> Result<HandleMsgOutput, ConsensusError>;
}

} // verus!
