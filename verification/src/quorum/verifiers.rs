//! Verification of the votes that an attestation carries.
//!
//! The voters are named by a bitset over the committee of the step. Their
//! seats must reach the quorum that the vote asks for, and their aggregated
//! key must verify the aggregate signature over the header, the step and the
//! vote.

use vstd::prelude::*;
use crate::bls::{aggregate_keys, bls_apk_verify, key_bytes_of, spec_aggregate, verify_aggregate};
use crate::commons::StepSigError;
use crate::config::CONSENSUS_MAX_ITER;
use crate::ledger::{PublicKeyBytes, Seed, StepVotes, StepVotesView, Vote, VoteView};
use crate::message::{ConsensusHeader, ConsensusHeaderView, Quorum, StepName};
use crate::user::committee::{
    seats_total, selected, spec_committee, spec_generator, spec_majority,
    spec_super_majority, Cluster, Committee, CommitteeSet, CommitteeView, Seats,
};
use crate::user::provisioners::Members;
use crate::user::sortition::{credits_of, keys_view, Config, ConfigView};

verus! {

/// The seats that voted, and the seats that were needed.
#[derive(Clone, Copy, Debug, Default, PartialEq, Eq, Structural)]
pub struct QuorumResult {
    pub total: usize,
    pub target_quorum: usize,
}

impl QuorumResult {
    pub open spec fn spec_quorum_reached(&self) -> bool {
        self.total >= self.target_quorum
    }

    /// Whether the voters hold the seats that were needed.
    pub fn quorum_reached(&self) -> (reached: bool)
        ensures
            reached == self.spec_quorum_reached(),
    {
        self.total >= self.target_quorum
    }
}

/// What tells the signatures of the validation step from all others.
pub open spec fn validation_sign_seed() -> Seq<u8> {
    seq![1u8]
}

/// What tells the signatures of the ratification step from all others.
pub open spec fn ratification_sign_seed() -> Seq<u8> {
    seq![2u8]
}

/// The bytes that the voters of a step sign: the header, the seed of the
/// step, the vote.
pub open spec fn signed_message(header: ConsensusHeaderView, step: StepName, vote: VoteView) -> Seq<
    u8,
>
    recommends
        step != StepName::Proposal,
{
    header.encode() + (if step == StepName::Validation {
        validation_sign_seed()
    } else {
        ratification_sign_seed()
    }) + vote.encode()
}

/// The keys of the members, in order.
pub open spec fn keys_of(s: Seats) -> Seq<Seq<u8>> {
    Seq::new(s.len(), |i: int| s[i].0)
}

/// The aggregated key of the voters. Without voters there is none.
pub open spec fn spec_aggregate_pks(voters: Seats) -> Result<Seq<u8>, StepSigError> {
    if voters.len() == 0 {
        Err(StepSigError::EmptyApk)
    } else {
        match spec_aggregate(keys_of(voters)) {
            Ok(apk) => Ok(apk),
            Err(e) => Err(StepSigError::VerificationFailed(e)),
        }
    }
}

/// Whether `signature` is the aggregate signature of the step's voters with
/// aggregated key `apk`. No votes are cast in the proposal step.
pub open spec fn spec_verify_step_signature(
    header: ConsensusHeaderView,
    step: StepName,
    vote: VoteView,
    apk: Seq<u8>,
    signature: Seq<u8>,
) -> Result<(), StepSigError> {
    if step == StepName::Proposal {
        Err(StepSigError::InvalidType)
    } else {
        match bls_apk_verify(apk, signature, signed_message(header, step, vote)) {
            Ok(()) => Ok(()),
            Err(e) => Err(StepSigError::VerificationFailed(e)),
        }
    }
}

/// The members of the committee that the bitset names.
pub open spec fn voters_of(committee: CommitteeView, bitset: u64) -> Seats {
    selected(committee.members, bitset, committee.members.len() as int)
}

/// The seats that the vote needs: the super-majority for a valid block, the
/// majority for every other outcome.
pub open spec fn target_quorum(committee: CommitteeView, vote: VoteView) -> nat {
    match vote {
        VoteView::Valid(_) => spec_super_majority(committee.credits),
        _ => spec_majority(committee.credits),
    }
}

/// A validation step that ended without quorum, and whose votes name
/// nobody, has no quorum to show: that is how a failed iteration is
/// recorded.
pub open spec fn skips_quorum(step: StepName, vote: VoteView, bitset: u64) -> bool {
    step == StepName::Validation && vote == VoteView::NoQuorum && bitset == 0
}

/// What the verification of the votes of a step comes to: the seats that
/// voted and the seats needed, or the reason why the votes do not count.
pub open spec fn spec_verify_votes(
    header: ConsensusHeaderView,
    step: StepName,
    vote: VoteView,
    step_votes: StepVotesView,
    committee: CommitteeView,
) -> Result<(nat, nat), StepSigError> {
    let voters = voters_of(committee, step_votes.bitset);
    let total = seats_total(voters);
    let target = target_quorum(committee, vote);
    if !skips_quorum(step, vote, step_votes.bitset) && total < target {
        Err(StepSigError::VoteSetTooSmall)
    } else if step_votes.bitset == 0 {
        Ok((total, target))
    } else {
        match spec_aggregate_pks(voters) {
            Err(e) => Err(e),
            Ok(apk) => match spec_verify_step_signature(
                header,
                step,
                vote,
                apk,
                step_votes.aggregate_signature,
            ) {
                Err(e) => Err(e),
                Ok(()) => Ok((total, target)),
            },
        }
    }
}

impl Cluster {
    /// Aggregates the keys of the members into one key, handed back in its
    /// compressed form.
    pub fn aggregate_pks(&self) -> (res: Result<[u8; 96], StepSigError>)
        ensures
            match res {
                Ok(apk) => spec_aggregate_pks(self@) == Ok::<Seq<u8>, StepSigError>(apk@),
                Err(e) => spec_aggregate_pks(self@) == Err::<Seq<u8>, StepSigError>(e),
            },
    {
        let keys = self.keys();
        assert(key_bytes_of(keys@) =~= keys_of(self@));
        match aggregate_keys(&keys) {
            None => Err(StepSigError::EmptyApk),
            Some(Ok(apk)) => Ok(apk),
            Some(Err(e)) => Err(StepSigError::VerificationFailed(e)),
        }
    }
}

/// Verifies the aggregate signature of a step under the aggregated key of
/// its voters.
pub fn verify_step_signature(
    header: &ConsensusHeader,
    step: StepName,
    vote: &Vote,
    apk: &[u8; 96],
    signature: &[u8; 48],
) -> (res: Result<(), StepSigError>)
    ensures
        res == spec_verify_step_signature(header@, step, vote@, apk@, signature@),
{
    let sign_seed: u8 = match step {
        StepName::Validation => 1,
        StepName::Ratification => 2,
        StepName::Proposal => return Err(StepSigError::InvalidType),
    };
    let mut msg = header.signable();
    msg.push(sign_seed);
    vote.write(&mut msg);
    assert(msg@ =~= signed_message(header@, step, vote@));
    match verify_aggregate(apk, signature, msg.as_slice()) {
        Ok(()) => Ok(()),
        Err(e) => Err(StepSigError::VerificationFailed(e)),
    }
}

/// Verifies the votes of one step against the committee of that step.
pub fn verify_votes(
    header: &ConsensusHeader,
    step: StepName,
    vote: &Vote,
    step_votes: &StepVotes,
    committee: &Committee,
) -> (res: Result<QuorumResult, StepSigError>)
    ensures
        match res {
            Ok(q) => spec_verify_votes(header@, step, vote@, step_votes@, committee@) == Ok::<
                (nat, nat),
                StepSigError,
            >((q.total as nat, q.target_quorum as nat)),
            Err(e) => spec_verify_votes(header@, step, vote@, step_votes@, committee@) == Err::<
                (nat, nat),
                StepSigError,
            >(e),
        },
{
    let bitset = step_votes.bitset;
    let sub_committee = committee.intersect(bitset);
    let total = committee.total_occurrences(&sub_committee);
    let target_quorum = match vote {
        Vote::Valid(_) => committee.super_majority_quorum(),
        _ => committee.majority_quorum(),
    };
    let quorum_result = QuorumResult { total, target_quorum };
    let no_quorum = match vote {
        Vote::NoQuorum => true,
        _ => false,
    };
    let validation = match step {
        StepName::Validation => true,
        _ => false,
    };
    let skip_quorum = validation && no_quorum && bitset == 0;
    if !skip_quorum && !quorum_result.quorum_reached() {
        return Err(StepSigError::VoteSetTooSmall);
    }
    if bitset > 0 {
        let apk = match sub_committee.aggregate_pks() {
            Ok(apk) => apk,
            Err(e) => return Err(e),
        };
        match verify_step_signature(
            header,
            step,
            vote,
            &apk,
            step_votes.aggregate_signature().inner(),
        ) {
            Ok(()) => {},
            Err(e) => return Err(e),
        }
    }
    Ok(quorum_result)
}

/// Votes for a valid block that verify come from voters that hold the
/// super-majority of the seats, and their aggregate signature verifies under
/// their aggregated key.
pub proof fn law_quorum_soundness(
    header: ConsensusHeaderView,
    step: StepName,
    hash: Seq<u8>,
    step_votes: StepVotesView,
    committee: CommitteeView,
)
    requires
        spec_verify_votes(header, step, VoteView::Valid(hash), step_votes, committee) is Ok,
    ensures
        seats_total(voters_of(committee, step_votes.bitset)) >= spec_super_majority(
            committee.credits,
        ),
        step_votes.bitset != 0,
        spec_aggregate_pks(voters_of(committee, step_votes.bitset)) matches Ok(apk)
            && bls_apk_verify(
            apk,
            step_votes.aggregate_signature,
            signed_message(header, step, VoteView::Valid(hash)),
        ) is Ok,
{
    let voters = voters_of(committee, step_votes.bitset);
    if step_votes.bitset == 0 {
        crate::user::committee::lemma_selected_none(
            committee.members,
            committee.members.len() as int,
        );
        assert(seats_total(voters) == 0);
    }
}

/// Who may not sit in the voting committees of an iteration: its generator
/// and, unless the iteration is the last that a round may take, the
/// generator of the next one.
pub open spec fn spec_exclusion(members: Members, seed: Seq<u8>, round: u64, iteration: u8) -> Seq<
    Seq<u8>,
> {
    let first = match spec_generator(members, seed, round, iteration) {
        Some(g) => seq![g],
        None => Seq::empty(),
    };
    if iteration + 1 < CONSENSUS_MAX_ITER {
        match spec_generator(members, seed, round, (iteration + 1) as u8) {
            Some(g) => first.push(g),
            None => first,
        }
    } else {
        first
    }
}

/// The parameters of the committee of a voting step.
pub open spec fn step_config(
    members: Members,
    seed: Seq<u8>,
    round: u64,
    iteration: u8,
    step: StepName,
) -> ConfigView {
    ConfigView {
        seed,
        round,
        iteration,
        step,
        committee_credits: credits_of(step) as nat,
        exclusion: spec_exclusion(members, seed, round, iteration),
    }
}

/// The committee of a voting step.
pub open spec fn step_committee(
    members: Members,
    seed: Seq<u8>,
    round: u64,
    iteration: u8,
    step: StepName,
) -> CommitteeView {
    spec_committee(members, step_config(members, seed, round, iteration, step))
}

/// Computes who may not sit in the voting committees of an iteration.
pub fn exclusion_list(set: &CommitteeSet, iteration: u8, seed: Seed, round: u64) -> (list: Vec<
    PublicKeyBytes,
>)
    ensures
        keys_view(list@) == spec_exclusion(set.members(), seed@, round, iteration),
{
    let mut list: Vec<PublicKeyBytes> = Vec::new();
    assert(keys_view(list@) =~= Seq::<Seq<u8>>::empty());
    match set.provisioners().get_generator(iteration, seed, round) {
        Some(g) => {
            list.push(g);
            assert(keys_view(list@) =~= seq![g@]);
        },
        None => {},
    }
    if iteration < CONSENSUS_MAX_ITER - 1 {
        let ghost before = keys_view(list@);
        match set.provisioners().get_generator(iteration + 1, seed, round) {
            Some(g) => {
                list.push(g);
                assert(keys_view(list@) =~= before.push(g@));
            },
            None => {},
        }
    }
    list
}

/// Verifies the votes of one step of the iteration that `header` names,
/// against the committee that sortition gives that step, and hands the
/// committee back with the result.
pub fn verify_step_votes(
    header: &ConsensusHeader,
    vote: &Vote,
    sv: &StepVotes,
    committees_set: &mut CommitteeSet,
    seed: Seed,
    step: StepName,
) -> (res: Result<(QuorumResult, Committee), StepSigError>)
    ensures
        final(committees_set).members() == old(committees_set).members(),
        match res {
            Ok((q, committee)) => {
                &&& committee@ == step_committee(
                    old(committees_set).members(),
                    seed@,
                    header.round,
                    header.iteration,
                    step,
                )
                &&& spec_verify_votes(header@, step, vote@, sv@, committee@) == Ok::<
                    (nat, nat),
                    StepSigError,
                >((q.total as nat, q.target_quorum as nat))
            },
            Err(e) => spec_verify_votes(
                header@,
                step,
                vote@,
                sv@,
                step_committee(
                    old(committees_set).members(),
                    seed@,
                    header.round,
                    header.iteration,
                    step,
                ),
            ) == Err::<(nat, nat), StepSigError>(e),
        },
{
    let round = header.round;
    let iteration = header.iteration;
    let exclusion = exclusion_list(committees_set, iteration, seed, round);
    let cfg = Config::new(seed, round, iteration, step, exclusion);
    let committee = committees_set.get_or_create(&cfg);
    match verify_votes(header, step, vote, sv, &committee) {
        Ok(q) => Ok((q, committee)),
        Err(e) => Err(e),
    }
}

/// What the verification of a quorum message comes to: the votes of the
/// validation step are checked first, then those of the ratification step.
pub open spec fn spec_verify_quorum(
    header: ConsensusHeaderView,
    vote: VoteView,
    validation: StepVotesView,
    ratification: StepVotesView,
    members: Members,
    seed: Seq<u8>,
) -> Result<(), StepSigError> {
    match spec_verify_votes(
        header,
        StepName::Validation,
        vote,
        validation,
        step_committee(members, seed, header.round, header.iteration, StepName::Validation),
    ) {
        Err(e) => Err(e),
        Ok(_) => match spec_verify_votes(
            header,
            StepName::Ratification,
            vote,
            ratification,
            step_committee(members, seed, header.round, header.iteration, StepName::Ratification),
        ) {
            Err(e) => Err(e),
            Ok(_) => Ok(()),
        },
    }
}

/// Verifies both steps of a quorum message.
pub fn verify_quorum(quorum: &Quorum, committees_set: &mut CommitteeSet, seed: Seed) -> (res:
    Result<(), StepSigError>)
    ensures
        final(committees_set).members() == old(committees_set).members(),
        res == spec_verify_quorum(
            quorum.header@,
            quorum.att.result@.vote(),
            quorum.att.validation@,
            quorum.att.ratification@,
            old(committees_set).members(),
            seed@,
        ),
{
    let vote = *quorum.vote();
    match verify_step_votes(
        &quorum.header,
        &vote,
        &quorum.att.validation,
        committees_set,
        seed,
        StepName::Validation,
    ) {
        Err(e) => return Err(e),
        Ok(_) => {},
    }
    match verify_step_votes(
        &quorum.header,
        &vote,
        &quorum.att.ratification,
        committees_set,
        seed,
        StepName::Ratification,
    ) {
        Err(e) => Err(e),
        Ok(_) => Ok(()),
    }
}

} // verus!
