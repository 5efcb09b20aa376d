//! The tally of votes per block and step.
//!
//! Votes are counted once: a vote that is already in the tally changes
//! nothing. The first vote that lifts a tally to its quorum makes the
//! accumulator hand out the collected votes; after that the tally of that
//! block and step never hands out anything again.

use vstd::prelude::*;
use crate::bls::{spec_verify_signature, verify_signature};
use crate::commons::StepSigError;
use crate::codec::bytes_eq;
use crate::ledger::{PublicKeyBytes, Seed, Signature, Vote, VoteView};
use crate::message::{ConsensusHeader, ConsensusHeaderView, Message, Payload, StepName};
use crate::quorum::verifiers::signed_message;
use crate::user::committee::{spec_committee, spec_super_majority, CommitteeSet};
use crate::user::provisioners::Members;
use crate::user::sortition::{Config, ConfigView};

verus! {

/// The seats of the committees whose votes are tallied.
pub const ACCUMULATOR_COMMITTEE_CREDITS: u32 = 64;

/// One vote as the tally keeps it: who signed, and the signature.
#[derive(Clone, Copy, Debug, PartialEq, Eq)]
pub struct Agreement {
    pub signer: PublicKeyBytes,
    pub signature: Signature,
}

/// A vote as contracts see it: the signer's key bytes and the signature.
pub type AgreementView = (Seq<u8>, Seq<u8>);

impl View for Agreement {
    type V = AgreementView;

    open spec fn view(&self) -> AgreementView {
        (self.signer@, self.signature@)
    }
}

/// The tally of one block hash and step.
#[derive(Clone, Debug, PartialEq, Eq)]
pub struct Tally {
    pub block_hash: crate::ledger::Hash,
    pub step: u16,
    pub agreements: Vec<Agreement>,
    pub weight: usize,
    /// Whether the collected votes of this tally were handed out.
    pub emitted: bool,
}

pub struct TallyView {
    pub block_hash: Seq<u8>,
    pub step: u16,
    pub agreements: Seq<AgreementView>,
    pub weight: nat,
    pub emitted: bool,
}

pub open spec fn agreements_view(l: Seq<Agreement>) -> Seq<AgreementView> {
    Seq::new(l.len(), |i: int| l[i]@)
}

impl View for Tally {
    type V = TallyView;

    open spec fn view(&self) -> TallyView {
        TallyView {
            block_hash: self.block_hash@,
            step: self.step,
            agreements: agreements_view(self.agreements@),
            weight: self.weight as nat,
            emitted: self.emitted,
        }
    }
}

/// The tallies as contracts see them.
pub type Tallies = Seq<TallyView>;

pub open spec fn tallies_view(l: Seq<Tally>) -> Tallies {
    Seq::new(l.len(), |i: int| l[i]@)
}

/// Whether `i` is the place of the first tally of `(block_hash, step)`.
pub open spec fn is_tally_of(t: Tallies, block_hash: Seq<u8>, step: u16, i: int) -> bool {
    &&& 0 <= i < t.len()
    &&& t[i].block_hash == block_hash
    &&& t[i].step == step
    &&& forall|j: int|
        0 <= j < i ==> !((#[trigger] t[j]).block_hash == block_hash && t[j].step == step)
}

/// Whether there is a tally of `(block_hash, step)`.
pub open spec fn has_tally(t: Tallies, block_hash: Seq<u8>, step: u16) -> bool {
    exists|i: int| is_tally_of(t, block_hash, step, i)
}

/// The place of the tally of `(block_hash, step)`; meaningful if there is one.
pub open spec fn tally_index(t: Tallies, block_hash: Seq<u8>, step: u16) -> int {
    choose|i: int| is_tally_of(t, block_hash, step, i)
}

pub proof fn lemma_tally_index(t: Tallies, block_hash: Seq<u8>, step: u16, i: int)
    requires
        is_tally_of(t, block_hash, step, i),
    ensures
        has_tally(t, block_hash, step),
        tally_index(t, block_hash, step) == i,
{
    let j = tally_index(t, block_hash, step);
    if j < i {
        assert(!(t[j].block_hash == block_hash && t[j].step == step));
    } else if i < j {
        assert(!(t[i].block_hash == block_hash && t[i].step == step));
    }
}

/// The sum of two weights, held at the largest value that fits.
pub open spec fn saturating_sum(a: nat, b: nat) -> nat {
    if a + b > usize::MAX {
        usize::MAX as nat
    } else {
        a + b
    }
}

/// What one vote does to the tallies, and whether it makes the accumulator
/// hand out the collected votes. `weight` is the number of seats of the
/// signer and `target` the quorum.
pub open spec fn spec_accumulate(
    t: Tallies,
    block_hash: Seq<u8>,
    step: u16,
    agreement: AgreementView,
    weight: nat,
    target: nat,
) -> (Tallies, bool) {
    if weight == 0 {
        (t, false)
    } else if !has_tally(t, block_hash, step) {
        let reached = weight >= target;
        (
            t.push(
                TallyView {
                    block_hash,
                    step,
                    agreements: seq![agreement],
                    weight,
                    emitted: reached,
                },
            ),
            reached,
        )
    } else {
        let i = tally_index(t, block_hash, step);
        let e = t[i];
        if e.agreements.contains(agreement) {
            (t, false)
        } else {
            let weight_sum = saturating_sum(e.weight, weight);
            let reached = weight_sum >= target;
            (
                t.update(
                    i,
                    TallyView {
                        agreements: e.agreements.push(agreement),
                        weight: weight_sum,
                        emitted: e.emitted || reached,
                        ..e
                    },
                ),
                reached && !e.emitted,
            )
        }
    }
}

/// Whether no vote occurs twice.
pub open spec fn no_repeats(s: Seq<AgreementView>) -> bool {
    forall|i: int, j: int| #![trigger s[i], s[j]] 0 <= i < j < s.len() ==> s[i] != s[j]
}

/// What holds of a tally that counts towards the quorum `target`: each vote
/// is in it once, its weight fits, and its votes were handed out exactly if
/// its weight reaches the quorum.
pub open spec fn tally_wf(e: TallyView, target: nat) -> bool {
    &&& e.weight <= usize::MAX
    &&& no_repeats(e.agreements)
    &&& e.emitted <==> e.weight >= target
}

/// What holds of the tallies of an accumulator that counts towards the
/// quorum `target`: each tally is well formed, and each block hash and step
/// has one tally at most.
pub open spec fn tallies_wf(t: Tallies, target: nat) -> bool {
    &&& forall|i: int| 0 <= i < t.len() ==> tally_wf(#[trigger] t[i], target)
    &&& forall|i: int, j: int|
        #![trigger t[i], t[j]]
        0 <= i < j < t.len() ==> !(t[i].block_hash == t[j].block_hash && t[i].step == t[j].step)
}

/// The votes that reached a quorum.
#[derive(Clone, Debug, PartialEq, Eq)]
pub struct CollectedVotes {
    pub block_hash: crate::ledger::Hash,
    pub step: u16,
    pub agreements: Vec<Agreement>,
    pub weight: usize,
}

/// Whether `c` is what the tally of `(block_hash, step)` holds: its votes
/// and its weight.
pub open spec fn collected_from(t: Tallies, c: CollectedVotes, block_hash: Seq<u8>, step: u16)
    -> bool {
    &&& c.block_hash@ == block_hash
    &&& c.step == step
    &&& has_tally(t, block_hash, step)
    &&& agreements_view(c.agreements@) == t[tally_index(t, block_hash, step)].agreements
    &&& c.weight == t[tally_index(t, block_hash, step)].weight
}

/// The tallies of one round.
#[derive(Debug)]
pub struct Accumulator {
    pub stores: Vec<Tally>,
}

impl View for Accumulator {
    type V = Tallies;

    open spec fn view(&self) -> Tallies {
        tallies_view(self.stores@)
    }
}

fn clone_agreements(l: &Vec<Agreement>) -> (out: Vec<Agreement>)
    ensures
        out@ == l@,
{
    let mut out: Vec<Agreement> = Vec::new();
    let mut i: usize = 0;
    while i < l.len()
        invariant
            i <= l@.len(),
            out@ == l@.take(i as int),
        decreases l@.len() - i,
    {
        out.push(l[i]);
        assert(out@ =~= l@.take(i + 1));
        i = i + 1;
    }
    assert(out@ =~= l@);
    out
}

impl Accumulator {
    /// What holds of an accumulator that only `new` and `process` touched:
    /// its tallies are well formed for the quorum of the committees whose
    /// votes it counts.
    pub open spec fn wf(&self) -> bool {
        tallies_wf(self@, spec_super_majority(ACCUMULATOR_COMMITTEE_CREDITS as nat))
    }

    /// An accumulator without tallies.
    pub fn new() -> (acc: Accumulator)
        ensures
            acc@ == Seq::<TallyView>::empty(),
    {
        let acc = Accumulator { stores: Vec::new() };
        assert(acc@ =~= Seq::<TallyView>::empty());
        acc
    }

    /// The place of the first tally of `(block_hash, step)`.
    fn find(&self, block_hash: &crate::ledger::Hash, step: u16) -> (at: Option<usize>)
        ensures
            match at {
                Some(i) => is_tally_of(self@, block_hash@, step, i as int),
                None => !has_tally(self@, block_hash@, step),
            },
    {
        let mut i: usize = 0;
        while i < self.stores.len()
            invariant
                i <= self.stores@.len(),
                forall|j: int|
                    0 <= j < i ==> !((#[trigger] self@[j]).block_hash == block_hash@ && self@[j].step
                        == step),
            decreases self.stores@.len() - i,
        {
            if self.stores[i].step == step && bytes_eq(
                self.stores[i].block_hash.as_slice(),
                block_hash.as_slice(),
            ) {
                assert(self@[i as int] == self.stores@[i as int]@);
                return Some(i);
            }
            assert(self@[i as int] == self.stores@[i as int]@);
            i = i + 1;
        }
        None
    }

    /// Counts one vote of a signer with `weight` seats towards the quorum
    /// `target`, and hands out the collected votes if this vote is the one
    /// that reaches the quorum. A signer without seats and a vote that is
    /// already counted change nothing.
    pub fn accumulate(
        &mut self,
        block_hash: &crate::ledger::Hash,
        step: u16,
        agreement: Agreement,
        weight: usize,
        target: usize,
    ) -> (out: Option<CollectedVotes>)
        ensures
            final(self)@ == spec_accumulate(
                old(self)@,
                block_hash@,
                step,
                agreement@,
                weight as nat,
                target as nat,
            ).0,
            out is Some == spec_accumulate(
                old(self)@,
                block_hash@,
                step,
                agreement@,
                weight as nat,
                target as nat,
            ).1,
            out matches Some(c) ==> collected_from(final(self)@, c, block_hash@, step),
            tallies_wf(old(self)@, target as nat) ==> tallies_wf(final(self)@, target as nat),
    {
        proof {
            if tallies_wf(self@, target as nat) {
                lemma_accumulate_keeps_wf(
                    self@,
                    block_hash@,
                    step,
                    agreement@,
                    weight as nat,
                    target as nat,
                );
            }
        }
        if weight == 0 {
            return None;
        }
        let ghost before = self@;
        match self.find(block_hash, step) {
            None => {
                let reached = weight >= target;
                let mut agreements: Vec<Agreement> = Vec::new();
                agreements.push(agreement);
                assert(agreements_view(agreements@) =~= seq![agreement@]);
                let collected = if reached {
                    Some(
                        CollectedVotes {
                            block_hash: *block_hash,
                            step,
                            agreements: clone_agreements(&agreements),
                            weight,
                        },
                    )
                } else {
                    None
                };
                let tally = Tally {
                    block_hash: *block_hash,
                    step,
                    agreements,
                    weight,
                    emitted: reached,
                };
                self.stores.push(tally);
                proof {
                    assert(self@ =~= before.push(tally@));
                    if reached {
                        assert(is_tally_of(self@, block_hash@, step, before.len() as int)) by {
                            assert forall|j: int| 0 <= j < before.len() implies !((
                            #[trigger] self@[j]).block_hash == block_hash@ && self@[j].step
                                == step) by {
                                assert(self@[j] == before[j]);
                                if before[j].block_hash == block_hash@ && before[j].step == step {
                                    lemma_first_tally_exists(before, block_hash@, step, j);
                                }
                            }
                        }
                        lemma_tally_index(self@, block_hash@, step, before.len() as int);
                    }
                }
                collected
            },
            Some(i) => {
                proof {
                    lemma_tally_index(before, block_hash@, step, i as int);
                }
                let ghost e = before[i as int];
                assert(e == self.stores@[i as int]@);
                let mut k: usize = 0;
                let n = self.stores[i].agreements.len();
                while k < n
                    invariant
                        k <= n,
                        i < self.stores@.len(),
                        n == self.stores@[i as int].agreements@.len(),
                        e == self.stores@[i as int]@,
                        e == before[i as int],
                        self@ == before,
                        before == old(self)@,
                        weight != 0,
                        has_tally(before, block_hash@, step),
                        tally_index(before, block_hash@, step) == i,
                        forall|j: int| 0 <= j < k ==> e.agreements[j] != agreement@,
                    decreases n - k,
                {
                    let a = &self.stores[i].agreements[k];
                    if bytes_eq(a.signer.0.as_slice(), agreement.signer.0.as_slice()) && bytes_eq(
                        a.signature.0.as_slice(),
                        agreement.signature.0.as_slice(),
                    ) {
                        assert(e.agreements[k as int] == agreement@);
                        assert(e.agreements.contains(agreement@));
                        return None;
                    }
                    assert(e.agreements[k as int] == self.stores@[i as int].agreements@[k as int]@);
                    k = k + 1;
                }
                assert(!e.agreements.contains(agreement@));
                let mut stores: Vec<Tally> = Vec::new();
                std::mem::swap(&mut stores, &mut self.stores);
                let old_tally = stores.remove(i);
                let weight_sum = if old_tally.weight > usize::MAX - weight {
                    usize::MAX
                } else {
                    old_tally.weight + weight
                };
                let reached = weight_sum >= target;
                let mut agreements = old_tally.agreements;
                let ghost old_agreements = agreements@;
                agreements.push(agreement);
                assert(agreements_view(agreements@) =~= agreements_view(old_agreements).push(
                    agreement@,
                ));
                let collected = if reached && !old_tally.emitted {
                    Some(
                        CollectedVotes {
                            block_hash: *block_hash,
                            step,
                            agreements: clone_agreements(&agreements),
                            weight: weight_sum,
                        },
                    )
                } else {
                    None
                };
                let tally = Tally {
                    block_hash: old_tally.block_hash,
                    step: old_tally.step,
                    agreements,
                    weight: weight_sum,
                    emitted: old_tally.emitted || reached,
                };
                stores.insert(i, tally);
                self.stores = stores;
                proof {
                    assert(self@ =~= before.update(i as int, tally@));
                    assert(is_tally_of(self@, block_hash@, step, i as int)) by {
                        assert forall|j: int| 0 <= j < i implies !((
                        #[trigger] self@[j]).block_hash == block_hash@ && self@[j].step
                            == step) by {
                            assert(self@[j] == before[j]);
                        }
                    }
                    lemma_tally_index(self@, block_hash@, step, i as int);
                }
                collected
            },
        }
    }
}

/// Where there is a tally with the key, there is a first one.
pub proof fn lemma_first_tally_exists(t: Tallies, block_hash: Seq<u8>, step: u16, j: int)
    requires
        0 <= j < t.len(),
        t[j].block_hash == block_hash,
        t[j].step == step,
    ensures
        has_tally(t, block_hash, step),
    decreases j,
{
    if exists|k: int| 0 <= k < j && (#[trigger] t[k]).block_hash == block_hash && t[k].step == step {
        let k = choose|k: int|
            0 <= k < j && (#[trigger] t[k]).block_hash == block_hash && t[k].step == step;
        lemma_first_tally_exists(t, block_hash, step, k);
    } else {
        assert(is_tally_of(t, block_hash, step, j));
    }
}

/// Counting a vote keeps the tallies well formed.
pub proof fn lemma_accumulate_keeps_wf(
    t: Tallies,
    block_hash: Seq<u8>,
    step: u16,
    agreement: AgreementView,
    weight: nat,
    target: nat,
)
    requires
        tallies_wf(t, target),
        weight <= usize::MAX,
    ensures
        tallies_wf(spec_accumulate(t, block_hash, step, agreement, weight, target).0, target),
{
    let after = spec_accumulate(t, block_hash, step, agreement, weight, target).0;
    if weight == 0 {
    } else if !has_tally(t, block_hash, step) {
        let n = t.len() as int;
        assert forall|i: int| 0 <= i < after.len() implies tally_wf(#[trigger] after[i], target) by {
            if i < n {
                assert(after[i] == t[i]);
            } else {
                assert(after[i].agreements =~= seq![agreement]);
            }
        }
        assert forall|i: int, j: int|
            #![trigger after[i], after[j]]
            0 <= i < j < after.len() implies !(after[i].block_hash == after[j].block_hash
            && after[i].step == after[j].step) by {
            assert(after[i] == t[i]);
            if j < n {
                assert(after[j] == t[j]);
            } else if t[i].block_hash == block_hash && t[i].step == step {
                lemma_first_tally_exists(t, block_hash, step, i);
            }
        }
    } else {
        let k = tally_index(t, block_hash, step);
        let e = t[k];
        assert(is_tally_of(t, block_hash, step, k));
        if !e.agreements.contains(agreement) {
            assert(tally_wf(e, target));
            let grown = e.agreements.push(agreement);
            assert(no_repeats(grown)) by {
                assert forall|i: int, j: int|
                    #![trigger grown[i], grown[j]]
                    0 <= i < j < grown.len() implies grown[i] != grown[j] by {
                    if j < e.agreements.len() {
                        assert(grown[i] == e.agreements[i] && grown[j] == e.agreements[j]);
                    } else {
                        assert(grown[i] == e.agreements[i]);
                        assert(e.agreements.contains(e.agreements[i]));
                    }
                }
            }
            assert forall|i: int| 0 <= i < after.len() implies tally_wf(
                #[trigger] after[i],
                target,
            ) by {
                if i != k {
                    assert(after[i] == t[i]);
                }
            }
            assert forall|i: int, j: int|
                #![trigger after[i], after[j]]
                0 <= i < j < after.len() implies !(after[i].block_hash == after[j].block_hash
                && after[i].step == after[j].step) by {
                assert(after[i].block_hash == t[i].block_hash && after[i].step == t[i].step);
                assert(after[j].block_hash == t[j].block_hash && after[j].step == t[j].step);
            }
        }
    }
}

/// Once the weight of a tally has reached the quorum, no further vote for
/// its block and step makes the accumulator hand out anything: the crossing
/// was reported when it happened.
pub proof fn law_reached_tally_is_closed(
    t: Tallies,
    block_hash: Seq<u8>,
    step: u16,
    agreement: AgreementView,
    weight: nat,
    target: nat,
)
    requires
        tallies_wf(t, target),
        has_tally(t, block_hash, step),
        t[tally_index(t, block_hash, step)].weight >= target,
    ensures
        !spec_accumulate(t, block_hash, step, agreement, weight, target).1,
{
    let k = tally_index(t, block_hash, step);
    assert(is_tally_of(t, block_hash, step, k));
    assert(tally_wf(t[k], target));
}

/// Counting the same vote a second time changes nothing and hands out
/// nothing: the tally holds the vote once, and the signer's seats once.
pub proof fn law_no_duplicate_tally(
    t: Tallies,
    block_hash: Seq<u8>,
    step: u16,
    agreement: AgreementView,
    weight: nat,
    target: nat,
)
    ensures
        ({
            let first = spec_accumulate(t, block_hash, step, agreement, weight, target);
            let second = spec_accumulate(first.0, block_hash, step, agreement, weight, target);
            second.0 == first.0 && !second.1
        }),
{
    let first = spec_accumulate(t, block_hash, step, agreement, weight, target);
    if weight == 0 {
    } else if !has_tally(t, block_hash, step) {
        let n = t.len() as int;
        assert(is_tally_of(first.0, block_hash, step, n)) by {
            assert forall|j: int| 0 <= j < n implies !((#[trigger] first.0[j]).block_hash
                == block_hash && first.0[j].step == step) by {
                assert(first.0[j] == t[j]);
                if t[j].block_hash == block_hash && t[j].step == step {
                    lemma_first_tally_exists(t, block_hash, step, j);
                }
            }
        }
        lemma_tally_index(first.0, block_hash, step, n);
        assert(first.0[n].agreements[0] == agreement);
    } else {
        let i = tally_index(t, block_hash, step);
        if !t[i].agreements.contains(agreement) {
            assert(is_tally_of(first.0, block_hash, step, i)) by {
                assert forall|j: int| 0 <= j < i implies !((#[trigger] first.0[j]).block_hash
                    == block_hash && first.0[j].step == step) by {
                    assert(first.0[j] == t[j]);
                }
            }
            lemma_tally_index(first.0, block_hash, step, i);
            let l = t[i].agreements.len() as int;
            assert(first.0[i].agreements[l] == agreement);
        }
    }
}

/// One vote adds at most one entry to the tally of its block and step, and
/// at most the signer's seats to its weight.
pub proof fn law_tally_grows_by_one_vote(
    t: Tallies,
    block_hash: Seq<u8>,
    step: u16,
    agreement: AgreementView,
    weight: nat,
    target: nat,
)
    requires
        has_tally(t, block_hash, step),
        t[tally_index(t, block_hash, step)].weight <= usize::MAX,
    ensures
        ({
            let after = spec_accumulate(t, block_hash, step, agreement, weight, target).0;
            let i = tally_index(t, block_hash, step);
            &&& after.len() == t.len()
            &&& after[i].agreements.len() <= t[i].agreements.len() + 1
            &&& t[i].weight <= after[i].weight <= t[i].weight + weight
        }),
{
    let i = tally_index(t, block_hash, step);
    assert(is_tally_of(t, block_hash, step, i));
}

/// A vote as it reaches the accumulator, with the seats of its signer and
/// the quorum of its committee.
pub struct CountedVote {
    pub block_hash: Seq<u8>,
    pub step: u16,
    pub agreement: AgreementView,
    pub weight: nat,
    pub target: nat,
}

/// The tallies after one vote, and whether the vote made the accumulator
/// hand out the collected votes.
pub open spec fn step_with(t: Tallies, v: CountedVote) -> (Tallies, bool) {
    spec_accumulate(t, v.block_hash, v.step, v.agreement, v.weight, v.target)
}

/// How often the accumulator hands out the collected votes of
/// `(block_hash, step)` while the votes are fed to it in order.
pub open spec fn emissions(t: Tallies, votes: Seq<CountedVote>, block_hash: Seq<u8>, step: u16)
    -> nat
    decreases votes.len(),
{
    if votes.len() == 0 {
        0
    } else {
        let v = votes[0];
        let r = step_with(t, v);
        let here: nat = if r.1 && v.block_hash == block_hash && v.step == step {
            1
        } else {
            0
        };
        here + emissions(r.0, votes.skip(1), block_hash, step)
    }
}

/// Whether the collected votes of `(block_hash, step)` were handed out.
pub open spec fn is_emitted(t: Tallies, block_hash: Seq<u8>, step: u16) -> bool {
    has_tally(t, block_hash, step) && t[tally_index(t, block_hash, step)].emitted
}

proof fn lemma_emitted_stays(t: Tallies, v: CountedVote, block_hash: Seq<u8>, step: u16)
    requires
        is_emitted(t, block_hash, step),
    ensures
        is_emitted(step_with(t, v).0, block_hash, step),
        v.block_hash == block_hash && v.step == step ==> !step_with(t, v).1,
{
    let i = tally_index(t, block_hash, step);
    let r = step_with(t, v);
    assert(is_tally_of(r.0, block_hash, step, i)) by {
        if v.weight == 0 {
        } else if !has_tally(t, v.block_hash, v.step) {
            assert(r.0[i] == t[i]);
            assert forall|j: int| 0 <= j < i implies !((#[trigger] r.0[j]).block_hash
                == block_hash && r.0[j].step == step) by {
                assert(r.0[j] == t[j]);
            }
        } else {
            let k = tally_index(t, v.block_hash, v.step);
            assert forall|j: int| 0 <= j < i implies !((#[trigger] r.0[j]).block_hash
                == block_hash && r.0[j].step == step) by {
                if j != k {
                    assert(r.0[j] == t[j]);
                } else {
                    assert(r.0[j].block_hash == t[j].block_hash && r.0[j].step == t[j].step);
                }
            }
        }
    }
    lemma_tally_index(r.0, block_hash, step, i);
    if v.block_hash == block_hash && v.step == step {
        assert(tally_index(t, v.block_hash, v.step) == i);
    }
}

proof fn lemma_emits_marks(t: Tallies, v: CountedVote)
    requires
        step_with(t, v).1,
    ensures
        is_emitted(step_with(t, v).0, v.block_hash, v.step),
{
    let r = step_with(t, v);
    if !has_tally(t, v.block_hash, v.step) {
        let n = t.len() as int;
        assert(is_tally_of(r.0, v.block_hash, v.step, n)) by {
            assert forall|j: int| 0 <= j < n implies !((#[trigger] r.0[j]).block_hash
                == v.block_hash && r.0[j].step == v.step) by {
                assert(r.0[j] == t[j]);
                if t[j].block_hash == v.block_hash && t[j].step == v.step {
                    lemma_first_tally_exists(t, v.block_hash, v.step, j);
                }
            }
        }
        lemma_tally_index(r.0, v.block_hash, v.step, n);
    } else {
        let i = tally_index(t, v.block_hash, v.step);
        assert(is_tally_of(r.0, v.block_hash, v.step, i)) by {
            assert forall|j: int| 0 <= j < i implies !((#[trigger] r.0[j]).block_hash
                == v.block_hash && r.0[j].step == v.step) by {
                assert(r.0[j] == t[j]);
            }
        }
        lemma_tally_index(r.0, v.block_hash, v.step, i);
    }
}

proof fn lemma_no_emission_after(
    t: Tallies,
    votes: Seq<CountedVote>,
    block_hash: Seq<u8>,
    step: u16,
)
    requires
        is_emitted(t, block_hash, step),
    ensures
        emissions(t, votes, block_hash, step) == 0,
    decreases votes.len(),
{
    if votes.len() > 0 {
        lemma_emitted_stays(t, votes[0], block_hash, step);
        lemma_no_emission_after(step_with(t, votes[0]).0, votes.skip(1), block_hash, step);
    }
}

/// Whatever votes arrive, in whatever order, and whatever the tallies were
/// before: the collected votes of a block and step are handed out at most
/// once.
pub proof fn law_emits_at_most_once(
    t: Tallies,
    votes: Seq<CountedVote>,
    block_hash: Seq<u8>,
    step: u16,
)
    ensures
        emissions(t, votes, block_hash, step) <= 1,
    decreases votes.len(),
{
    if votes.len() > 0 {
        let v = votes[0];
        let r = step_with(t, v);
        if r.1 && v.block_hash == block_hash && v.step == step {
            lemma_emits_marks(t, v);
            lemma_no_emission_after(r.0, votes.skip(1), block_hash, step);
        } else {
            law_emits_at_most_once(r.0, votes.skip(1), block_hash, step);
        }
    }
}

/// The vote that a message carries, if it is a vote: the step, the vote,
/// the signer and the signature.
pub open spec fn vote_of(msg: Message) -> Option<(StepName, Vote, Agreement)> {
    match msg.payload {
        Payload::Validation(v) => Some(
            (
                StepName::Validation,
                v.vote,
                Agreement { signer: v.sign_info.signer, signature: v.sign_info.signature },
            ),
        ),
        Payload::Ratification(r) => Some(
            (
                StepName::Ratification,
                r.vote,
                Agreement { signer: r.sign_info.signer, signature: r.sign_info.signature },
            ),
        ),
        _ => None,
    }
}

/// The parameters of the committee whose votes are tallied: 64 seats,
/// nobody excluded.
pub open spec fn tally_config(seed: Seq<u8>, round: u64, iteration: u8, step: StepName)
    -> ConfigView {
    ConfigView {
        seed,
        round,
        iteration,
        step,
        committee_credits: ACCUMULATOR_COMMITTEE_CREDITS as nat,
        exclusion: Seq::empty(),
    }
}

/// What the accumulator counts for a message, if it counts it at all. A
/// message is passed over when its block hash is all zero, when it is no
/// vote, or when its signature does not verify under the signer's key.
pub open spec fn counted_vote(msg: Message, members: Members, seed: Seq<u8>) -> Option<
    CountedVote,
> {
    if msg.header.block_hash@ == crate::encoding::block::zero_hash() {
        None
    } else {
        match vote_of(msg) {
            None => None,
            Some((step, vote, agreement)) => if spec_verify_agreement(
                msg.header@,
                step,
                vote@,
                agreement@,
            ) is Err {
                None
            } else {
                let cfg = tally_config(seed, msg.header.round, msg.header.iteration, step);
                Some(
                    CountedVote {
                        block_hash: msg.header.block_hash@,
                        step: step.spec_to_step(msg.header.iteration) as u16,
                        agreement: agreement@,
                        weight: crate::user::committee::spec_seats(
                            spec_committee(members, cfg).members,
                            agreement.signer@,
                        ),
                        target: spec_super_majority(ACCUMULATOR_COMMITTEE_CREDITS as nat),
                    },
                )
            },
        }
    }
}

/// Whether the signer of a vote signed it. No votes are cast in the
/// proposal step.
pub open spec fn spec_verify_agreement(
    header: ConsensusHeaderView,
    step: StepName,
    vote: VoteView,
    agreement: AgreementView,
) -> Result<(), StepSigError> {
    if step == StepName::Proposal {
        Err(StepSigError::InvalidType)
    } else {
        match spec_verify_signature(agreement.0, agreement.1, signed_message(header, step, vote)) {
            Ok(()) => Ok(()),
            Err(e) => Err(StepSigError::VerificationFailed(e)),
        }
    }
}

/// Verifies that the signer of a vote signed it.
pub fn verify_agreement(
    header: &ConsensusHeader,
    step: StepName,
    vote: &Vote,
    agreement: &Agreement,
) -> (res: Result<(), StepSigError>)
    ensures
        res == spec_verify_agreement(header@, step, vote@, agreement@),
{
    let sign_seed: u8 = match step {
        StepName::Validation => 1,
        StepName::Ratification => 2,
        StepName::Proposal => return Err(StepSigError::InvalidType),
    };
    let mut msg = header.signable();
    msg.push(sign_seed);
    vote.write(&mut msg);
    assert(msg@ =~= signed_message(header@, step, vote@));
    match verify_signature(&agreement.signer, &agreement.signature.0, msg.as_slice()) {
        Ok(()) => Ok(()),
        Err(e) => Err(StepSigError::VerificationFailed(e)),
    }
}

impl Accumulator {
    /// Takes one message in: verifies it, finds the seats of its signer and
    /// counts it. Hands out the collected votes if this message is the one
    /// that reaches the quorum of its block and step.
    pub fn process(&mut self, msg: &Message, committees_set: &mut CommitteeSet, seed: Seed) -> (out:
        Option<CollectedVotes>)
        ensures
            final(committees_set).members() == old(committees_set).members(),
            match counted_vote(*msg, old(committees_set).members(), seed@) {
                None => final(self)@ == old(self)@ && out is None,
                Some(v) => {
                    &&& final(self)@ == step_with(old(self)@, v).0
                    &&& out is Some == step_with(old(self)@, v).1
                    &&& out matches Some(c) ==> collected_from(
                        final(self)@,
                        c,
                        v.block_hash,
                        v.step,
                    )
                },
            },
            old(self).wf() ==> final(self).wf(),
    {
        let zeros = [0u8; 32];
        assert(zeros@ =~= crate::encoding::block::zero_hash());
        if bytes_eq(msg.header.block_hash.as_slice(), zeros.as_slice()) {
            return None;
        }
        let (step, vote, agreement) = match &msg.payload {
            Payload::Validation(v) => (
                StepName::Validation,
                v.vote,
                Agreement { signer: v.sign_info.signer, signature: v.sign_info.signature },
            ),
            Payload::Ratification(r) => (
                StepName::Ratification,
                r.vote,
                Agreement { signer: r.sign_info.signer, signature: r.sign_info.signature },
            ),
            _ => return None,
        };
        if verify_agreement(&msg.header, step, &vote, &agreement).is_err() {
            return None;
        }
        let exclusion: Vec<PublicKeyBytes> = Vec::new();
        assert(crate::user::sortition::keys_view(exclusion@) =~= Seq::<Seq<u8>>::empty());
        let cfg = Config::with_credits(
            seed,
            msg.header.round,
            msg.header.iteration,
            step,
            exclusion,
            ACCUMULATOR_COMMITTEE_CREDITS,
        );
        let weight = committees_set.votes_for(&agreement.signer, &cfg);
        let target = committees_set.quorum(&cfg);
        self.accumulate(
            &msg.header.block_hash,
            step.to_step(msg.header.iteration),
            agreement,
            weight,
            target,
        )
    }
}

} // verus!
