//! Acceptance of attested blocks.
//!
//! The acceptor owns the tip of the chain and the validator set. What it
//! decides stands here; reading the ledger, running the execution engine and
//! talking to peers is left to the caller, who hands in what those gave.

use vstd::prelude::*;
use vstd::string::*;
use vstd::utf8::*;
use crate::bls::{bls_public_key_decodes, PublicKey};
use crate::codec::bytes_eq;
use crate::config::{CANDIDATES_DELETION_OFFSET, CONSENSUS_ROLLING_FINALITY_THRESHOLD};
use crate::ledger::{
    Block, BlockWithLabel, Header, HeaderView, IterationsInfo, IterationsInfoView, Label,
    PublicKeyBytes, Vote, VoteView,
};
use crate::ledger::Seed;
use crate::message::{Message, Payload};
use crate::user::committee::spec_generator;
use crate::user::provisioners::{
    contains_key, index_of, spec_apply_change, ContextProvisioners, Members, Provisioners, Stake,
};

verus! {

/// The identifier of the stake contract: a 2 followed by zeros.
pub open spec fn spec_stake_contract_id() -> Seq<u8> {
    Seq::new(32, |i: int| if i == 0 { 2u8 } else { 0u8 })
}

pub fn stake_contract_id() -> (id: [u8; 32])
    ensures
        id@ == spec_stake_contract_id(),
{
    let mut bytes = [0u8; 32];
    bytes[0] = 2;
    assert(bytes@ =~= spec_stake_contract_id());
    bytes
}

/// What a block did to a validator.
#[derive(Clone, Copy, Debug, PartialEq, Eq, Structural)]
pub enum ChangeKind {
    Stake,
    Unstake,
    Slash,
    Reward,
}

/// A validator whose stake a block may have changed, and how.
#[derive(Clone, Copy, Debug)]
pub enum ProvisionerChange {
    Stake(PublicKey),
    Unstake(PublicKey),
    Slash(PublicKey),
    Reward(PublicKey),
}

/// A change as contracts see it: its kind and the key bytes.
pub struct ChangeView {
    pub kind: ChangeKind,
    pub key: Seq<u8>,
}

impl View for ProvisionerChange {
    type V = ChangeView;

    open spec fn view(&self) -> ChangeView {
        match *self {
            ProvisionerChange::Stake(pk) => ChangeView { kind: ChangeKind::Stake, key: pk@ },
            ProvisionerChange::Unstake(pk) => ChangeView { kind: ChangeKind::Unstake, key: pk@ },
            ProvisionerChange::Slash(pk) => ChangeView { kind: ChangeKind::Slash, key: pk@ },
            ProvisionerChange::Reward(pk) => ChangeView { kind: ChangeKind::Reward, key: pk@ },
        }
    }
}

impl ProvisionerChange {
    /// The validator that the change is about.
    pub fn into_public_key(self) -> (pk: PublicKey)
        ensures
            pk@ == self@.key,
    {
        match self {
            ProvisionerChange::Slash(pk) => pk,
            ProvisionerChange::Unstake(pk) => pk,
            ProvisionerChange::Stake(pk) => pk,
            ProvisionerChange::Reward(pk) => pk,
        }
    }

    /// Whether the change is a new stake.
    pub fn is_stake(&self) -> (s: bool)
        ensures
            s == (self@.kind == ChangeKind::Stake),
    {
        match self {
            ProvisionerChange::Stake(_) => true,
            _ => false,
        }
    }
}

/// Where a revert should end.
#[derive(Clone, Copy, Debug, PartialEq, Eq)]
pub enum RevertTarget {
    /// At the commit with this state root.
    Commit(crate::ledger::Hash),
    /// At the state that was last finalized.
    LastFinalizedState,
    /// At the start of the epoch. Not supported.
    LastEpoch,
}

/// Why the validator set could not be brought up to date from a block.
#[derive(Clone, Copy, Debug, PartialEq, Eq, Structural)]
pub enum ProvisionerUpdateError {
    /// Some bytes that should name a validator are not a public key.
    InvalidKey,
    /// The data of a call to the stake contract names no validator.
    InvalidCallData,
    /// A stake was to be replaced that the set does not hold.
    ReplacedMissingStake,
    /// A stake was to be removed that the set does not hold.
    RemovedMissingStake,
    /// There is not one answer of the execution engine for each change.
    MissingAnswer,
}

/// A call that a transaction made to a contract. `account` is the validator
/// that the data of the call names, if the data could be read.
#[derive(Clone, Debug, PartialEq, Eq)]
pub struct ContractCall {
    pub contract: [u8; 32],
    pub fn_name: String,
    pub account: Option<PublicKeyBytes>,
}

/// What the acceptor reads of an executed transaction: whether it went
/// through, and the call it made.
#[derive(Clone, Debug, PartialEq, Eq)]
pub struct TxCall {
    pub succeeded: bool,
    pub call: Option<ContractCall>,
}

/// Whether the two texts are the same.
pub fn same_text(a: &str, b: &str) -> (same: bool)
    ensures
        same == (a@ == b@),
{
    let same = bytes_eq(a.as_bytes(), b.as_bytes());
    proof {
        broadcast use encode_utf8_decode_utf8;

        if same {
            assert(decode_utf8(encode_utf8(a@)) == a@);
            assert(decode_utf8(encode_utf8(b@)) == b@);
        }
    }
    same
}

/// The change that a transaction stands for, if it stands for one: it must
/// have gone through and have called `stake` or `unstake` on the stake
/// contract.
pub open spec fn stake_call_kind(tx: TxCall) -> Option<ChangeKind> {
    if !tx.succeeded {
        None
    } else {
        match tx.call {
            None => None,
            Some(c) => if c.contract@ != spec_stake_contract_id() {
                None
            } else if c.fn_name@ == "stake"@ {
                Some(ChangeKind::Stake)
            } else if c.fn_name@ == "unstake"@ {
                Some(ChangeKind::Unstake)
            } else {
                None
            },
        }
    }
}

/// The generators that missed an iteration, as the block records them: the
/// keys of the entries that are present among the first `k`, in order.
pub open spec fn spec_missed_generators(info: IterationsInfoView, k: int) -> Seq<Seq<u8>>
    decreases k,
{
    if k <= 0 {
        Seq::empty()
    } else {
        let rest = spec_missed_generators(info, k - 1);
        match info.cert_list[k - 1] {
            Some((_, pk)) => rest.push(pk),
            None => rest,
        }
    }
}

/// Collects the generators that missed an iteration.
pub fn to_missed_generators_bytes(info: &IterationsInfo) -> (keys: Vec<PublicKeyBytes>)
    ensures
        crate::user::sortition::keys_view(keys@) == spec_missed_generators(
            info@,
            info@.cert_list.len() as int,
        ),
{
    let mut keys: Vec<PublicKeyBytes> = Vec::new();
    let mut i: usize = 0;
    assert(crate::user::sortition::keys_view(keys@) =~= spec_missed_generators(info@, 0));
    while i < info.cert_list.len()
        invariant
            i <= info.cert_list@.len(),
            info@.cert_list.len() == info.cert_list@.len(),
            crate::user::sortition::keys_view(keys@) == spec_missed_generators(info@, i as int),
        decreases info.cert_list@.len() - i,
    {
        let ghost before = crate::user::sortition::keys_view(keys@);
        match &info.cert_list[i] {
            Some((_, pk)) => {
                keys.push(*pk);
                assert(crate::user::sortition::keys_view(keys@) =~= before.push(pk@));
            },
            None => {},
        }
        i = i + 1;
    }
    keys
}

/// The changes as contracts see them.
pub open spec fn changes_view(l: Seq<ProvisionerChange>) -> Seq<ChangeView> {
    Seq::new(l.len(), |i: int| l[i]@)
}

/// A slash for each of the first `k` keys, or the error of the first key
/// that is no public key.
pub open spec fn spec_slashes(keys: Seq<Seq<u8>>, k: int) -> Result<
    Seq<ChangeView>,
    ProvisionerUpdateError,
>
    decreases k,
{
    if k <= 0 {
        Ok(Seq::empty())
    } else {
        match spec_slashes(keys, k - 1) {
            Err(e) => Err(e),
            Ok(l) => if bls_public_key_decodes(keys[k - 1]) {
                Ok(l.push(ChangeView { kind: ChangeKind::Slash, key: keys[k - 1] }))
            } else {
                Err(ProvisionerUpdateError::InvalidKey)
            },
        }
    }
}

/// The stake changes of the first `k` transactions, or the first error: a
/// call whose data names nobody, or names something that is no public key.
pub open spec fn spec_stake_changes(txs: Seq<TxCall>, k: int) -> Result<
    Seq<ChangeView>,
    ProvisionerUpdateError,
>
    decreases k,
{
    if k <= 0 {
        Ok(Seq::empty())
    } else {
        match spec_stake_changes(txs, k - 1) {
            Err(e) => Err(e),
            Ok(l) => match stake_call_kind(txs[k - 1]) {
                None => Ok(l),
                Some(kind) => match txs[k - 1].call->Some_0.account {
                    None => Err(ProvisionerUpdateError::InvalidCallData),
                    Some(key) => if bls_public_key_decodes(key@) {
                        Ok(l.push(ChangeView { kind, key: key@ }))
                    } else {
                        Err(ProvisionerUpdateError::InvalidKey)
                    },
                },
            },
        }
    }
}

/// The validators whose stake a block may have changed: the generator and
/// the treasury for their rewards, every generator that missed an iteration
/// for its slash, and whoever staked or unstaked.
pub open spec fn spec_changed_provisioners(
    generator: Seq<u8>,
    treasury: Seq<u8>,
    failed_iterations: IterationsInfoView,
    txs: Seq<TxCall>,
) -> Result<Seq<ChangeView>, ProvisionerUpdateError> {
    if !bls_public_key_decodes(generator) {
        Err(ProvisionerUpdateError::InvalidKey)
    } else {
        let rewards = seq![
            ChangeView { kind: ChangeKind::Reward, key: generator },
            ChangeView { kind: ChangeKind::Reward, key: treasury },
        ];
        let missed = spec_missed_generators(
            failed_iterations,
            failed_iterations.cert_list.len() as int,
        );
        match spec_slashes(missed, missed.len() as int) {
            Err(e) => Err(e),
            Ok(slashes) => match spec_stake_changes(txs, txs.len() as int) {
                Err(e) => Err(e),
                Ok(stakes) => Ok(rewards + slashes + stakes),
            },
        }
    }
}

/// The change that a call to the stake contract stands for.
pub fn parse_stake_call(fn_name: &str, account: Option<PublicKeyBytes>) -> (res: Result<
    ProvisionerChange,
    ProvisionerUpdateError,
>)
    requires
        fn_name@ == "stake"@ || fn_name@ == "unstake"@,
    ensures
        match res {
            Ok(c) => account matches Some(key) && bls_public_key_decodes(key@) && c@ == (
            ChangeView {
                kind: if fn_name@ == "stake"@ {
                    ChangeKind::Stake
                } else {
                    ChangeKind::Unstake
                },
                key: key@,
            }),
            Err(e) => match account {
                None => e == ProvisionerUpdateError::InvalidCallData,
                Some(key) => !bls_public_key_decodes(key@) && e
                    == ProvisionerUpdateError::InvalidKey,
            },
        },
{
    let key = match account {
        Some(k) => k,
        None => return Err(ProvisionerUpdateError::InvalidCallData),
    };
    let pk = match PublicKey::try_from_bytes(key) {
        Ok(pk) => pk,
        Err(_) => return Err(ProvisionerUpdateError::InvalidKey),
    };
    if same_text(fn_name, "stake") {
        Ok(ProvisionerChange::Stake(pk))
    } else {
        Ok(ProvisionerChange::Unstake(pk))
    }
}

/// Finds the validators whose stake a block may have changed.
pub fn changed_provisioners(
    generator: &PublicKeyBytes,
    treasury: &PublicKey,
    failed_iterations: &IterationsInfo,
    txs: &Vec<TxCall>,
) -> (res: Result<Vec<ProvisionerChange>, ProvisionerUpdateError>)
    ensures
        match res {
            Ok(changes) => spec_changed_provisioners(
                generator@,
                treasury@,
                failed_iterations@,
                txs@,
            ) == Ok::<Seq<ChangeView>, ProvisionerUpdateError>(changes_view(changes@)),
            Err(e) => spec_changed_provisioners(generator@, treasury@, failed_iterations@, txs@)
                == Err::<Seq<ChangeView>, ProvisionerUpdateError>(e),
        },
{
    let ghost g0 = generator@;
    let generator_key = match PublicKey::try_from_bytes(*generator) {
        Ok(pk) => pk,
        Err(_) => return Err(ProvisionerUpdateError::InvalidKey),
    };
    let mut changes: Vec<ProvisionerChange> = Vec::new();
    changes.push(ProvisionerChange::Reward(generator_key));
    changes.push(ProvisionerChange::Reward(*treasury));
    let ghost rewards = changes_view(changes@);
    assert(rewards =~= seq![
        ChangeView { kind: ChangeKind::Reward, key: g0 },
        ChangeView { kind: ChangeKind::Reward, key: treasury@ },
    ]);
    let missed = to_missed_generators_bytes(failed_iterations);
    let ghost mv = crate::user::sortition::keys_view(missed@);
    let mut i: usize = 0;
    assert(changes_view(changes@) =~= rewards + Seq::<ChangeView>::empty());
    while i < missed.len()
        invariant
            i <= missed@.len(),
            bls_public_key_decodes(g0),
            g0 == generator@,
            mv == crate::user::sortition::keys_view(missed@),
            mv == spec_missed_generators(
                failed_iterations@,
                failed_iterations@.cert_list.len() as int,
            ),
            spec_slashes(mv, i as int) is Ok,
            changes_view(changes@) == rewards + spec_slashes(mv, i as int)->Ok_0,
        decreases missed@.len() - i,
    {
        let ghost before = changes_view(changes@);
        let slashed = match PublicKey::try_from_bytes(missed[i]) {
            Ok(pk) => pk,
            Err(_) => {
                proof {
                    lemma_slashes_fail(mv, (i + 1) as int, mv.len() as int);
                }
                return Err(ProvisionerUpdateError::InvalidKey);
            },
        };
        changes.push(ProvisionerChange::Slash(slashed));
        assert(changes_view(changes@) =~= before.push(
            ChangeView { kind: ChangeKind::Slash, key: mv[i as int] },
        ));
        assert(changes_view(changes@) =~= rewards + spec_slashes(mv, i + 1)->Ok_0);
        i = i + 1;
    }
    let ghost slashes = spec_slashes(mv, mv.len() as int)->Ok_0;
    let mut k: usize = 0;
    assert(changes_view(changes@) =~= rewards + slashes + Seq::<ChangeView>::empty());
    while k < txs.len()
        invariant
            k <= txs@.len(),
            bls_public_key_decodes(g0),
            g0 == generator@,
            mv == spec_missed_generators(
                failed_iterations@,
                failed_iterations@.cert_list.len() as int,
            ),
            spec_slashes(mv, mv.len() as int) == Ok::<Seq<ChangeView>, ProvisionerUpdateError>(
                slashes,
            ),
            rewards == seq![
                ChangeView { kind: ChangeKind::Reward, key: g0 },
                ChangeView { kind: ChangeKind::Reward, key: treasury@ },
            ],
            spec_stake_changes(txs@, k as int) is Ok,
            changes_view(changes@) == rewards + slashes + spec_stake_changes(txs@, k as int)->Ok_0,
        decreases txs@.len() - k,
    {
        let ghost before = changes_view(changes@);
        let tx = &txs[k];
        if tx.succeeded {
            if let Some(call) = &tx.call {
                let id = stake_contract_id();
                let is_stake = same_text(call.fn_name.as_str(), "stake");
                let is_unstake = same_text(call.fn_name.as_str(), "unstake");
                if bytes_eq(call.contract.as_slice(), id.as_slice()) && (is_stake || is_unstake) {
                    let change = match parse_stake_call(call.fn_name.as_str(), call.account) {
                        Ok(c) => c,
                        Err(e) => {
                            proof {
                                assert(txs@[k as int] == *tx);
                                assert(stake_call_kind(txs@[k as int]) is Some);
                                assert(spec_stake_changes(txs@, k + 1) == Err::<
                                    Seq<ChangeView>,
                                    ProvisionerUpdateError,
                                >(e));
                                lemma_stake_changes_fail(
                                    txs@,
                                    (k + 1) as int,
                                    txs@.len() as int,
                                );
                            }
                            return Err(e);
                        },
                    };
                    changes.push(change);
                    assert(changes_view(changes@) =~= before.push(change@));
                    assert(changes_view(changes@) =~= rewards + slashes + spec_stake_changes(
                        txs@,
                        k + 1,
                    )->Ok_0);
                }
            }
        }
        k = k + 1;
    }
    Ok(changes)
}

pub proof fn lemma_slashes_fail(keys: Seq<Seq<u8>>, i: int, n: int)
    requires
        0 <= i <= n,
        spec_slashes(keys, i) is Err,
    ensures
        spec_slashes(keys, n) == spec_slashes(keys, i),
    decreases n,
{
    if i < n {
        lemma_slashes_fail(keys, i, n - 1);
    }
}

pub proof fn lemma_stake_changes_fail(txs: Seq<TxCall>, i: int, n: int)
    requires
        0 <= i <= n,
        spec_stake_changes(txs, i) is Err,
    ensures
        spec_stake_changes(txs, n) == spec_stake_changes(txs, i),
    decreases n,
{
    if i < n {
        lemma_stake_changes_fail(txs, i, n - 1);
    }
}

/// What one change does to the validator set, given what the execution
/// engine says the validator holds now. A validator with a stake gets that
/// stake; only a new stake may bring in a validator that the set does not
/// hold. A validator without a stake leaves the set, and must have been in
/// it.
pub open spec fn spec_selective_step(m: Members, change: ChangeView, stake: Option<Stake>)
    -> Result<Members, ProvisionerUpdateError> {
    match stake {
        Some(_) => if !contains_key(m, change.key) && change.kind != ChangeKind::Stake {
            Err(ProvisionerUpdateError::ReplacedMissingStake)
        } else {
            Ok(spec_apply_change(m, change.key, stake))
        },
        None => if contains_key(m, change.key) {
            Ok(m.remove(index_of(m, change.key)))
        } else {
            Err(ProvisionerUpdateError::RemovedMissingStake)
        },
    }
}

/// The validator set after the first `k` changes, or the first error.
pub open spec fn spec_selective(
    m: Members,
    changes: Seq<ChangeView>,
    stakes: Seq<Option<Stake>>,
    k: int,
) -> Result<Members, ProvisionerUpdateError>
    decreases k,
{
    if k <= 0 {
        Ok(m)
    } else {
        match spec_selective(m, changes, stakes, k - 1) {
            Err(e) => Err(e),
            Ok(m1) => spec_selective_step(m1, changes[k - 1], stakes[k - 1]),
        }
    }
}

pub proof fn lemma_selective_fail(
    m: Members,
    changes: Seq<ChangeView>,
    stakes: Seq<Option<Stake>>,
    i: int,
    n: int,
)
    requires
        0 <= i <= n,
        spec_selective(m, changes, stakes, i) is Err,
    ensures
        spec_selective(m, changes, stakes, n) == spec_selective(m, changes, stakes, i),
    decreases n,
{
    if i < n {
        lemma_selective_fail(m, changes, stakes, i, n - 1);
    }
}

/// Brings the validator set up to date with the changes of a block.
/// `stakes` holds, for each change, the stake that the execution engine
/// reports for the validator after the block. Without changes the set of the
/// round before is forgotten; else the updated set becomes the current one
/// and the set that was current the one of the round before. On an error
/// nothing changes.
pub fn selective_update(
    changes: Vec<ProvisionerChange>,
    stakes: &Vec<Option<Stake>>,
    provisioners_list: &mut ContextProvisioners,
) -> (res: Result<(), ProvisionerUpdateError>)
    ensures
        changes@.len() != stakes@.len() ==> res == Err::<(), ProvisionerUpdateError>(
            ProvisionerUpdateError::MissingAnswer,
        ) && final(provisioners_list).spec_current() == old(provisioners_list).spec_current()
            && final(provisioners_list).spec_kept_prev() == old(
            provisioners_list,
        ).spec_kept_prev(),
        changes@.len() == stakes@.len() ==> match spec_selective(
            old(provisioners_list).spec_current(),
            changes_view(changes@),
            stakes@,
            changes@.len() as int,
        ) {
            Ok(m) => {
                &&& res is Ok
                &&& final(provisioners_list).spec_current() == m
                &&& final(provisioners_list).spec_kept_prev() == (if changes@.len() == 0 {
                    None
                } else {
                    Some(old(provisioners_list).spec_current())
                })
            },
            Err(e) => {
                &&& res == Err::<(), ProvisionerUpdateError>(e)
                &&& final(provisioners_list).spec_current() == old(
                    provisioners_list,
                ).spec_current()
                &&& final(provisioners_list).spec_kept_prev() == old(
                    provisioners_list,
                ).spec_kept_prev()
            },
        },
{
    if changes.len() != stakes.len() {
        return Err(ProvisionerUpdateError::MissingAnswer);
    }
    if changes.len() == 0 {
        provisioners_list.remove_previous();
        return Ok(());
    }
    let ghost m0 = provisioners_list.spec_current();
    let ghost cv = changes_view(changes@);
    let mut new_prov = provisioners_list.current().clone();
    let mut i: usize = 0;
    while i < changes.len()
        invariant
            i <= changes@.len(),
            changes@.len() == stakes@.len(),
            cv == changes_view(changes@),
            m0 == old(provisioners_list).spec_current(),
            provisioners_list.spec_current() == m0,
            provisioners_list.spec_kept_prev() == old(provisioners_list).spec_kept_prev(),
            spec_selective(m0, cv, stakes@, i as int) == Ok::<Members, ProvisionerUpdateError>(
                new_prov@,
            ),
        decreases changes@.len() - i,
    {
        let change = changes[i];
        let is_stake = change.is_stake();
        let pk = change.into_public_key();
        assert(cv[i as int] == change@);
        match stakes[i] {
            Some(stake) => {
                let replaced = new_prov.replace_stake(pk, stake);
                if replaced.is_none() && !is_stake {
                    proof {
                        lemma_selective_fail(m0, cv, stakes@, i + 1, cv.len() as int);
                    }
                    return Err(ProvisionerUpdateError::ReplacedMissingStake);
                }
            },
            None => {
                if new_prov.remove_stake(&pk).is_none() {
                    proof {
                        lemma_selective_fail(m0, cv, stakes@, i + 1, cv.len() as int);
                    }
                    return Err(ProvisionerUpdateError::RemovedMissingStake);
                }
            },
        }
        i = i + 1;
    }
    provisioners_list.update_and_swap(new_prov);
    Ok(())
}

/// Why a block was not accepted, or a revert did not end.
#[derive(Clone, Copy, Debug, PartialEq, Eq, Structural)]
pub enum AcceptError {
    /// The header does not follow from the tip.
    HeaderInvalid,
    /// The execution engine ended in another state than the header says.
    StateRootMismatch,
    /// A block that should be in the ledger is not.
    MissingBlock,
    /// A block that should have a label has none.
    UnknownLabel,
    /// No block with the state that the revert aims at was found.
    RevertFailed,
}

/// The label that the scan of the ancestors gives, from the `k`-th ancestor
/// on: `window[k]` is the label of the ancestor `k + 1` below the block, and
/// `depth` ancestors are looked at. An accepted ancestor holds the block at
/// attested. A final one, or the end of the scan, makes it final. An
/// ancestor without label is an error.
pub open spec fn spec_scan_ancestors(window: Seq<Option<Label>>, k: int, depth: int) -> Result<
    Label,
    AcceptError,
>
    decreases depth - k,
{
    if k >= depth {
        Ok(Label::Final)
    } else if k < 0 || k >= window.len() {
        Err(AcceptError::UnknownLabel)
    } else {
        match window[k] {
            None => Err(AcceptError::UnknownLabel),
            Some(Label::Final) => Ok(Label::Final),
            Some(Label::Accepted) => Ok(Label::Attested),
            Some(Label::Attested) => spec_scan_ancestors(window, k + 1, depth),
        }
    }
}

/// How many ancestors the rolling finality rule looks at for a block at
/// `height`: the threshold, or all there are.
pub open spec fn spec_window_depth(height: u64) -> int {
    if height < CONSENSUS_ROLLING_FINALITY_THRESHOLD {
        height as int
    } else {
        CONSENSUS_ROLLING_FINALITY_THRESHOLD as int
    }
}

/// The label of a block that follows the tip. `pni` is the number of
/// iterations before the block's that failed without attestation.
///
/// A block with such iterations is accepted and no more. One without, on a
/// final tip, is final. One without, on a tip that is not final, is labelled
/// by the scan of its ancestors.
pub open spec fn spec_rolling_finality(
    pni: u8,
    tip_is_final: bool,
    height: u64,
    window: Seq<Option<Label>>,
) -> Result<Label, AcceptError> {
    if pni != 0 {
        Ok(Label::Accepted)
    } else if tip_is_final {
        Ok(Label::Final)
    } else {
        spec_scan_ancestors(window, 0, spec_window_depth(height))
    }
}

/// Labels a block that follows the tip. `window` holds the labels of the
/// block's ancestors, nearest first, as far as the rule looks.
pub fn rolling_finality(pni: u8, tip_is_final: bool, height: u64, window: &Vec<Option<Label>>)
    -> (res: Result<Label, AcceptError>)
    ensures
        res == spec_rolling_finality(pni, tip_is_final, height, window@),
{
    if pni != 0 {
        return Ok(Label::Accepted);
    }
    if tip_is_final {
        return Ok(Label::Final);
    }
    let depth = if height < CONSENSUS_ROLLING_FINALITY_THRESHOLD {
        height
    } else {
        CONSENSUS_ROLLING_FINALITY_THRESHOLD
    };
    let mut k: u64 = 0;
    while k < depth
        invariant
            k <= depth,
            pni == 0,
            !tip_is_final,
            depth == spec_window_depth(height),
            spec_scan_ancestors(window@, 0, depth as int) == spec_scan_ancestors(
                window@,
                k as int,
                depth as int,
            ),
        decreases depth - k,
    {
        if k >= window.len() as u64 {
            return Err(AcceptError::UnknownLabel);
        }
        match window[k as usize] {
            None => return Err(AcceptError::UnknownLabel),
            Some(Label::Final) => return Ok(Label::Final),
            Some(Label::Accepted) => return Ok(Label::Attested),
            Some(Label::Attested) => {},
        }
        k = k + 1;
    }
    Ok(Label::Final)
}

/// What the execution engine reports after it ran a block.
#[derive(Clone, Copy, Debug, PartialEq, Eq)]
pub struct VerificationOutput {
    pub state_root: crate::ledger::Hash,
    pub event_hash: crate::ledger::Hash,
}

/// What the caller has to do after a block was accepted.
#[derive(Clone, Copy, Debug, PartialEq, Eq, Structural)]
pub struct AcceptOutcome {
    /// The label under which the block is stored.
    pub label: Label,
    /// Whether the state after the block is to be finalized.
    pub finalize: bool,
    /// The time between the tip before and the block.
    pub block_time: u64,
    /// How many generators the block slashes.
    pub slashed_count: usize,
    /// Candidate blocks at this height or below are to be deleted.
    pub candidates_threshold: u64,
    /// The first round of which future messages are kept.
    pub future_msgs_from: u64,
    /// Whether the validator set has to be read anew from the execution
    /// engine, because it could not be brought up to date from the block.
    pub reload_provisioners: bool,
}

/// Whether the header follows from the header of the tip: one higher,
/// built on the tip's hash, and later.
pub open spec fn spec_follows(tip: HeaderView, header: HeaderView) -> bool {
    &&& header.height == tip.height + 1
    &&& header.prev_block_hash == tip.hash
    &&& header.timestamp > tip.timestamp
}

/// Whether the execution engine ended where the header says.
pub open spec fn spec_state_matches(header: HeaderView, state_root: Seq<u8>, event_hash: Seq<u8>)
    -> bool {
    header.state_hash == state_root && header.event_hash == event_hash
}

/// The label under which a block is accepted, or why it is not.
pub open spec fn spec_accept_label(
    tip: HeaderView,
    tip_is_final: bool,
    header: HeaderView,
    pni: u8,
    state_root: Seq<u8>,
    event_hash: Seq<u8>,
    window: Seq<Option<Label>>,
) -> Result<Label, AcceptError> {
    if !spec_follows(tip, header) {
        Err(AcceptError::HeaderInvalid)
    } else if !spec_state_matches(header, state_root, event_hash) {
        Err(AcceptError::StateRootMismatch)
    } else {
        spec_rolling_finality(pni, tip_is_final, header.height, window)
    }
}

/// A block is accepted only one above the tip. So acceptance gives a label
/// to a height that holds no block yet: the labels of the tip and of every
/// block below it are not written, and the outcome names no label but that
/// of the new block.
pub proof fn law_acceptance_labels_a_new_height(
    tip: HeaderView,
    tip_is_final: bool,
    header: HeaderView,
    pni: u8,
    state_root: Seq<u8>,
    event_hash: Seq<u8>,
    window: Seq<Option<Label>>,
)
    requires
        spec_accept_label(tip, tip_is_final, header, pni, state_root, event_hash, window) is Ok,
    ensures
        header.height == tip.height + 1,
{
}

/// The validator set that the changes of a block lead to, if it can be
/// reached from the current one; none if the set has to be read anew.
pub open spec fn spec_selective_result(
    m: Members,
    selective: Result<(Vec<ProvisionerChange>, Vec<Option<Stake>>), ProvisionerUpdateError>,
) -> Option<Members> {
    match selective {
        Err(_) => None,
        Ok((changes, stakes)) => if changes@.len() != stakes@.len() {
            None
        } else {
            match spec_selective(m, changes_view(changes@), stakes@, changes@.len() as int) {
                Ok(after) => Some(after),
                Err(_) => None,
            }
        },
    }
}

/// The tip of the chain and the validator set that the next block is
/// checked against.
#[derive(Debug)]
pub struct Acceptor {
    tip: BlockWithLabel,
    provisioners_list: ContextProvisioners,
}

/// Whether a revert has to be tried when a node starts: the ledger has
/// blocks, and its tip is not in the state that the execution engine is in.
pub open spec fn spec_needs_revert(tip: HeaderView, vm_state_root: Seq<u8>) -> bool {
    tip.height > 0 && tip.state_hash != vm_state_root
}

/// What is to be done with a message that reaches the chain layer.
#[derive(Clone, Copy, Debug, PartialEq, Eq, Structural)]
pub struct RerouteAction {
    /// Whether the message is to be sent on to the peers.
    pub broadcast: bool,
    /// Whether the message is to be handed to the running consensus.
    pub enqueue: bool,
    /// Whether the message is of a kind that the chain layer does not take.
    pub invalid: bool,
}

/// A consensus message is handed to the consensus only while the node is
/// close to the network: its round is at the tip or less than ten above.
pub open spec fn spec_enqueue_enabled(round: u64, tip_height: u64) -> bool {
    round >= tip_height && round - tip_height < 10
}

/// What is to be done with a message.
///
/// A candidate or a vote is sent on if no consensus is running, and handed
/// to the consensus if the node is close enough. A quorum is sent on if it
/// is for a valid block other than the tip. Everything else is not taken.
pub open spec fn spec_reroute(msg: Message, tip_height: u64, tip_hash: Seq<u8>, running: bool)
    -> RerouteAction {
    match msg.payload {
        Payload::Candidate(_) | Payload::Validation(_) | Payload::Ratification(_) => RerouteAction {
            broadcast: !running,
            enqueue: spec_enqueue_enabled(msg.header.round, tip_height),
            invalid: false,
        },
        Payload::Quorum(q) => RerouteAction {
            broadcast: q.att.result@.vote() matches VoteView::Valid(h) && h != tip_hash,
            enqueue: false,
            invalid: false,
        },
        _ => RerouteAction { broadcast: false, enqueue: false, invalid: true },
    }
}

/// The place of the first block of `chain` whose state is `target`.
pub open spec fn spec_is_revert_target(chain: Seq<BlockWithLabel>, target: Seq<u8>, i: int)
    -> bool {
    &&& 0 <= i < chain.len()
    &&& chain[i].blk.header.state_hash@ == target
    &&& forall|j: int| 0 <= j < i ==> (#[trigger] chain[j]).blk.header.state_hash@ != target
}

/// Whether the walk down the chain stops at this block: it is in the state
/// that the revert aims at.
pub fn revert_step(blk: &Block, target: &crate::ledger::Hash) -> (found: bool)
    ensures
        found == (blk.header.state_hash@ == target@),
{
    bytes_eq(blk.header.state_hash.as_slice(), target.as_slice())
}

/// Walks down `chain`, which holds the blocks from the tip downwards, and
/// finds the first block in the state `target`. The blocks before it are
/// those that the revert deletes.
pub fn find_revert_target(chain: &Vec<BlockWithLabel>, target: &crate::ledger::Hash) -> (res:
    Result<usize, AcceptError>)
    ensures
        match res {
            Ok(i) => spec_is_revert_target(chain@, target@, i as int),
            Err(e) => e == AcceptError::RevertFailed && forall|j: int|
                0 <= j < chain@.len() ==> (#[trigger] chain@[j]).blk.header.state_hash@ != target@,
        },
{
    let mut i: usize = 0;
    while i < chain.len()
        invariant
            i <= chain@.len(),
            forall|j: int| 0 <= j < i ==> (#[trigger] chain@[j]).blk.header.state_hash@ != target@,
        decreases chain@.len() - i,
    {
        if revert_step(&chain[i].blk, target) {
            return Ok(i);
        }
        i = i + 1;
    }
    Err(AcceptError::RevertFailed)
}

impl Acceptor {
    /// The tip of the chain.
    pub closed spec fn spec_tip(&self) -> BlockWithLabel {
        self.tip
    }

    /// The validator set that the next block is checked against.
    pub closed spec fn spec_current(&self) -> Members {
        self.provisioners_list.spec_current()
    }

    /// The validator set of the round before, where it is kept apart.
    pub closed spec fn spec_kept_prev(&self) -> Option<Members> {
        self.provisioners_list.spec_kept_prev()
    }

    pub fn tip(&self) -> (t: &BlockWithLabel)
        ensures
            *t == self.spec_tip(),
    {
        &self.tip
    }

    pub fn provisioners_list(&self) -> (l: &ContextProvisioners)
        ensures
            l.spec_current() == self.spec_current(),
            l.spec_kept_prev() == self.spec_kept_prev(),
    {
        &self.provisioners_list
    }

    /// Sets up the acceptor at the tip of the ledger. `changed` says what
    /// the validators that the tip changed held before it. The second result
    /// says whether the ledger is ahead of the execution engine, whose state
    /// root is `vm_state_root`, so that a revert has to be tried.
    pub fn init_consensus(
        tip: BlockWithLabel,
        provisioners_list: Provisioners,
        changed: Vec<(PublicKey, Option<Stake>)>,
        vm_state_root: &crate::ledger::Hash,
    ) -> (res: (Acceptor, bool))
        ensures
            res.0.spec_tip() == tip,
            res.0.spec_current() == provisioners_list@,
            res.0.spec_kept_prev() == (if tip.blk.header.height > 0
                && changed@.len() > 0 {
                Some(
                    crate::user::provisioners::spec_apply_changes(
                        provisioners_list@,
                        crate::user::provisioners::changes_view(changed@),
                        changed@.len() as int,
                    ),
                )
            } else {
                None
            }),
            res.1 == spec_needs_revert(tip.blk.header@, vm_state_root@),
    {
        let tip_height = tip.blk.header.height;
        let mut list = ContextProvisioners::new(provisioners_list);
        if tip_height > 0 {
            list.apply_changes(changed);
        }
        let differs = !bytes_eq(tip.blk.header.state_hash.as_slice(), vm_state_root.as_slice());
        let needs_revert = tip_height > 0 && differs;
        (Acceptor { tip, provisioners_list: list }, needs_revert)
    }

    pub fn get_curr_height(&self) -> (h: u64)
        ensures
            h == self.spec_tip().blk.header.height,
    {
        self.tip.blk.header.height
    }

    pub fn tip_header(&self) -> (h: &Header)
        ensures
            *h == self.spec_tip().blk.header,
    {
        &self.tip.blk.header
    }

    pub fn get_curr_hash(&self) -> (h: crate::ledger::Hash)
        ensures
            h == self.spec_tip().blk.header.hash,
    {
        self.tip.blk.header.hash
    }

    pub fn get_curr_iteration(&self) -> (i: u8)
        ensures
            i == self.spec_tip().blk.header.iteration,
    {
        self.tip.blk.header.iteration
    }

    /// Decides what is to be done with a message, given whether a consensus
    /// is running.
    pub fn reroute_msg(&self, msg: &Message, running: bool) -> (action: RerouteAction)
        ensures
            action == spec_reroute(
                *msg,
                self.spec_tip().blk.header.height,
                self.spec_tip().blk.header.hash@,
                running,
            ),
    {
        let curr_tip = self.get_curr_height();
        let enable_enqueue = msg.header.round >= curr_tip && msg.header.round - curr_tip < 10;
        match &msg.payload {
            Payload::Candidate(_) | Payload::Validation(_) | Payload::Ratification(_) => {
                RerouteAction { broadcast: !running, enqueue: enable_enqueue, invalid: false }
            },
            Payload::Quorum(payload) => {
                let broadcast = match payload.vote() {
                    Vote::Valid(hash) => !bytes_eq(
                        hash.as_slice(),
                        self.tip.blk.header.hash.as_slice(),
                    ),
                    _ => false,
                };
                RerouteAction { broadcast, enqueue: false, invalid: false }
            },
            _ => RerouteAction { broadcast: false, enqueue: false, invalid: true },
        }
    }

    /// Makes `blk`, which the ledger must hold, the tip, and takes the
    /// validator set as the execution engine has it after that block.
    /// `changed` says what the validators that the block changed held before
    /// it. Without the block in the ledger nothing changes.
    pub fn update_tip(
        &mut self,
        blk: Block,
        label: Label,
        exists: bool,
        current_prov: Provisioners,
        changed: Vec<(PublicKey, Option<Stake>)>,
    ) -> (res: Result<(), AcceptError>)
        ensures
            res is Ok <==> exists,
            !exists ==> res == Err::<(), AcceptError>(AcceptError::MissingBlock) && *final(self)
                == *old(self),
            exists ==> {
                &&& final(self).spec_tip() == (BlockWithLabel { blk, label })
                &&& final(self).spec_current() == current_prov@
                &&& final(self).spec_kept_prev() == (if changed@.len() == 0 {
                    None
                } else {
                    Some(
                        crate::user::provisioners::spec_apply_changes(
                            current_prov@,
                            crate::user::provisioners::changes_view(changed@),
                            changed@.len() as int,
                        ),
                    )
                })
            },
    {
        if !exists {
            return Err(AcceptError::MissingBlock);
        }
        self.provisioners_list.update(current_prov);
        self.provisioners_list.apply_changes(changed);
        self.tip = BlockWithLabel::new_with_label(blk, label);
        Ok(())
    }

    /// The label under which a block with this header would be accepted, or
    /// why it would not be. Nothing changes.
    pub fn accept_label(
        &self,
        header: &Header,
        pni: u8,
        output: &VerificationOutput,
        window: &Vec<Option<Label>>,
    ) -> (res: Result<Label, AcceptError>)
        ensures
            res == spec_accept_label(
                self.spec_tip().blk.header@,
                self.spec_tip().label == Label::Final,
                header@,
                pni,
                output.state_root@,
                output.event_hash@,
                window@,
            ),
    {
        let tip_header = &self.tip.blk.header;
        if tip_header.height == u64::MAX || header.height != tip_header.height + 1
            || header.timestamp <= tip_header.timestamp || !bytes_eq(
            header.prev_block_hash.as_slice(),
            tip_header.hash.as_slice(),
        ) {
            return Err(AcceptError::HeaderInvalid);
        }
        if !bytes_eq(header.state_hash.as_slice(), output.state_root.as_slice()) || !bytes_eq(
            header.event_hash.as_slice(),
            output.event_hash.as_slice(),
        ) {
            return Err(AcceptError::StateRootMismatch);
        }
        rolling_finality(pni, self.tip.is_final(), header.height, window)
    }

    /// Takes in a block that follows the tip.
    ///
    /// `pni` is what the verification of the header gave, `output` what the
    /// execution engine reports after the block, `window` the labels of the
    /// block's ancestors, nearest first. `selective` holds the changes that
    /// the block made to validators with the stakes that the execution
    /// engine reports for them, or the reason why the changes could not be
    /// found.
    ///
    /// A block that does not follow from the tip, or whose state is not the
    /// one that the engine ended in, or whose ancestors lack a label, is
    /// refused and nothing changes. Else the block becomes the tip under the
    /// label that the rolling finality rule gives it.
    pub fn try_accept_block(
        &mut self,
        blk: Block,
        pni: u8,
        output: &VerificationOutput,
        window: &Vec<Option<Label>>,
        selective: Result<(Vec<ProvisionerChange>, Vec<Option<Stake>>), ProvisionerUpdateError>,
    ) -> (res: Result<AcceptOutcome, AcceptError>)
        ensures
            match spec_accept_label(
                old(self).spec_tip().blk.header@,
                old(self).spec_tip().label == Label::Final,
                blk.header@,
                pni,
                output.state_root@,
                output.event_hash@,
                window@,
            ) {
                Err(e) => res == Err::<AcceptOutcome, AcceptError>(e) && *final(self) == *old(self),
                Ok(label) => {
                    &&& res matches Ok(outcome)
                    &&& final(self).spec_tip() == (BlockWithLabel { blk, label })
                    &&& outcome.label == label
                    &&& outcome.finalize == (label == Label::Final)
                    &&& outcome.block_time == blk.header.timestamp
                        - old(self).spec_tip().blk.header.timestamp
                    &&& outcome.slashed_count == spec_missed_generators(
                        blk.header.failed_iterations@,
                        blk.header.failed_iterations@.cert_list.len() as int,
                    ).len()
                    &&& outcome.candidates_threshold == (if blk.header.height
                        >= CANDIDATES_DELETION_OFFSET {
                        blk.header.height - CANDIDATES_DELETION_OFFSET
                    } else {
                        0
                    })
                    &&& outcome.future_msgs_from == (if blk.header.height == u64::MAX {
                        u64::MAX as int
                    } else {
                        blk.header.height + 1
                    })
                    &&& outcome.reload_provisioners == spec_selective_result(
                        old(self).spec_current(),
                        selective,
                    ).is_none()
                    &&& final(self).spec_current() == (match spec_selective_result(
                        old(self).spec_current(),
                        selective,
                    ) {
                        Some(m) => m,
                        None => old(self).spec_current(),
                    })
                    &&& final(self).spec_kept_prev() == (match selective {
                        Ok((changes, _)) => if spec_selective_result(
                            old(self).spec_current(),
                            selective,
                        ).is_none() {
                            old(self).spec_kept_prev()
                        } else if changes@.len() == 0 {
                            None
                        } else {
                            Some(old(self).spec_current())
                        },
                        Err(_) => old(self).spec_kept_prev(),
                    })
                },
            },
    {
        let label = match self.accept_label(&blk.header, pni, output, window) {
            Ok(l) => l,
            Err(e) => return Err(e),
        };
        let header = &blk.header;
        let block_time = header.timestamp - self.tip.blk.header.timestamp;
        let slashed_count = to_missed_generators_bytes(&header.failed_iterations).len();
        let height = header.height;
        let reload_provisioners = match selective {
            Ok((changes, stakes)) => selective_update(
                changes,
                &stakes,
                &mut self.provisioners_list,
            ).is_err(),
            Err(_) => true,
        };
        self.tip = BlockWithLabel::new_with_label(blk, label);
        Ok(
            AcceptOutcome {
                label,
                finalize: label.is_final(),
                block_time,
                slashed_count,
                candidates_threshold: if height >= CANDIDATES_DELETION_OFFSET {
                    height - CANDIDATES_DELETION_OFFSET
                } else {
                    0
                },
                future_msgs_from: if height == u64::MAX {
                    u64::MAX
                } else {
                    height + 1
                },
                reload_provisioners,
            },
        )
    }

    /// Replaces the validator set by the one read anew from the execution
    /// engine; the set that was current becomes the one of the round before.
    pub fn reload_provisioners(&mut self, new_prov: Provisioners)
        ensures
            final(self).spec_tip() == old(self).spec_tip(),
            final(self).spec_current() == new_prov@,
            final(self).spec_kept_prev() == Some(
                old(self).spec_current(),
            ),
    {
        self.provisioners_list.update_and_swap(new_prov);
    }

    /// Reverts the chain to the state `target_state_hash`, which is the
    /// state that the execution engine was reverted to. `chain` holds the
    /// blocks from the tip downwards, the genesis block left out. The first
    /// block in the target state becomes the tip, under its own label. The
    /// blocks before it are handed back: they are to be deleted, and their
    /// transactions, and no others, go back to the pool. If there is no block
    /// in the target state the revert fails and nothing changes.
    pub fn try_revert(
        &mut self,
        target_state_hash: &crate::ledger::Hash,
        chain: Vec<BlockWithLabel>,
        current_prov: Provisioners,
        changed: Vec<(PublicKey, Option<Stake>)>,
    ) -> (res: Result<Vec<BlockWithLabel>, AcceptError>)
        ensures
            match res {
                Ok(deleted) => {
                    &&& spec_is_revert_target(chain@, target_state_hash@, deleted@.len() as int)
                    &&& deleted@ == chain@.take(deleted@.len() as int)
                    &&& final(self).spec_tip() == chain@[deleted@.len() as int]
                    &&& final(self).spec_tip().blk.header.state_hash@ == target_state_hash@
                    &&& final(self).spec_current() == current_prov@
                    &&& final(self).spec_kept_prev() == (if changed@.len() == 0 {
                        None
                    } else {
                        Some(
                            crate::user::provisioners::spec_apply_changes(
                                current_prov@,
                                crate::user::provisioners::changes_view(changed@),
                                changed@.len() as int,
                            ),
                        )
                    })
                },
                Err(e) => {
                    &&& e == AcceptError::RevertFailed
                    &&& *final(self) == *old(self)
                    &&& forall|j: int|
                        0 <= j < chain@.len() ==> (#[trigger] chain@[j]).blk.header.state_hash@
                            != target_state_hash@
                },
            },
    {
        let at = match find_revert_target(&chain, target_state_hash) {
            Ok(i) => i,
            Err(e) => return Err(e),
        };
        let ghost whole = chain@;
        let mut deleted = chain;
        let mut rest = deleted.split_off(at);
        let found = rest.remove(0);
        assert(found == whole[at as int]);
        assert(deleted@ =~= whole.take(at as int));
        let label = found.label;
        let _ = self.update_tip(found.blk, label, true, current_prov, changed);
        Ok(deleted)
    }
}

/// The generators of the iterations before `iteration`, which all missed
/// their turn: for each the key, or nothing where no stake was eligible.
pub fn missed_iterations(provisioners: &Provisioners, iteration: u8, seed: Seed, round: u64)
    -> (missed: Vec<Option<PublicKeyBytes>>)
    ensures
        missed@.len() == iteration,
        forall|i: int|
            0 <= i < iteration ==> match #[trigger] missed@[i] {
                Some(k) => spec_generator(provisioners@, seed@, round, i as u8) == Some(k@),
                None => spec_generator(provisioners@, seed@, round, i as u8).is_none(),
            },
{
    let mut missed: Vec<Option<PublicKeyBytes>> = Vec::new();
    let mut iter: u8 = 0;
    while iter < iteration
        invariant
            iter <= iteration,
            missed@.len() == iter,
            forall|i: int|
                0 <= i < iter ==> match #[trigger] missed@[i] {
                    Some(k) => spec_generator(provisioners@, seed@, round, i as u8) == Some(k@),
                    None => spec_generator(provisioners@, seed@, round, i as u8).is_none(),
                },
        decreases iteration - iter,
    {
        missed.push(provisioners.get_generator(iter, seed, round));
        iter = iter + 1;
    }
    missed
}

/// The place of the first final label in `labels`, which holds the labels
/// of the blocks below the tip's parent, nearest first. Blocks without a
/// label are passed over.
pub fn find_latest_final(labels: &Vec<Option<Label>>) -> (at: Option<usize>)
    ensures
        match at {
            Some(i) => i < labels@.len() && labels@[i as int] == Some(Label::Final) && forall|
                j: int,
            |
                0 <= j < i ==> (#[trigger] labels@[j]) != Some(Label::Final),
            None => forall|j: int|
                0 <= j < labels@.len() ==> (#[trigger] labels@[j]) != Some(Label::Final),
        },
{
    let mut i: usize = 0;
    while i < labels.len()
        invariant
            i <= labels@.len(),
            forall|j: int| 0 <= j < i ==> (#[trigger] labels@[j]) != Some(Label::Final),
        decreases labels@.len() - i,
    {
        match labels[i] {
            Some(Label::Final) => return Some(i),
            _ => {},
        }
        i = i + 1;
    }
    None
}

} // verus!
