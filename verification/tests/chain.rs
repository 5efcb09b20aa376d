use bls12_381_bls::{PublicKey as BlsPublicKey, SecretKey};
use consensus_core::bls::PublicKey;
use consensus_core::commons::TimeoutSet;
use consensus_core::message::StepName;
use consensus_core::phase::{IterationCtx, Phase, PhaseEvent};
use consensus_core::chain::acceptor::{
    changed_provisioners, find_latest_final, find_revert_target, missed_iterations,
    parse_stake_call, revert_step, rolling_finality, same_text, selective_update,
    stake_contract_id, to_missed_generators_bytes, AcceptError, AcceptOutcome, Acceptor,
    ChangeKind, ContractCall, ProvisionerChange, ProvisionerUpdateError, RerouteAction,
    RevertTarget, TxCall, VerificationOutput,
};
use consensus_core::chain::future_msgs::FutureMsgs;
use consensus_core::chain::metrics::{
    adjust_round_base_timeouts, increase_timeout, read_avg_timeout, AverageElapsedTime,
    StoredAverage,
};
use consensus_core::config::{
    CANDIDATES_DELETION_OFFSET, CONSENSUS_MAX_ITER, CONSENSUS_ROLLING_FINALITY_THRESHOLD,
    MAX_STEP_TIMEOUT, MIN_STEP_TIMEOUT, OFFSET_FUTURE_MSGS, REDUNDANCY_PEER_COUNT,
};
use consensus_core::ledger::{
    Attestation, Block, BlockWithLabel, Header, IterationsInfo, Label, PublicKeyBytes,
    RatificationResult, Seed, Signature, StepVotes, Vote,
};
use consensus_core::message::{
    Candidate, ConsensusHeader, Message, Metadata, Payload, Quorum, SignInfo, Validation,
};
use consensus_core::network::{
    broadcast_plan, request_deadline, sender_arrives, BroadcastPlan, RouteError, Routes,
};
use consensus_core::recovery::{
    check_in_place, contracts_missing, genesis_stake_balance, plan, stake_amount, ExecConfig,
    ExecPlan, StateError, FAUCET_DUSK, GENESIS_DUSK, MINIMUM_STAKE,
};
use consensus_core::transfer::{
    EconomicEvent, EconomicResult, Stct, WfctRaw, Wfctc, TRANSFER_TREE_DEPTH,
};
use consensus_core::user::provisioners::{ContextProvisioners, Provisioners, Stake};
use consensus_core::user::sortition::DUSK;
use dusk_bytes::Serializable;
use rand::rngs::StdRng;
use rand::SeedableRng;

fn keys(n: usize) -> Vec<PublicKey> {
    let mut rng = StdRng::seed_from_u64(0xdead);
    (0..n)
        .map(|_| {
            let pk = BlsPublicKey::from(&SecretKey::random(&mut rng));
            PublicKey::try_from_bytes(PublicKeyBytes(pk.to_bytes())).unwrap()
        })
        .collect()
}

fn provisioners(keys: &[PublicKey], value: u64) -> Provisioners {
    let mut p = Provisioners::empty();
    for k in keys {
        p.replace_stake(*k, Stake::new(value, 0));
    }
    p
}

fn header(height: u64, hash: u8, prev: u8, state: u8, timestamp: u64) -> Header {
    Header {
        version: 0,
        height,
        timestamp,
        prev_block_hash: [prev; 32],
        seed: Seed([0; 48]),
        state_hash: [state; 32],
        event_hash: [state.wrapping_add(100); 32],
        generator_bls_pubkey: PublicKeyBytes([0; 96]),
        txroot: [0; 32],
        gas_limit: 0,
        iteration: 0,
        prev_block_cert: Attestation::default(),
        failed_iterations: IterationsInfo { cert_list: vec![] },
        hash: [hash; 32],
        att: Attestation::default(),
    }
}

fn block(height: u64, hash: u8, prev: u8, state: u8, timestamp: u64) -> Block {
    Block { header: header(height, hash, prev, state, timestamp), txs: vec![] }
}

fn output(state: u8) -> VerificationOutput {
    VerificationOutput { state_root: [state; 32], event_hash: [state.wrapping_add(100); 32] }
}

fn acceptor(tip: Block, label: Label, keys: &[PublicKey]) -> Acceptor {
    let state = tip.header.state_hash;
    let (acc, needs_revert) = Acceptor::init_consensus(
        BlockWithLabel::new_with_label(tip, label),
        provisioners(keys, 1000 * DUSK),
        vec![],
        &state,
    );
    assert!(!needs_revert);
    acc
}

#[test]
fn stake_contract_identifier() {
    let mut expected = [0u8; 32];
    expected[0] = 2;
    assert_eq!(stake_contract_id(), expected);
}

#[test]
fn provisioner_changes() {
    let k = keys(1)[0];
    for (change, is_stake, kind) in [
        (ProvisionerChange::Stake(k), true, ChangeKind::Stake),
        (ProvisionerChange::Unstake(k), false, ChangeKind::Unstake),
        (ProvisionerChange::Slash(k), false, ChangeKind::Slash),
        (ProvisionerChange::Reward(k), false, ChangeKind::Reward),
    ] {
        assert_eq!(change.is_stake(), is_stake);
        assert!(change.into_public_key().same(&k));
        assert_eq!(is_stake, kind == ChangeKind::Stake);
    }
    assert_ne!(RevertTarget::LastFinalizedState, RevertTarget::Commit([0; 32]));
    assert_ne!(RevertTarget::LastFinalizedState, RevertTarget::LastEpoch);
}

fn call(contract: [u8; 32], name: &str, account: Option<PublicKey>, succeeded: bool) -> TxCall {
    TxCall {
        succeeded,
        call: Some(ContractCall {
            contract,
            fn_name: name.to_string(),
            account: account.map(|k| *k.bytes()),
        }),
    }
}

fn kinds(changes: &[ProvisionerChange]) -> Vec<(ChangeKind, PublicKeyBytes)> {
    changes
        .iter()
        .map(|c| {
            let kind = match c {
                ProvisionerChange::Stake(_) => ChangeKind::Stake,
                ProvisionerChange::Unstake(_) => ChangeKind::Unstake,
                ProvisionerChange::Slash(_) => ChangeKind::Slash,
                ProvisionerChange::Reward(_) => ChangeKind::Reward,
            };
            (kind, *c.into_public_key().bytes())
        })
        .collect()
}

#[test]
fn changes_of_a_block() {
    let k = keys(6);
    let (generator, treasury, missed, staker, unstaker, other) =
        (k[0], k[1], k[2], k[3], k[4], k[5]);
    let failed = IterationsInfo {
        cert_list: vec![None, Some((Attestation::default(), *missed.bytes())), None],
    };
    assert_eq!(to_missed_generators_bytes(&failed), vec![*missed.bytes()]);
    let stake_contract = stake_contract_id();
    let txs = vec![
        call(stake_contract, "stake", Some(staker), true),
        // a transaction that failed
        call(stake_contract, "stake", Some(other), false),
        // another contract
        call([9; 32], "stake", Some(other), true),
        // another function
        call(stake_contract, "withdraw", Some(other), true),
        // no call at all
        TxCall { succeeded: true, call: None },
        call(stake_contract, "unstake", Some(unstaker), true),
    ];
    let changes = changed_provisioners(generator.bytes(), &treasury, &failed, &txs).unwrap();
    assert_eq!(
        kinds(&changes),
        vec![
            (ChangeKind::Reward, *generator.bytes()),
            (ChangeKind::Reward, *treasury.bytes()),
            (ChangeKind::Slash, *missed.bytes()),
            (ChangeKind::Stake, *staker.bytes()),
            (ChangeKind::Unstake, *unstaker.bytes()),
        ]
    );
    // without failed iterations and calls: the two rewards
    let none = IterationsInfo { cert_list: vec![] };
    let changes = changed_provisioners(generator.bytes(), &treasury, &none, &vec![]).unwrap();
    assert_eq!(changes.len(), 2);

    // a generator that is no key
    assert_eq!(
        changed_provisioners(&PublicKeyBytes([0xff; 96]), &treasury, &failed, &txs).map(|_| ()),
        Err(ProvisionerUpdateError::InvalidKey)
    );
    // a missed generator that is no key
    let bad = IterationsInfo {
        cert_list: vec![Some((Attestation::default(), PublicKeyBytes([0xff; 96])))],
    };
    assert_eq!(
        changed_provisioners(generator.bytes(), &treasury, &bad, &txs).map(|_| ()),
        Err(ProvisionerUpdateError::InvalidKey)
    );
    // call data that names nobody
    let txs = vec![call(stake_contract, "unstake", None, true)];
    assert_eq!(
        changed_provisioners(generator.bytes(), &treasury, &none, &txs).map(|_| ()),
        Err(ProvisionerUpdateError::InvalidCallData)
    );
    // call data that names no key
    let txs = vec![TxCall {
        succeeded: true,
        call: Some(ContractCall {
            contract: stake_contract,
            fn_name: "stake".to_string(),
            account: Some(PublicKeyBytes([0xff; 96])),
        }),
    }];
    assert_eq!(
        changed_provisioners(generator.bytes(), &treasury, &none, &txs).map(|_| ()),
        Err(ProvisionerUpdateError::InvalidKey)
    );
}

#[test]
fn stake_calls() {
    let k = keys(1)[0];
    assert!(matches!(
        parse_stake_call("stake", Some(*k.bytes())),
        Ok(ProvisionerChange::Stake(pk)) if pk.same(&k)
    ));
    assert!(matches!(
        parse_stake_call("unstake", Some(*k.bytes())),
        Ok(ProvisionerChange::Unstake(pk)) if pk.same(&k)
    ));
    assert!(matches!(
        parse_stake_call("stake", None),
        Err(ProvisionerUpdateError::InvalidCallData)
    ));
    assert!(matches!(
        parse_stake_call("unstake", Some(PublicKeyBytes([0xff; 96]))),
        Err(ProvisionerUpdateError::InvalidKey)
    ));
    assert!(same_text("stake", "stake"));
    assert!(!same_text("stake", "unstake"));
    assert!(!same_text("stake", "stak\u{e9}"));
    assert!(same_text("", ""));
}

#[test]
fn selective_update_of_the_validator_set() {
    let k = keys(5);
    let start = provisioners(&k[..3], 1000);
    let mut list = ContextProvisioners::new(start.clone());
    assert_eq!(list.current(), &start);
    assert_eq!(list.prev(), &start);

    // a reward changes a stake, a new stake brings in a member, an unstake
    // takes one out
    let changes = vec![
        ProvisionerChange::Reward(k[0]),
        ProvisionerChange::Stake(k[3]),
        ProvisionerChange::Unstake(k[1]),
    ];
    let stakes = vec![Some(Stake::new(1500, 0)), Some(Stake::new(2000, 8)), None];
    assert_eq!(selective_update(changes, &stakes, &mut list), Ok(()));
    let mut expected = Provisioners::empty();
    expected.replace_stake(k[0], Stake::new(1500, 0));
    expected.replace_stake(k[2], Stake::new(1000, 0));
    expected.replace_stake(k[3], Stake::new(2000, 8));
    assert_eq!(list.current(), &expected);
    assert_eq!(list.prev(), &start);

    // no changes: the set of the round before is forgotten
    assert_eq!(selective_update(vec![], &vec![], &mut list), Ok(()));
    assert_eq!(list.current(), &expected);
    assert_eq!(list.prev(), &expected);

    // a reward for somebody who is not in the set
    let changes = vec![ProvisionerChange::Stake(k[1]), ProvisionerChange::Reward(k[4])];
    let stakes = vec![Some(Stake::new(1, 0)), Some(Stake::new(1, 0))];
    assert_eq!(
        selective_update(changes, &stakes, &mut list),
        Err(ProvisionerUpdateError::ReplacedMissingStake)
    );
    assert_eq!(list.current(), &expected);
    assert_eq!(list.prev(), &expected);
    // a removal of somebody who is not in the set
    let changes = vec![ProvisionerChange::Slash(k[4])];
    assert_eq!(
        selective_update(changes, &vec![None], &mut list),
        Err(ProvisionerUpdateError::RemovedMissingStake)
    );
    // a new stake for somebody who has one replaces it
    let changes = vec![ProvisionerChange::Stake(k[0])];
    assert_eq!(selective_update(changes, &vec![Some(Stake::new(9, 9))], &mut list), Ok(()));
    assert_eq!(list.current().get_stake(&k[0]), Some(Stake::new(9, 9)));
    assert_eq!(list.prev(), &expected);
    // answers that do not match the changes
    let changes = vec![ProvisionerChange::Stake(k[0])];
    assert_eq!(
        selective_update(changes, &vec![], &mut list),
        Err(ProvisionerUpdateError::MissingAnswer)
    );
}

#[test]
fn previous_validator_set_is_derived_from_changes() {
    let k = keys(4);
    let current = provisioners(&k[..3], 1000);
    let mut list = ContextProvisioners::new(current.clone());
    // before the block: k[0] had less, k[1] was not there, k[3] was there
    list.apply_changes(vec![
        (k[0], Some(Stake::new(900, 0))),
        (k[1], None),
        (k[3], Some(Stake::new(5, 0))),
    ]);
    let mut prev = Provisioners::empty();
    prev.replace_stake(k[0], Stake::new(900, 0));
    prev.replace_stake(k[2], Stake::new(1000, 0));
    prev.replace_stake(k[3], Stake::new(5, 0));
    assert_eq!(list.current(), &current);
    assert_eq!(list.prev(), &prev);
    list.apply_changes(vec![]);
    assert_eq!(list.prev(), &current);
    list.update_and_swap(prev.clone());
    assert_eq!(list.current(), &prev);
    assert_eq!(list.prev(), &current);
    list.update(current.clone());
    assert_eq!(list.current(), &current);
    assert_eq!(list.prev(), &current);
    list.remove_previous();
    assert_eq!(list.prev(), &current);
}

#[test]
fn rolling_finality_labels() {
    let a = Some(Label::Accepted);
    let t = Some(Label::Attested);
    let f = Some(Label::Final);
    // iterations that failed without attestation: accepted, whatever else
    assert_eq!(rolling_finality(1, true, 10, &vec![]), Ok(Label::Accepted));
    assert_eq!(rolling_finality(3, false, 10, &vec![None]), Ok(Label::Accepted));
    // on a final tip: final
    assert_eq!(rolling_finality(0, true, 10, &vec![]), Ok(Label::Final));
    // on a tip that is not final: the ancestors decide
    assert_eq!(rolling_finality(0, false, 10, &vec![a]), Ok(Label::Attested));
    assert_eq!(rolling_finality(0, false, 10, &vec![t, t, a, f]), Ok(Label::Attested));
    assert_eq!(rolling_finality(0, false, 10, &vec![t, t, f, a]), Ok(Label::Final));
    assert_eq!(rolling_finality(0, false, 10, &vec![f]), Ok(Label::Final));
    // only attested ancestors as far as the rule looks
    let window = vec![t; CONSENSUS_ROLLING_FINALITY_THRESHOLD as usize];
    assert_eq!(rolling_finality(0, false, 100, &window), Ok(Label::Final));
    let mut longer = window.clone();
    longer.push(a);
    assert_eq!(rolling_finality(0, false, 100, &longer), Ok(Label::Final));
    // a young chain: all its blocks are looked at
    assert_eq!(rolling_finality(0, false, 3, &vec![t, t, t]), Ok(Label::Final));
    assert_eq!(rolling_finality(0, false, 3, &vec![t, t, a]), Ok(Label::Attested));
    assert_eq!(rolling_finality(0, false, 0, &vec![]), Ok(Label::Final));
    // a hole in the labels
    assert_eq!(rolling_finality(0, false, 10, &vec![t, None, a]), Err(AcceptError::UnknownLabel));
    assert_eq!(rolling_finality(0, false, 10, &vec![t, t]), Err(AcceptError::UnknownLabel));
    assert_eq!(rolling_finality(0, false, 10, &vec![]), Err(AcceptError::UnknownLabel));
    // a hole behind the label that decides does not matter
    assert_eq!(rolling_finality(0, false, 10, &vec![t, a, None]), Ok(Label::Attested));
}

#[test]
fn labels_never_step_back() {
    for (from, to, ok) in [
        (Label::Accepted, Label::Accepted, true),
        (Label::Accepted, Label::Attested, true),
        (Label::Accepted, Label::Final, true),
        (Label::Attested, Label::Accepted, false),
        (Label::Attested, Label::Attested, true),
        (Label::Attested, Label::Final, true),
        (Label::Final, Label::Accepted, false),
        (Label::Final, Label::Attested, false),
        (Label::Final, Label::Final, true),
    ] {
        assert_eq!(from.may_become(to), ok);
        let mut b = BlockWithLabel::new_with_label(block(1, 1, 0, 1, 1), from);
        assert_eq!(b.relabel(to), ok);
        assert_eq!(b.label(), if ok { to } else { from });
        assert_eq!(b.is_final(), b.label() == Label::Final);
        assert_eq!(b.inner(), &block(1, 1, 0, 1, 1));
    }
}

#[test]
fn happy_path_block_on_a_final_tip_is_final() {
    let k = keys(4);
    let mut acc = acceptor(block(9, 0x99, 0x88, 1, 1000), Label::Final, &k);
    let blk = block(10, 0xaa, 0x99, 2, 1010);
    let outcome = acc
        .try_accept_block(blk.clone(), 0, &output(2), &vec![], Err(ProvisionerUpdateError::InvalidKey))
        .unwrap();
    assert_eq!(
        outcome,
        AcceptOutcome {
            label: Label::Final,
            finalize: true,
            block_time: 10,
            slashed_count: 0,
            candidates_threshold: 0,
            future_msgs_from: 11,
            reload_provisioners: true,
        }
    );
    assert_eq!(*acc.tip(), BlockWithLabel::new_with_label(blk, Label::Final));
    assert_eq!(acc.get_curr_height(), 10);
    assert_eq!(acc.get_curr_hash(), [0xaa; 32]);
    assert_eq!(acc.get_curr_iteration(), 0);
    assert_eq!(acc.tip_header().timestamp, 1010);
}

#[test]
fn block_after_a_missed_iteration_is_accepted() {
    let k = keys(4);
    let mut acc = acceptor(block(9, 0x99, 0x88, 1, 1000), Label::Final, &k);
    let mut blk = block(10, 0xaa, 0x99, 2, 1010);
    blk.header.iteration = 1;
    blk.header.failed_iterations = IterationsInfo {
        cert_list: vec![Some((Attestation::default(), *k[0].bytes()))],
    };
    let changes =
        changed_provisioners(k[1].bytes(), &k[3], &blk.header.failed_iterations, &vec![]).unwrap();
    assert_eq!(changes.len(), 3);
    let stakes = vec![
        Some(Stake::new(1001 * DUSK, 0)),
        Some(Stake::new(1000 * DUSK + 1, 0)),
        Some(Stake::new(900 * DUSK, 0)),
    ];
    let outcome =
        acc.try_accept_block(blk, 1, &output(2), &vec![], Ok((changes, stakes))).unwrap();
    assert_eq!(outcome.label, Label::Accepted);
    assert!(!outcome.finalize);
    assert_eq!(outcome.slashed_count, 1);
    assert!(!outcome.reload_provisioners);
    assert_eq!(acc.tip().label(), Label::Accepted);
    let current = acc.provisioners_list().current();
    assert_eq!(current.get_stake(&k[0]), Some(Stake::new(900 * DUSK, 0)));
    assert_eq!(current.get_stake(&k[1]), Some(Stake::new(1001 * DUSK, 0)));
    assert_eq!(current.get_stake(&k[2]), Some(Stake::new(1000 * DUSK, 0)));
    assert_eq!(current.get_stake(&k[3]), Some(Stake::new(1000 * DUSK + 1, 0)));
    assert_eq!(acc.provisioners_list().prev().get_stake(&k[0]), Some(Stake::new(1000 * DUSK, 0)));
    // the next block, without failed iterations, on a tip that is not final
    let next = block(11, 0xbb, 0xaa, 3, 1020);
    let window = vec![Some(Label::Accepted), Some(Label::Final)];
    let outcome = acc
        .try_accept_block(next, 0, &output(3), &window, Ok((vec![], vec![])))
        .unwrap();
    assert_eq!(outcome.label, Label::Attested);
    assert_eq!(outcome.candidates_threshold, 11 - CANDIDATES_DELETION_OFFSET);
    assert!(!outcome.reload_provisioners);
    // the generators that missed their turn
    let p = provisioners(&k, 1000 * DUSK);
    let missed = missed_iterations(&p, 2, Seed([0; 48]), 10);
    assert_eq!(
        missed,
        vec![p.get_generator(0, Seed([0; 48]), 10), p.get_generator(1, Seed([0; 48]), 10)]
    );
    assert!(missed_iterations(&p, 0, Seed([0; 48]), 10).is_empty());
}

#[test]
fn blocks_that_are_refused_change_nothing() {
    let k = keys(2);
    let tip = block(9, 0x99, 0x88, 1, 1000);
    let mut acc = acceptor(tip.clone(), Label::Attested, &k);
    let no_update = || Err(ProvisionerUpdateError::InvalidKey);
    let window = vec![Some(Label::Final)];
    for (blk, out, expected) in [
        // not the next height
        (block(11, 0xaa, 0x99, 2, 1010), output(2), AcceptError::HeaderInvalid),
        (block(9, 0xaa, 0x99, 2, 1010), output(2), AcceptError::HeaderInvalid),
        // not built on the tip
        (block(10, 0xaa, 0x77, 2, 1010), output(2), AcceptError::HeaderInvalid),
        // not later than the tip
        (block(10, 0xaa, 0x99, 2, 1000), output(2), AcceptError::HeaderInvalid),
        (block(10, 0xaa, 0x99, 2, 999), output(2), AcceptError::HeaderInvalid),
        // the engine ended elsewhere
        (block(10, 0xaa, 0x99, 2, 1010), output(3), AcceptError::StateRootMismatch),
        (
            block(10, 0xaa, 0x99, 2, 1010),
            VerificationOutput { state_root: [2; 32], event_hash: [0; 32] },
            AcceptError::StateRootMismatch,
        ),
    ] {
        assert_eq!(acc.try_accept_block(blk, 0, &out, &window, no_update()), Err(expected));
        assert_eq!(*acc.tip(), BlockWithLabel::new_with_label(tip.clone(), Label::Attested));
    }
    // an ancestor without label
    assert_eq!(
        acc.try_accept_block(block(10, 0xaa, 0x99, 2, 1010), 0, &output(2), &vec![None], no_update()),
        Err(AcceptError::UnknownLabel)
    );
    assert_eq!(*acc.tip(), BlockWithLabel::new_with_label(tip, Label::Attested));
    // the block is taken once everything fits
    assert_eq!(
        acc.try_accept_block(block(10, 0xaa, 0x99, 2, 1001), 0, &output(2), &window, no_update())
            .map(|o| (o.label, o.block_time)),
        Ok((Label::Final, 1))
    );
    // after a failed update the validator set is read anew
    let fresh = provisioners(&k[..1], 5);
    let old = acc.provisioners_list().current().clone();
    acc.reload_provisioners(fresh.clone());
    assert_eq!(acc.provisioners_list().current(), &fresh);
    assert_eq!(acc.provisioners_list().prev(), &old);
}

#[test]
fn future_buffer() {
    let msg = |round: u64| Message {
        header: ConsensusHeader {
            prev_block_hash: [0; 32],
            round,
            iteration: 0,
            block_hash: [round as u8; 32],
        },
        payload: Payload::Empty,
        metadata: None,
    };
    assert_eq!(OFFSET_FUTURE_MSGS, 5);
    let mut f = FutureMsgs::new();
    // the tip is at 100: rounds 101 to 105 are kept
    assert!(f.put_msg(msg(104), 100));
    assert!(!f.put_msg(msg(106), 100));
    assert!(!f.put_msg(msg(100), 100));
    assert!(f.put_msg(msg(101), 100));
    assert!(f.put_msg(msg(105), 100));
    assert!(f.put_msg(msg(102), 100));
    assert!(f.put_msg(msg(104), 100));
    assert_eq!(f.msg_count(), 5);
    // block 101 is accepted: the window is now 102 to 106
    f.remove_msgs_out_of_range(102, OFFSET_FUTURE_MSGS);
    let rounds: Vec<u64> = f.msgs.iter().map(|m| m.header.round).collect();
    assert_eq!(rounds, vec![104, 105, 102, 104]);
    assert!(f.put_msg(msg(106), 101));
    assert!(!f.put_msg(msg(107), 101));
    assert!(!f.put_msg(msg(101), 101));
    f.prune(103);
    let rounds: Vec<u64> = f.msgs.iter().map(|m| m.header.round).collect();
    assert_eq!(rounds, vec![104, 105, 104, 106]);
    f.prune(200);
    assert_eq!(f.msg_count(), 0);
    // at the end of the range
    let mut f = FutureMsgs::new();
    assert!(f.put_msg(msg(u64::MAX), u64::MAX - 1));
    assert!(f.put_msg(msg(u64::MAX), u64::MAX));
    assert!(!f.put_msg(msg(u64::MAX - 1), u64::MAX));
}

#[test]
fn revert_to_the_last_finalized_state() {
    let k = keys(3);
    // the tip is at 200 in state 200; the engine is back in the state of 197
    let chain: Vec<BlockWithLabel> = (0..10u64)
        .map(|i| {
            let height = 200 - i;
            let label = if height <= 197 { Label::Final } else { Label::Accepted };
            BlockWithLabel::new_with_label(
                block(height, height as u8, (height - 1) as u8, height as u8, 1000 + height),
                label,
            )
        })
        .collect();
    let tip = chain[0].clone();
    let (mut acc, needs_revert) = Acceptor::init_consensus(
        tip.clone(),
        provisioners(&k, 1000),
        vec![],
        &[197; 32],
    );
    assert!(needs_revert);
    let target = [197u8; 32];
    assert!(!revert_step(chain[0].inner(), &target));
    assert!(revert_step(chain[3].inner(), &target));
    assert_eq!(find_revert_target(&chain, &target), Ok(3));
    let after = provisioners(&k[..2], 7);
    let deleted = acc.try_revert(&target, chain.clone(), after.clone(), vec![]).unwrap();
    // 200, 199 and 198 are deleted, and their transactions go back to the pool
    assert_eq!(deleted, chain[..3].to_vec());
    let heights: Vec<u64> = deleted.iter().map(|b| b.inner().header().height).collect();
    assert_eq!(heights, vec![200, 199, 198]);
    assert_eq!(*acc.tip(), chain[3]);
    assert_eq!(acc.get_curr_height(), 197);
    assert_eq!(acc.tip().label(), Label::Final);
    assert_eq!(acc.tip_header().state_hash, target);
    assert_eq!(acc.provisioners_list().current(), &after);

    // a state that no block is in
    let mut acc = acceptor(tip.inner().clone(), Label::Accepted, &k);
    assert_eq!(find_revert_target(&chain, &[1; 32]), Err(AcceptError::RevertFailed));
    assert_eq!(
        acc.try_revert(&[1; 32], chain.clone(), after.clone(), vec![]),
        Err(AcceptError::RevertFailed)
    );
    assert_eq!(*acc.tip(), BlockWithLabel::new_with_label(tip.inner().clone(), Label::Accepted));
    assert_eq!(acc.try_revert(&target, vec![], after, vec![]), Err(AcceptError::RevertFailed));
    // the tip itself is in the state
    let mut acc = acceptor(tip.inner().clone(), Label::Accepted, &k);
    assert_eq!(acc.try_revert(&[200; 32], chain, provisioners(&k, 1), vec![]), Ok(vec![]));
    assert_eq!(acc.get_curr_height(), 200);
}

#[test]
fn start_of_the_acceptor() {
    let k = keys(3);
    let set = provisioners(&k, 1000);
    // a ledger with the genesis block alone is never reverted
    let genesis = BlockWithLabel::new_with_label(block(0, 1, 0, 1, 1), Label::Final);
    let (acc, needs_revert) = Acceptor::init_consensus(
        genesis,
        set.clone(),
        vec![(k[0], None)],
        &[9; 32],
    );
    assert!(!needs_revert);
    assert_eq!(acc.provisioners_list().prev(), &set);
    // a tip in the state of the engine
    let tip = BlockWithLabel::new_with_label(block(5, 1, 0, 4, 1), Label::Accepted);
    let (acc, needs_revert) = Acceptor::init_consensus(
        tip.clone(),
        set.clone(),
        vec![(k[0], None)],
        &[4; 32],
    );
    assert!(!needs_revert);
    assert_eq!(acc.provisioners_list().current(), &set);
    assert_eq!(acc.provisioners_list().prev(), &provisioners(&k[1..], 1000));
    // a tip ahead of the engine
    let (_, needs_revert) = Acceptor::init_consensus(tip, set, vec![], &[3; 32]);
    assert!(needs_revert);
}

#[test]
fn tip_update() {
    let k = keys(3);
    let mut acc = acceptor(block(9, 0x99, 0x88, 1, 1000), Label::Final, &k);
    let before = acc.tip().clone();
    let blk = block(7, 0x77, 0x66, 5, 900);
    let set = provisioners(&k[..2], 3);
    assert_eq!(
        acc.update_tip(blk.clone(), Label::Attested, false, set.clone(), vec![]),
        Err(AcceptError::MissingBlock)
    );
    assert_eq!(*acc.tip(), before);
    assert_eq!(
        acc.update_tip(blk.clone(), Label::Attested, true, set.clone(), vec![(k[2], Some(Stake::new(1, 1)))]),
        Ok(())
    );
    assert_eq!(*acc.tip(), BlockWithLabel::new_with_label(blk, Label::Attested));
    assert_eq!(acc.provisioners_list().current(), &set);
    assert_eq!(acc.provisioners_list().prev().get_stake(&k[2]), Some(Stake::new(1, 1)));
}

#[test]
fn rerouting_of_messages() {
    let k = keys(1);
    let acc = acceptor(block(100, 0x99, 0x88, 1, 1000), Label::Final, &k);
    let h = |round: u64| ConsensusHeader {
        prev_block_hash: [0; 32],
        round,
        iteration: 0,
        block_hash: [1; 32],
    };
    let vote = |round: u64| Message {
        header: h(round),
        payload: Payload::Validation(Validation {
            header: h(round),
            vote: Vote::NoQuorum,
            sign_info: SignInfo {
                signer: PublicKeyBytes([0; 96]),
                signature: Signature([0; 48]),
            },
        }),
        metadata: None,
    };
    let action = |broadcast, enqueue, invalid| RerouteAction { broadcast, enqueue, invalid };
    // close to the tip: handed to the consensus
    assert_eq!(acc.reroute_msg(&vote(100), true), action(false, true, false));
    assert_eq!(acc.reroute_msg(&vote(109), true), action(false, true, false));
    assert_eq!(acc.reroute_msg(&vote(110), true), action(false, false, false));
    assert_eq!(acc.reroute_msg(&vote(99), true), action(false, false, false));
    // no consensus running: sent on as well
    assert_eq!(acc.reroute_msg(&vote(101), false), action(true, true, false));
    assert_eq!(acc.reroute_msg(&vote(500), false), action(true, false, false));
    let candidate = Message {
        header: h(101),
        payload: Payload::Candidate(Candidate { candidate: block(101, 1, 0x99, 2, 1001) }),
        metadata: None,
    };
    assert_eq!(acc.reroute_msg(&candidate, false), action(true, true, false));
    // a quorum is sent on if it is for a valid block that is not the tip
    let quorum = |result| Message {
        header: h(101),
        payload: Payload::Quorum(Quorum {
            header: h(101),
            att: Attestation {
                result,
                validation: StepVotes::default(),
                ratification: StepVotes::default(),
            },
        }),
        metadata: None,
    };
    let valid = |hash: u8| RatificationResult::Success(Vote::Valid([hash; 32]));
    assert_eq!(acc.reroute_msg(&quorum(valid(0x11)), true), action(true, false, false));
    assert_eq!(acc.reroute_msg(&quorum(valid(0x99)), true), action(false, false, false));
    assert_eq!(
        acc.reroute_msg(&quorum(RatificationResult::Fail(Vote::NoQuorum)), false),
        action(false, false, false)
    );
    assert_eq!(
        acc.reroute_msg(&quorum(RatificationResult::Fail(Vote::Invalid([0x11; 32]))), false),
        action(false, false, false)
    );
    // anything else is not taken
    let empty = Message { header: h(101), payload: Payload::Empty, metadata: None };
    assert_eq!(acc.reroute_msg(&empty, false), action(false, false, true));
}

#[test]
fn latest_final_block() {
    let a = Some(Label::Accepted);
    let t = Some(Label::Attested);
    let f = Some(Label::Final);
    assert_eq!(find_latest_final(&vec![a, t, None, f, f]), Some(3));
    assert_eq!(find_latest_final(&vec![f]), Some(0));
    assert_eq!(find_latest_final(&vec![a, t, None]), None);
    assert_eq!(find_latest_final(&vec![]), None);
}

#[test]
fn base_timeouts() {
    assert_eq!(MIN_STEP_TIMEOUT, 7_000);
    assert_eq!(MAX_STEP_TIMEOUT, 40_000);
    let stored = |values: &[u64]| {
        let mut avg = AverageElapsedTime::new();
        for v in values {
            avg.push_back(*v);
        }
        let mut bytes = vec![];
        avg.write(&mut bytes);
        StoredAverage::Bytes(bytes)
    };
    // the average, rounded down
    assert_eq!(read_avg_timeout(&stored(&[10_000, 20_001])), 15_000);
    assert_eq!(read_avg_timeout(&stored(&[8_000, 8_000, 9_000])), 8_333);
    // held between the shortest and the longest timeout
    assert_eq!(read_avg_timeout(&stored(&[1, 2, 3])), MIN_STEP_TIMEOUT);
    assert_eq!(read_avg_timeout(&stored(&[u64::MAX; 5])), MAX_STEP_TIMEOUT);
    assert_eq!(read_avg_timeout(&stored(&[7_000])), 7_000);
    assert_eq!(read_avg_timeout(&stored(&[40_000])), 40_000);
    // only the last five count
    assert_eq!(
        read_avg_timeout(&stored(&[40_000, 40_000, 10_000, 10_000, 10_000, 10_000, 10_000])),
        10_000
    );
    // nothing stored, nothing readable, nothing sensible
    assert_eq!(read_avg_timeout(&StoredAverage::Missing), MAX_STEP_TIMEOUT);
    assert_eq!(read_avg_timeout(&StoredAverage::Unreadable), MIN_STEP_TIMEOUT);
    assert_eq!(read_avg_timeout(&stored(&[])), MIN_STEP_TIMEOUT);
    assert_eq!(read_avg_timeout(&StoredAverage::Bytes(vec![1, 2])), MIN_STEP_TIMEOUT);
    assert_eq!(read_avg_timeout(&StoredAverage::Bytes(vec![9, 0, 0, 0])), MIN_STEP_TIMEOUT);

    let set = adjust_round_base_timeouts(
        &stored(&[12_000]),
        &StoredAverage::Missing,
        &StoredAverage::Unreadable,
    );
    assert_eq!((set.proposal, set.validation, set.ratification), (12_000, 40_000, 7_000));

    let mut avg = AverageElapsedTime::new();
    assert_eq!(avg.average(), None);
    avg.push_back(3);
    avg.push_back(4);
    assert_eq!(avg.average(), Some(3));
    for v in [u64::MAX; 5] {
        avg.push_back(v);
    }
    assert_eq!(avg.average(), Some(u64::MAX));

    // a step that timed out waits twice as long the next time
    assert_eq!(increase_timeout(7_000), 14_000);
    assert_eq!(increase_timeout(20_000), 40_000);
    assert_eq!(increase_timeout(20_001), 40_000);
    assert_eq!(increase_timeout(u64::MAX), 40_000);
    assert_eq!(increase_timeout(0), 0);
    assert_eq!(CONSENSUS_MAX_ITER, 50);
}

#[test]
fn routes() {
    let mut routes: Routes<&str> = Routes::new(4);
    for topic in 0..6 {
        assert_eq!(routes.get(topic), None);
    }
    assert_eq!(routes.add_route(2, "blocks"), Ok(()));
    assert_eq!(routes.add_route(3, "votes"), Ok(()));
    assert_eq!(routes.add_route(4, "none"), Err(RouteError::TopicOutOfRange));
    assert_eq!(routes.add_route(255, "none"), Err(RouteError::TopicOutOfRange));
    assert_eq!(routes.get(2), Some(&"blocks"));
    assert_eq!(routes.get(3), Some(&"votes"));
    assert_eq!(routes.get(4), None);
    assert_eq!(routes.add_route(2, "other"), Ok(()));
    assert_eq!(routes.get(2), Some(&"other"));
    routes.remove_route(2);
    routes.remove_route(9);
    assert_eq!(routes.get(2), None);
    assert_eq!(routes.get(3), Some(&"votes"));
}

#[test]
fn network_decisions() {
    assert_eq!(broadcast_plan(None), BroadcastPlan::Send(None));
    assert_eq!(broadcast_plan(Some(Metadata { height: 0 })), BroadcastPlan::Skip);
    assert_eq!(broadcast_plan(Some(Metadata { height: 1 })), BroadcastPlan::Send(Some(0)));
    assert_eq!(broadcast_plan(Some(Metadata { height: 128 })), BroadcastPlan::Send(Some(127)));

    assert_eq!(request_deadline(None, 1_700_000_000), u64::MAX);
    assert_eq!(request_deadline(Some(30), 1_700_000_000), 1_700_000_030);
    assert_eq!(request_deadline(Some(0), 5), 5);
    assert_eq!(request_deadline(Some(u64::MAX), 5), u64::MAX);
    assert_eq!(request_deadline(Some(5), u64::MAX - 5), u64::MAX);

    assert_eq!(sender_arrives(0), (1, false));
    assert_eq!(sender_arrives(999), (1000, false));
    assert_eq!(sender_arrives(1000), (0, true));
    assert_eq!(sender_arrives(u64::MAX), (0, true));
    assert_eq!(REDUNDANCY_PEER_COUNT, 8);
}

#[test]
fn recovery_plan() {
    let config = |build, force, prebuilt| ExecConfig {
        build,
        force,
        testnet: false,
        use_prebuilt_contracts: prebuilt,
    };
    // what is there is kept unless a new state is forced
    assert_eq!(plan(&config(true, false, true), true, true), ExecPlan::UseExisting);
    assert_eq!(plan(&config(false, false, false), true, true), ExecPlan::UseExisting);
    assert_eq!(
        plan(&config(true, true, true), true, true),
        ExecPlan::Build { use_prebuilt_contracts: true }
    );
    assert_eq!(plan(&config(false, true, true), true, true), ExecPlan::Download);
    // something is missing
    assert_eq!(
        plan(&config(true, false, false), true, false),
        ExecPlan::Build { use_prebuilt_contracts: false }
    );
    assert_eq!(plan(&config(false, false, false), false, true), ExecPlan::Download);
    assert_eq!(plan(&config(false, false, false), false, false), ExecPlan::Download);

    assert_eq!(check_in_place(true, true), Ok(()));
    assert_eq!(check_in_place(false, true), Err(StateError::MissingState));
    assert_eq!(check_in_place(false, false), Err(StateError::MissingState));
    assert_eq!(check_in_place(true, false), Err(StateError::MissingId));

    assert!(!contracts_missing(true, true));
    assert!(contracts_missing(true, false));
    assert!(contracts_missing(false, true));
    assert!(contracts_missing(false, false));

    assert_eq!(stake_amount(false), MINIMUM_STAKE);
    assert_eq!(stake_amount(false), 1_000 * 1_000_000_000);
    assert_eq!(stake_amount(true), 2_000_000 * 1_000_000_000);
    assert_eq!(GENESIS_DUSK, 1_000 * 1_000_000_000);
    assert_eq!(FAUCET_DUSK, 1_000_000_000 * 1_000_000_000);
    assert_eq!(genesis_stake_balance(false, 5), Some(5_000 * 1_000_000_000));
    assert_eq!(genesis_stake_balance(true, 3), Some(6_000_000 * 1_000_000_000));
    assert_eq!(genesis_stake_balance(true, 0), Some(0));
    assert_eq!(genesis_stake_balance(true, 10_000), None);
}

#[test]
fn transfer_types() {
    assert_eq!(TRANSFER_TREE_DEPTH, 17);
    let stct = Stct { module: [1; 32], value: 5, proof: vec![1, 2, 3] };
    assert_eq!(stct.clone(), stct);
    let raw = WfctRaw { value: 5, note: vec![4], proof: vec![5] };
    assert_ne!(raw, WfctRaw { value: 6, note: vec![4], proof: vec![5] });
    let wfctc = Wfctc { module: [2; 32], value: 9 };
    assert_eq!(wfctc, Wfctc { module: [2; 32], value: 9 });
    for (result, applied) in [
        (EconomicResult::ChargeApplied, true),
        (EconomicResult::AllowanceApplied, true),
        (EconomicResult::ChargeNotSufficient, false),
        (EconomicResult::AllowanceNotSufficient, false),
        (EconomicResult::BalanceNotSufficient, false),
    ] {
        assert_eq!(result.is_applied(), applied);
        let event = EconomicEvent { module: [3; 32], value: 1, result };
        assert_eq!(event.result, result);
    }
}

#[test]
fn course_of_an_iteration() {
    let timeouts = TimeoutSet { proposal: 7_000, validation: 15_000, ratification: 30_000 };
    let mut ctx = IterationCtx::new(timeouts);
    assert_eq!(ctx.phase, Phase::Idle);
    assert_eq!(ctx.phase.step(), None);
    // events that do not fit change nothing
    ctx.handle(PhaseEvent::StepReady);
    ctx.handle(PhaseEvent::StepTimeout);
    assert_eq!(ctx, IterationCtx::new(timeouts));
    ctx.handle(PhaseEvent::Start);
    assert_eq!(ctx.phase, Phase::AwaitProposal);
    assert_eq!(ctx.phase.step(), Some(StepName::Proposal));
    ctx.handle(PhaseEvent::Start);
    assert_eq!(ctx.phase, Phase::AwaitProposal);
    ctx.handle(PhaseEvent::StepReady);
    assert_eq!(ctx.phase, Phase::AwaitValidation);
    ctx.handle(PhaseEvent::StepReady);
    assert_eq!(ctx.phase, Phase::AwaitRatification);
    assert!(!ctx.advance());
    ctx.handle(PhaseEvent::StepReady);
    assert_eq!(ctx.phase, Phase::Done);
    assert_eq!(ctx.timeouts, timeouts);
    ctx.handle(PhaseEvent::StepTimeout);
    assert_eq!(ctx.phase, Phase::Done);
    assert!(!ctx.advance());

    // a validation that runs out of time
    let mut ctx = IterationCtx::new(timeouts);
    ctx.handle(PhaseEvent::Start);
    ctx.handle(PhaseEvent::StepReady);
    ctx.handle(PhaseEvent::StepTimeout);
    assert_eq!(ctx.phase, Phase::Timeout(0));
    assert_eq!(
        ctx.timeouts,
        TimeoutSet { proposal: 7_000, validation: 30_000, ratification: 30_000 }
    );
    assert!(ctx.advance());
    assert_eq!((ctx.iteration, ctx.phase), (1, Phase::Idle));
    // the ratification of the next iteration runs out of time as well
    ctx.handle(PhaseEvent::Start);
    ctx.handle(PhaseEvent::StepReady);
    ctx.handle(PhaseEvent::StepReady);
    ctx.handle(PhaseEvent::StepTimeout);
    assert_eq!(ctx.phase, Phase::Timeout(1));
    assert_eq!(ctx.timeouts.ratification, 40_000);
    // the round gives up after its last iteration
    ctx.iteration = 48;
    assert!(ctx.advance());
    assert_eq!(ctx.iteration, 49);
    ctx.handle(PhaseEvent::Start);
    ctx.handle(PhaseEvent::StepTimeout);
    assert_eq!(ctx.phase, Phase::Timeout(49));
    assert_eq!(ctx.timeouts.proposal, 14_000);
    assert!(!ctx.advance());
    assert_eq!(ctx.iteration, 49);
}
