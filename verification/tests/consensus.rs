use bls12_381_bls::{PublicKey as BlsPublicKey, SecretKey, Signature as BlsSignature, APK};
use consensus_core::agreement::accumulator::{verify_agreement, Accumulator, Agreement};
use consensus_core::bls::{aggregate_keys, verify_aggregate, verify_signature, BlsError, PublicKey};
use consensus_core::commons::{ConsensusError, RoundUpdate, StepSigError, TimeoutSet};
use consensus_core::ledger::{
    Attestation, Block, Header, IterationsInfo, PublicKeyBytes, RatificationResult, Seed,
    Signature, StepVotes, Vote,
};
use consensus_core::message::{
    Candidate, ConsensusHeader, Message, Payload, Quorum, SignInfo, Status, StepName, Validation,
};
use consensus_core::msg_handler::{
    check_admission, is_valid_given, HandleMsgOutput, MsgHandler, RoundCommittees,
};
use consensus_core::num::bytes_lt;
use consensus_core::quorum::verifiers::{
    exclusion_list, verify_quorum, verify_step_signature, verify_step_votes, verify_votes,
    QuorumResult,
};
use consensus_core::user::committee::{Committee, CommitteeSet};
use consensus_core::user::provisioners::{Provisioners, Stake};
use consensus_core::user::sortition::{
    be_mod_wide, create_sortition_hash, draw_seats, Config, DUSK,
};
use dusk_bytes::Serializable;
use rand::rngs::StdRng;
use rand::SeedableRng;
use sha3::{Digest, Sha3_256};

struct Member {
    sk: SecretKey,
    pk: BlsPublicKey,
    key: PublicKey,
}

fn members(n: usize) -> Vec<Member> {
    let mut rng = StdRng::seed_from_u64(0xbeef);
    (0..n)
        .map(|_| {
            let sk = SecretKey::random(&mut rng);
            let pk = BlsPublicKey::from(&sk);
            let key = PublicKey::try_from_bytes(PublicKeyBytes(pk.to_bytes())).unwrap();
            Member { sk, pk, key }
        })
        .collect()
}

fn provisioners(members: &[Member], value: u64) -> Provisioners {
    let mut p = Provisioners::empty();
    for m in members {
        assert_eq!(p.replace_stake(m.key, Stake::new(value, 0)), None);
    }
    p
}

fn seed() -> Seed {
    Seed([0u8; 48])
}

fn find<'a>(members: &'a [Member], key: &PublicKeyBytes) -> &'a Member {
    members.iter().find(|m| m.key.bytes() == key).expect("a known key")
}

fn signed_bytes(header: &ConsensusHeader, step: StepName, vote: &Vote) -> Vec<u8> {
    let mut msg = header.signable();
    msg.push(match step {
        StepName::Validation => 1,
        _ => 2,
    });
    vote.write(&mut msg);
    msg
}

/// The votes of the committee members named by `bitset`, aggregated.
fn sign_step(
    members: &[Member],
    committee: &Committee,
    bitset: u64,
    header: &ConsensusHeader,
    step: StepName,
    vote: &Vote,
) -> StepVotes {
    let msg = signed_bytes(header, step, vote);
    let mut sigs: Vec<BlsSignature> = vec![];
    for i in 0..committee.size() {
        if i < 64 && (bitset >> i) & 1 == 1 {
            let m = find(members, &committee.member_at(i).0);
            sigs.push(m.sk.sign(&m.pk, &msg));
        }
    }
    let aggregate = match sigs.split_first() {
        Some((first, rest)) => first.aggregate(rest).to_bytes(),
        None => [0u8; 48],
    };
    StepVotes::new(aggregate, bitset)
}

fn all_bits(n: usize) -> u64 {
    if n >= 64 {
        u64::MAX
    } else {
        (1u64 << n) - 1
    }
}

fn header(round: u64, iteration: u8) -> ConsensusHeader {
    ConsensusHeader { prev_block_hash: [7; 32], round, iteration, block_hash: [0xaa; 32] }
}

#[test]
fn keys_that_do_not_decode_are_refused() {
    assert_eq!(
        PublicKey::try_from_bytes(PublicKeyBytes([0xff; 96])),
        Err(BlsError::BytesError)
    );
    let m = members(1);
    assert_eq!(m[0].key.bytes().0, m[0].pk.to_bytes());
}

#[test]
fn keys_are_ordered_by_their_bytes() {
    let m = members(2);
    let (a, b) = (m[0].key, m[1].key);
    assert_eq!(a.before(&b), a.bytes().0 < b.bytes().0);
    assert_eq!(b.before(&a), b.bytes().0 < a.bytes().0);
    assert!(!a.before(&a));
    assert!(a.same(&a));
    assert!(!a.same(&b));
    assert!(bytes_lt(&[1, 2, 3], &[1, 2, 4]));
    assert!(bytes_lt(&[0, 255, 255], &[1, 0, 0]));
    assert!(!bytes_lt(&[1, 2, 3], &[1, 2, 3]));
    assert!(!bytes_lt(&[2, 0, 0], &[1, 255, 255]));
}

#[test]
fn big_endian_reduction() {
    // 0x0102 = 258
    assert_eq!(be_mod_wide(&[1, 2], 100), 58);
    assert_eq!(be_mod_wide(&[], 7), 0);
    assert_eq!(be_mod_wide(&[0xff; 16], u128::MAX), 0);
    assert_eq!(be_mod_wide(&[0xff; 16], 1 << 64), u64::MAX as u128);
    // 2^128 mod (2^128 - 1) = 1
    let mut bytes = vec![1u8];
    bytes.extend_from_slice(&[0; 16]);
    assert_eq!(be_mod_wide(&bytes, u128::MAX), 1);
    assert_eq!(be_mod_wide(&[0x12, 0x34, 0x56, 0x78, 0x9a], 1_000_000_007), 0x12_3456_789a % 1_000_000_007);
}

#[test]
fn provisioners_are_kept_in_key_order() {
    let m = members(5);
    let mut p = Provisioners::empty();
    for (i, member) in m.iter().enumerate() {
        assert_eq!(p.replace_stake(member.key, Stake::new(100 + i as u64, 0)), None);
    }
    assert_eq!(p.len(), 5);
    for i in 1..p.len() {
        assert!(p.member_at(i - 1).0.before(&p.member_at(i).0));
    }
    // a second stake for a key replaces the first
    assert_eq!(p.replace_stake(m[2].key, Stake::new(7, 3)), Some(Stake::new(102, 0)));
    assert_eq!(p.len(), 5);
    assert_eq!(p.get_stake(&m[2].key), Some(Stake::new(7, 3)));
    // removal
    assert_eq!(p.remove_stake(&m[2].key), Some(Stake::new(7, 3)));
    assert_eq!(p.remove_stake(&m[2].key), None);
    assert_eq!(p.get_stake(&m[2].key), None);
    assert_eq!(p.len(), 4);
    // the order does not depend on the order of insertion
    let mut q = Provisioners::empty();
    for member in m.iter().rev() {
        if !member.key.same(&m[2].key) {
            q.replace_stake(member.key, p.get_stake(&member.key).unwrap());
        }
    }
    assert_eq!(p, q);
}

#[test]
fn sortition_hash_is_the_digest_of_the_parameters() {
    let cfg = Config::new(Seed([3; 48]), 0x0a0b, 4, StepName::Ratification, vec![]);
    let mut input = vec![3u8; 48];
    input.extend_from_slice(&0x0a0bu64.to_le_bytes());
    input.push(4);
    input.push(2);
    input.extend_from_slice(&9u32.to_le_bytes());
    let expected: [u8; 32] = Sha3_256::digest(&input).into();
    assert_eq!(create_sortition_hash(&cfg, 9), expected);
    assert_ne!(create_sortition_hash(&cfg, 8), expected);
}

#[test]
fn a_seat_goes_to_the_member_whose_share_covers_the_point() {
    let m = members(3);
    let p = provisioners(&m, 1000 * DUSK);
    let cfg = Config::with_credits(seed(), 10, 0, StepName::Proposal, vec![], 1);
    let seats = draw_seats(&p, &cfg);
    let hash = create_sortition_hash(&cfg, 0);
    let point = be_mod_wide(&hash, 3000 * DUSK as u128);
    let winner = (point / (1000 * DUSK as u128)) as usize;
    let mut expected = vec![0usize; 3];
    expected[winner] = 1;
    assert_eq!(seats, expected);
}

#[test]
fn draw_is_deterministic() {
    let m = members(6);
    let a = provisioners(&m, 1000 * DUSK);
    let mut reversed: Vec<&Member> = m.iter().collect();
    reversed.reverse();
    let mut b = Provisioners::empty();
    for member in reversed {
        b.replace_stake(member.key, Stake::new(1000 * DUSK, 0));
    }
    for step in [StepName::Proposal, StepName::Validation, StepName::Ratification] {
        let cfg_a = Config::new(seed(), 10, 0, step, vec![]);
        let cfg_b = Config::new(seed(), 10, 0, step, vec![]);
        assert_eq!(draw_seats(&a, &cfg_a), draw_seats(&b, &cfg_b));
        assert_eq!(draw_seats(&a, &cfg_a), draw_seats(&a, &cfg_a));
    }
    // another round gives another draw
    let one = draw_seats(&a, &Config::new(seed(), 10, 0, StepName::Validation, vec![]));
    let other = draw_seats(&a, &Config::new(seed(), 11, 0, StepName::Validation, vec![]));
    assert_ne!(one, other);
}

#[test]
fn a_committee_holds_the_seats_it_was_drawn_for() {
    let m = members(4);
    let p = provisioners(&m, 1000 * DUSK);
    for (step, credits) in
        [(StepName::Proposal, 1usize), (StepName::Validation, 64), (StepName::Ratification, 64)]
    {
        let cfg = Config::new(seed(), 10, 0, step, vec![]);
        assert_eq!(cfg.committee_credits(), credits);
        let c = Committee::new(&p, &cfg);
        assert_eq!(c.credits(), credits);
        let total: usize = (0..c.size()).map(|i| c.member_at(i).1).sum();
        assert_eq!(total, credits);
        assert_eq!(c.total_occurrences(&c.intersect(all_bits(c.size()))), credits);
        for i in 1..c.size() {
            assert!(c.member_at(i - 1).0 .0 < c.member_at(i).0 .0);
        }
    }
}

#[test]
fn stake_that_runs_out_ends_the_draw() {
    let m = members(2);
    // three units in all: the draw ends after three seats
    let mut p = Provisioners::empty();
    p.replace_stake(m[0].key, Stake::new(2 * DUSK, 0));
    p.replace_stake(m[1].key, Stake::new(DUSK / 2, 0));
    let cfg = Config::with_credits(seed(), 1, 0, StepName::Validation, vec![], 10);
    let seats = draw_seats(&p, &cfg);
    assert_eq!(seats.iter().sum::<usize>(), 3);
    // nobody at stake: nobody sits
    let empty = Provisioners::empty();
    assert_eq!(draw_seats(&empty, &cfg), Vec::<usize>::new());
    assert_eq!(Committee::new(&empty, &cfg).size(), 0);
    assert_eq!(empty.get_generator(0, seed(), 1), None);
}

#[test]
fn excluded_and_ineligible_members_win_no_seat() {
    let m = members(4);
    let mut p = provisioners(&m, 1000 * DUSK);
    // one member becomes eligible only at round 50
    p.replace_stake(m[3].key, Stake::new(1000 * DUSK, 50));
    let excluded = *m[0].key.bytes();
    let cfg = Config::new(seed(), 10, 0, StepName::Validation, vec![excluded]);
    assert!(cfg.is_excluded(&excluded));
    assert!(!cfg.is_excluded(m[1].key.bytes()));
    let c = Committee::new(&p, &cfg);
    assert!(!c.is_member(&excluded));
    assert!(!c.is_member(m[3].key.bytes()));
    assert_eq!(c.votes_for(&excluded), None);
    let seats = c.votes_for(m[1].key.bytes()).unwrap_or(0)
        + c.votes_for(m[2].key.bytes()).unwrap_or(0);
    assert_eq!(seats, 64);
    // at round 50 the late member takes part
    let cfg = Config::new(seed(), 50, 0, StepName::Validation, vec![excluded]);
    let c = Committee::new(&p, &cfg);
    assert!(c.is_member(m[3].key.bytes()));
}

#[test]
fn quorum_thresholds() {
    let m = members(1);
    let p = provisioners(&m, 1000 * DUSK);
    for (credits, super_majority, majority) in
        [(64u32, 44usize, 33usize), (4, 4, 3), (3, 3, 2), (1, 2, 1), (0, 1, 1), (100, 68, 51)]
    {
        let cfg = Config::with_credits(seed(), 1, 0, StepName::Validation, vec![], credits);
        let c = Committee::new(&p, &cfg);
        assert_eq!(c.super_majority_quorum(), super_majority);
        assert_eq!(c.majority_quorum(), majority);
        assert_eq!(CommitteeSet::new(&p).quorum(&cfg), super_majority);
    }
    assert!(QuorumResult { total: 44, target_quorum: 44 }.quorum_reached());
    assert!(!QuorumResult { total: 43, target_quorum: 44 }.quorum_reached());
    assert!(QuorumResult::default().quorum_reached());
}

#[test]
fn the_generator_is_the_winner_of_the_single_seat() {
    let m = members(4);
    let p = provisioners(&m, 1000 * DUSK);
    let g = p.get_generator(0, seed(), 10).expect("a generator");
    let cfg = Config::new(seed(), 10, 0, StepName::Proposal, vec![]);
    let c = Committee::new(&p, &cfg);
    assert_eq!(c.size(), 1);
    assert_eq!(c.member_at(0), (g, 1));
    assert_eq!(p.get_generator(0, seed(), 10), Some(g));
    // the exclusion list of an iteration: its generator and the next one
    let set = CommitteeSet::new(&p);
    let next = p.get_generator(1, seed(), 10).unwrap();
    assert_eq!(exclusion_list(&set, 0, seed(), 10), vec![g, next]);
    // the last iteration of a round has no next one
    let last = p.get_generator(49, seed(), 10).unwrap();
    assert_eq!(exclusion_list(&set, 49, seed(), 10), vec![last]);
    let before_last = p.get_generator(48, seed(), 10).unwrap();
    assert_eq!(exclusion_list(&set, 48, seed(), 10), vec![before_last, last]);
}

#[test]
fn committee_set_keeps_what_it_drew() {
    let m = members(4);
    let p = provisioners(&m, 1000 * DUSK);
    let mut set = CommitteeSet::new(&p);
    assert_eq!(set.provisioners(), &p);
    let cfg = Config::new(seed(), 10, 0, StepName::Validation, vec![]);
    let first = set.get_or_create(&cfg);
    let second = set.get_or_create(&cfg.clone_config());
    let fresh = Committee::new(&p, &cfg);
    assert_eq!(first.size(), fresh.size());
    for i in 0..first.size() {
        assert_eq!(first.member_at(i), fresh.member_at(i));
        assert_eq!(second.member_at(i), fresh.member_at(i));
    }
    for member in &m {
        let seats = fresh.votes_for(member.key.bytes()).unwrap_or(0);
        assert_eq!(set.votes_for(member.key.bytes(), &cfg), seats);
    }
    assert_eq!(set.votes_for(&PublicKeyBytes([1; 96]), &cfg), 0);
    assert!(cfg.same(&cfg.clone_config()));
    assert!(!cfg.same(&Config::new(seed(), 11, 0, StepName::Validation, vec![])));
    assert!(!cfg.same(&Config::new(seed(), 10, 0, StepName::Ratification, vec![])));
    assert!(!cfg.same(&Config::new(seed(), 10, 0, StepName::Validation, vec![PublicKeyBytes([1; 96])])));
}

#[test]
fn aggregation_is_that_of_the_bls_crate() {
    let m = members(3);
    let keys: Vec<PublicKeyBytes> = m.iter().map(|x| *x.key.bytes()).collect();
    assert_eq!(aggregate_keys(&vec![]), None);
    let mut apk = APK::from(&m[0].pk);
    apk.aggregate(&[m[1].pk, m[2].pk]).unwrap();
    assert_eq!(aggregate_keys(&keys), Some(Ok(apk.to_bytes())));
    let single = APK::from(&m[0].pk);
    assert_eq!(aggregate_keys(&keys[..1].to_vec()), Some(Ok(single.to_bytes())));
    // a key that is no curve point
    let bad = vec![keys[0], PublicKeyBytes([0xff; 96])];
    assert_eq!(aggregate_keys(&bad), Some(Err(BlsError::BytesError)));
    let bad = vec![PublicKeyBytes([0xff; 96]), keys[0]];
    assert_eq!(aggregate_keys(&bad), Some(Err(BlsError::BytesError)));
    // the identity is a point, but no key to aggregate
    let identity = PublicKeyBytes(BlsPublicKey::default().to_bytes());
    assert_eq!(aggregate_keys(&vec![keys[0], identity]), Some(Err(BlsError::InvalidPoint)));

    let msg = b"a message";
    let sigs: Vec<BlsSignature> = m.iter().map(|x| x.sk.sign(&x.pk, msg)).collect();
    let aggregate = sigs[0].aggregate(&sigs[1..]).to_bytes();
    assert_eq!(verify_aggregate(&apk.to_bytes(), &aggregate, msg), Ok(()));
    assert_eq!(
        verify_aggregate(&apk.to_bytes(), &aggregate, b"another message"),
        Err(BlsError::InvalidSignature)
    );
    assert_eq!(
        verify_aggregate(&single.to_bytes(), &aggregate, msg),
        Err(BlsError::InvalidSignature)
    );
    assert_eq!(
        verify_aggregate(&apk.to_bytes(), &[0xff; 48], msg),
        Err(BlsError::BytesError)
    );
    // one signer: the signature verifies under the aggregated key of the
    // signer alone
    let sig = sigs[0].to_bytes();
    assert_eq!(verify_signature(m[0].key.bytes(), &sig, msg), Ok(()));
    assert_eq!(verify_aggregate(&single.to_bytes(), &sig, msg), Ok(()));
    assert_eq!(
        verify_signature(m[1].key.bytes(), &sig, msg),
        Err(BlsError::InvalidSignature)
    );
    assert_eq!(
        verify_signature(&PublicKeyBytes([0xff; 96]), &sig, msg),
        Err(BlsError::BytesError)
    );
    // a signature made for the key alone, not to be aggregated
    let plain = m[0].sk.sign_vulnerable(msg).to_bytes();
    assert_eq!(
        verify_signature(m[0].key.bytes(), &plain, msg),
        Err(BlsError::InvalidSignature)
    );
}

#[test]
fn votes_of_the_whole_committee_verify() {
    let m = members(4);
    let p = provisioners(&m, 1000 * DUSK);
    let h = header(10, 0);
    let vote = Vote::Valid([0xaa; 32]);
    for step in [StepName::Validation, StepName::Ratification] {
        let cfg = Config::new(seed(), 10, 0, step, vec![]);
        let c = Committee::new(&p, &cfg);
        let sv = sign_step(&m, &c, all_bits(c.size()), &h, step, &vote);
        assert_eq!(
            verify_votes(&h, step, &vote, &sv, &c),
            Ok(QuorumResult { total: 64, target_quorum: 44 })
        );
        // the votes of one step do not verify as votes of the other
        let other = match step {
            StepName::Validation => StepName::Ratification,
            _ => StepName::Validation,
        };
        assert_eq!(
            verify_votes(&h, other, &vote, &sv, &c),
            Err(StepSigError::VerificationFailed(BlsError::InvalidSignature))
        );
        // nor as votes for another block
        assert_eq!(
            verify_votes(&h, step, &Vote::Valid([0xbb; 32]), &sv, &c),
            Err(StepSigError::VerificationFailed(BlsError::InvalidSignature))
        );
        // nor under another header
        assert_eq!(
            verify_votes(&header(11, 0), step, &vote, &sv, &c),
            Err(StepSigError::VerificationFailed(BlsError::InvalidSignature))
        );
    }
}

#[test]
fn too_few_voters_are_a_vote_set_too_small() {
    let m = members(4);
    let p = provisioners(&m, 1000 * DUSK);
    let h = header(10, 0);
    let step = StepName::Validation;
    let c = Committee::new(&p, &Config::new(seed(), 10, 0, step, vec![]));
    // the smallest set of voters that reaches the super-majority, taking
    // members in order
    let mut bitset = 0u64;
    let mut seats = 0;
    let mut i = 0;
    while seats < 44 {
        bitset |= 1 << i;
        seats += c.member_at(i).1;
        i += 1;
    }
    let vote = Vote::Valid([0xaa; 32]);
    let sv = sign_step(&m, &c, bitset, &h, step, &vote);
    assert_eq!(
        verify_votes(&h, step, &vote, &sv, &c),
        Ok(QuorumResult { total: seats, target_quorum: 44 })
    );
    // without the last of them the quorum is missed
    let fewer = bitset & !(1 << (i - 1));
    let sv = sign_step(&m, &c, fewer, &h, step, &vote);
    assert_eq!(verify_votes(&h, step, &vote, &sv, &c), Err(StepSigError::VoteSetTooSmall));
    // nobody voted
    let sv = StepVotes::new([0; 48], 0);
    assert_eq!(verify_votes(&h, step, &vote, &sv, &c), Err(StepSigError::VoteSetTooSmall));
    // an invalid block needs the majority only
    let invalid = Vote::Invalid([0xaa; 32]);
    let few = c.intersect(fewer);
    let total = c.total_occurrences(&few);
    let sv = sign_step(&m, &c, fewer, &h, step, &invalid);
    let expected = if total >= 33 {
        Ok(QuorumResult { total, target_quorum: 33 })
    } else {
        Err(StepSigError::VoteSetTooSmall)
    };
    assert_eq!(verify_votes(&h, step, &invalid, &sv, &c), expected);
}

#[test]
fn a_validation_without_quorum_needs_no_voters() {
    let m = members(4);
    let p = provisioners(&m, 1000 * DUSK);
    let h = header(10, 0);
    let c = Committee::new(&p, &Config::new(seed(), 10, 0, StepName::Validation, vec![]));
    let sv = StepVotes::new([0; 48], 0);
    assert_eq!(
        verify_votes(&h, StepName::Validation, &Vote::NoQuorum, &sv, &c),
        Ok(QuorumResult { total: 0, target_quorum: 33 })
    );
    // in the ratification step the quorum is asked for
    assert_eq!(
        verify_votes(&h, StepName::Ratification, &Vote::NoQuorum, &sv, &c),
        Err(StepSigError::VoteSetTooSmall)
    );
    // votes that name somebody have to show the quorum like all others:
    // bits that name nobody fall short of it
    let nobody = StepVotes::new([0; 48], 1 << 63);
    assert_eq!(
        verify_votes(&h, StepName::Validation, &Vote::NoQuorum, &nobody, &c),
        Err(StepSigError::VoteSetTooSmall)
    );
    // so do voters that hold less than the majority of the seats
    let mut bitset = 0u64;
    let mut seats = 0;
    let mut i = 0;
    while seats + c.member_at(i).1 < 33 {
        bitset |= 1 << i;
        seats += c.member_at(i).1;
        i += 1;
    }
    if bitset != 0 {
        let few = sign_step(&m, &c, bitset, &h, StepName::Validation, &Vote::NoQuorum);
        assert_eq!(
            verify_votes(&h, StepName::Validation, &Vote::NoQuorum, &few, &c),
            Err(StepSigError::VoteSetTooSmall)
        );
    }
    // with one voter more the majority stands and the signature is checked
    bitset |= 1 << i;
    seats += c.member_at(i).1;
    let enough = sign_step(&m, &c, bitset, &h, StepName::Validation, &Vote::NoQuorum);
    assert_eq!(
        verify_votes(&h, StepName::Validation, &Vote::NoQuorum, &enough, &c),
        Ok(QuorumResult { total: seats, target_quorum: 33 })
    );
    if bitset != all_bits(c.size()) {
        let forged = StepVotes::new(enough.aggregate_signature().0, all_bits(c.size()));
        assert_eq!(
            verify_votes(&h, StepName::Validation, &Vote::NoQuorum, &forged, &c),
            Err(StepSigError::VerificationFailed(BlsError::InvalidSignature))
        );
    }
}

#[test]
fn no_votes_are_cast_in_the_proposal_step() {
    let m = members(4);
    let p = provisioners(&m, 1000 * DUSK);
    let h = header(10, 0);
    let c = Committee::new(&p, &Config::new(seed(), 10, 0, StepName::Validation, vec![]));
    let vote = Vote::Valid([0xaa; 32]);
    let bits = all_bits(c.size());
    let sv = sign_step(&m, &c, bits, &h, StepName::Validation, &vote);
    assert_eq!(
        verify_votes(&h, StepName::Proposal, &vote, &sv, &c),
        Err(StepSigError::InvalidType)
    );
    let apk = c.intersect(bits).aggregate_pks().unwrap();
    assert_eq!(
        verify_step_signature(&h, StepName::Proposal, &vote, &apk, sv.aggregate_signature().inner()),
        Err(StepSigError::InvalidType)
    );
    assert_eq!(
        verify_step_signature(&h, StepName::Validation, &vote, &apk, sv.aggregate_signature().inner()),
        Ok(())
    );
    assert_eq!(c.intersect(0).aggregate_pks(), Err(StepSigError::EmptyApk));
}

#[test]
fn a_quorum_message_is_verified_step_by_step() {
    let m = members(6);
    let p = provisioners(&m, 1000 * DUSK);
    let h = header(10, 0);
    let vote = Vote::Valid([0xaa; 32]);
    let mut set = CommitteeSet::new(&p);
    let excluded = exclusion_list(&set, 0, seed(), 10);
    let mut step_votes = vec![];
    for step in [StepName::Validation, StepName::Ratification] {
        let c = Committee::new(&p, &Config::new(seed(), 10, 0, step, excluded.clone()));
        for e in &excluded {
            assert!(!c.is_member(e));
        }
        let sv = sign_step(&m, &c, all_bits(c.size()), &h, step, &vote);
        let (result, committee) =
            verify_step_votes(&h, &vote, &sv, &mut set, seed(), step).expect("a quorum");
        assert_eq!(result, QuorumResult { total: 64, target_quorum: 44 });
        assert_eq!(committee.size(), c.size());
        step_votes.push(sv);
    }
    let quorum = Quorum {
        header: h,
        att: Attestation {
            result: RatificationResult::Success(vote),
            validation: step_votes[0],
            ratification: step_votes[1],
        },
    };
    assert_eq!(quorum.vote(), &vote);
    assert_eq!(verify_quorum(&quorum, &mut set, seed()), Ok(()));
    // the two steps swapped: the validation fails first
    let swapped = Quorum {
        header: h,
        att: Attestation {
            result: RatificationResult::Success(vote),
            validation: step_votes[1],
            ratification: step_votes[0],
        },
    };
    assert!(verify_quorum(&swapped, &mut set, seed()).is_err());
    // no ratification votes
    let half = Quorum {
        header: h,
        att: Attestation {
            result: RatificationResult::Success(vote),
            validation: step_votes[0],
            ratification: StepVotes::new([0; 48], 0),
        },
    };
    assert_eq!(verify_quorum(&half, &mut set, seed()), Err(StepSigError::VoteSetTooSmall));
}

fn agreement(fill: u8) -> Agreement {
    Agreement { signer: PublicKeyBytes([fill; 96]), signature: Signature([fill; 48]) }
}

#[test]
fn happy_path_reaches_quorum_at_the_third_vote() {
    // validators A, B, C, D; A proposes, B, C and D vote with one seat each
    let hash = [0xaa; 32];
    for step in [1u16, 2] {
        let mut acc = Accumulator::new();
        assert_eq!(acc.accumulate(&hash, step, agreement(b'B'), 1, 3), None);
        assert_eq!(acc.accumulate(&hash, step, agreement(b'C'), 1, 3), None);
        let collected = acc.accumulate(&hash, step, agreement(b'D'), 1, 3).expect("a quorum");
        assert_eq!(collected.block_hash, hash);
        assert_eq!(collected.step, step);
        assert_eq!(collected.weight, 3);
        assert_eq!(collected.agreements, vec![agreement(b'B'), agreement(b'C'), agreement(b'D')]);
        assert_eq!(acc.stores.len(), 1);
        assert!(acc.stores[0].emitted);
    }
}

#[test]
fn a_duplicate_vote_counts_once() {
    let hash = [0xaa; 32];
    let mut acc = Accumulator::new();
    assert_eq!(acc.accumulate(&hash, 1, agreement(b'B'), 1, 3), None);
    assert_eq!(acc.accumulate(&hash, 1, agreement(b'C'), 1, 3), None);
    assert_eq!(acc.accumulate(&hash, 1, agreement(b'C'), 1, 3), None);
    assert_eq!(acc.stores.len(), 1);
    assert_eq!(acc.stores[0].agreements.len(), 2);
    assert_eq!(acc.stores[0].weight, 2);
    assert!(!acc.stores[0].emitted);
    // the third voter reaches the quorum, and only once
    assert!(acc.accumulate(&hash, 1, agreement(b'D'), 1, 3).is_some());
    assert_eq!(acc.accumulate(&hash, 1, agreement(b'D'), 1, 3), None);
    assert_eq!(acc.stores[0].weight, 3);
}

#[test]
fn collected_votes_are_handed_out_once_per_block_and_step() {
    let hash = [0xaa; 32];
    let mut acc = Accumulator::new();
    let mut emitted = 0;
    for fill in 1..=10u8 {
        if acc.accumulate(&hash, 1, agreement(fill), 2, 5).is_some() {
            emitted += 1;
            assert_eq!(fill, 3);
        }
    }
    assert_eq!(emitted, 1);
    assert_eq!(acc.stores[0].weight, 20);
    assert_eq!(acc.stores[0].agreements.len(), 10);
    // another step and another block have tallies of their own
    assert_eq!(acc.accumulate(&hash, 2, agreement(1), 4, 5), None);
    assert!(acc.accumulate(&hash, 2, agreement(2), 4, 5).is_some());
    assert!(acc.accumulate(&[0xbb; 32], 1, agreement(1), 5, 5).is_some());
    assert_eq!(acc.stores.len(), 3);
    // a signer without seats is not counted
    assert_eq!(acc.accumulate(&[0xcc; 32], 1, agreement(1), 0, 0), None);
    assert_eq!(acc.stores.len(), 3);
    // weights that do not fit are held at the largest value
    let mut acc = Accumulator::new();
    assert_eq!(acc.accumulate(&hash, 1, agreement(1), usize::MAX - 1, usize::MAX), None);
    assert!(acc.accumulate(&hash, 1, agreement(2), 5, usize::MAX).is_some());
    assert_eq!(acc.stores[0].weight, usize::MAX);
}

fn validation_msg(member: &Member, h: ConsensusHeader, vote: Vote) -> Message {
    let msg = signed_bytes(&h, StepName::Validation, &vote);
    let signature = Signature(member.sk.sign(&member.pk, &msg).to_bytes());
    Message {
        header: h,
        payload: Payload::Validation(Validation {
            header: h,
            vote,
            sign_info: SignInfo { signer: *member.key.bytes(), signature },
        }),
        metadata: None,
    }
}

#[test]
fn the_accumulator_counts_the_votes_of_committee_members() {
    let m = members(4);
    let p = provisioners(&m, 1000 * DUSK);
    let mut set = CommitteeSet::new(&p);
    let h = header(10, 0);
    let vote = Vote::Valid(h.block_hash);
    let cfg = Config::with_credits(seed(), 10, 0, StepName::Validation, vec![], 64);
    let committee = Committee::new(&p, &cfg);
    let mut acc = Accumulator::new();
    let mut weight = 0;
    let mut emitted = 0;
    for member in &m {
        let msg = validation_msg(member, h, vote);
        let seats = committee.votes_for(member.key.bytes()).unwrap_or(0);
        let before = weight;
        weight += seats;
        let out = acc.process(&msg, &mut set, seed());
        // the same message again changes nothing
        assert_eq!(acc.process(&msg, &mut set, seed()), None);
        if before < 44 && weight >= 44 {
            let collected = out.expect("the quorum is reached");
            assert_eq!(collected.weight, weight);
            assert_eq!(collected.step, 1);
            assert_eq!(collected.block_hash, h.block_hash);
            assert_eq!(collected.agreements, acc.stores[0].agreements);
            assert!(collected.agreements.iter().any(|a| a.signer == *member.key.bytes()));
            emitted += 1;
        } else {
            assert_eq!(out, None);
        }
    }
    assert_eq!(weight, 64);
    assert_eq!(emitted, 1);
    assert_eq!(acc.stores[0].weight, 64);
}

#[test]
fn the_accumulator_passes_over_what_it_cannot_count() {
    let m = members(4);
    let p = provisioners(&m, 1000 * DUSK);
    let mut set = CommitteeSet::new(&p);
    let mut acc = Accumulator::new();
    // a zero block hash
    let mut h = header(10, 0);
    h.block_hash = [0; 32];
    let msg = validation_msg(&m[0], h, Vote::NoCandidate);
    assert_eq!(acc.process(&msg, &mut set, seed()), None);
    assert!(acc.stores.is_empty());
    // a signature by somebody else
    let h = header(10, 0);
    let mut msg = validation_msg(&m[0], h, Vote::Valid(h.block_hash));
    if let Payload::Validation(v) = &mut msg.payload {
        v.sign_info.signer = *m[1].key.bytes();
    }
    assert_eq!(acc.process(&msg, &mut set, seed()), None);
    assert!(acc.stores.is_empty());
    // a message that is no vote
    let quorum = Message {
        header: h,
        payload: Payload::Quorum(Quorum { header: h, att: Attestation::default() }),
        metadata: None,
    };
    assert_eq!(acc.process(&quorum, &mut set, seed()), None);
    assert_eq!(acc.process(&Message { header: h, payload: Payload::Empty, metadata: None }, &mut set, seed()), None);
    assert!(acc.stores.is_empty());
    // a signer who is no validator
    let outsider = members(5).pop().unwrap();
    let msg = validation_msg(&outsider, h, Vote::Valid(h.block_hash));
    assert_eq!(acc.process(&msg, &mut set, seed()), None);
    assert!(acc.stores.is_empty());
    // the signature check itself
    let vote = Vote::Valid(h.block_hash);
    let good = validation_msg(&m[0], h, vote);
    if let Payload::Validation(v) = &good.payload {
        let a = Agreement { signer: v.sign_info.signer, signature: v.sign_info.signature };
        assert_eq!(verify_agreement(&h, StepName::Validation, &vote, &a), Ok(()));
        assert_eq!(
            verify_agreement(&h, StepName::Ratification, &vote, &a),
            Err(StepSigError::VerificationFailed(BlsError::InvalidSignature))
        );
        assert_eq!(
            verify_agreement(&h, StepName::Proposal, &vote, &a),
            Err(StepSigError::InvalidType)
        );
    }
}

fn tip_header(hash: [u8; 32], height: u64) -> Header {
    Header {
        version: 0,
        height,
        timestamp: 1000,
        prev_block_hash: [0; 32],
        seed: seed(),
        state_hash: [5; 32],
        event_hash: [6; 32],
        generator_bls_pubkey: PublicKeyBytes([0; 96]),
        txroot: [0; 32],
        gas_limit: 0,
        iteration: 0,
        prev_block_cert: Attestation::default(),
        failed_iterations: IterationsInfo { cert_list: vec![] },
        hash,
        att: Attestation::default(),
    }
}

fn round_update(m: &Member, tip_hash: [u8; 32], height: u64) -> RoundUpdate {
    RoundUpdate::new(
        m.key,
        m.sk.clone(),
        &tip_header(tip_hash, height),
        TimeoutSet { proposal: 7000, validation: 8000, ratification: 9000 },
        vec![(m.key, 3)],
    )
}

#[test]
fn round_update_follows_the_tip() {
    let m = members(1);
    let ru = round_update(&m[0], [7; 32], 9);
    assert_eq!(ru.round, 10);
    assert_eq!(ru.hash(), [7; 32]);
    assert_eq!(ru.seed(), seed());
    assert_eq!(ru.state_root(), [5; 32]);
    assert_eq!(ru.timestamp(), 1000);
    assert_eq!(ru.att(), &Attestation::default());
    assert_eq!(ru.att_voters(), &vec![(m[0].key, 3)]);
    assert_eq!(ru.base_timeouts.get(StepName::Proposal), 7000);
    assert_eq!(ru.base_timeouts.get(StepName::Validation), 8000);
    assert_eq!(ru.base_timeouts.get(StepName::Ratification), 9000);
    assert!(ru.pubkey_bls.same(&m[0].key));
}

#[test]
fn messages_are_placed_in_time() {
    let m = members(1);
    let h = header(10, 2);
    let msg = validation_msg(&m[0], h, Vote::NoQuorum);
    assert_eq!(msg.get_step(), 7);
    assert_eq!(msg.get_signer(), Some(*m[0].key.bytes()));
    assert_eq!(StepName::Proposal.to_step(2), 6);
    assert_eq!(StepName::Ratification.to_step(255), 767);
    assert_eq!(msg.compare(10, 2, StepName::Validation), Status::Present);
    assert_eq!(msg.compare(10, 2, StepName::Ratification), Status::Past);
    assert_eq!(msg.compare(10, 2, StepName::Proposal), Status::Future);
    assert_eq!(msg.compare(10, 3, StepName::Proposal), Status::Past);
    assert_eq!(msg.compare(10, 1, StepName::Ratification), Status::Future);
    assert_eq!(msg.compare(11, 0, StepName::Proposal), Status::Past);
    assert_eq!(msg.compare(9, 50, StepName::Ratification), Status::Future);
    assert_eq!(h.compare_round(10), Status::Present);
    assert_eq!(h.compare_round(11), Status::Past);
    assert_eq!(h.compare_round(9), Status::Future);
    let empty = Message { header: h, payload: Payload::Empty, metadata: None };
    assert_eq!(empty.get_step(), 0);
    assert_eq!(empty.get_signer(), None);
}

struct AcceptAll;

impl MsgHandler for AcceptAll {
    fn verify(
        &self,
        _msg: &Message,
        _iteration: u8,
        _round_committees: &RoundCommittees,
    ) -> Result<(), ConsensusError> {
        Ok(())
    }

    fn collect(
        &mut self,
        msg: Message,
        _ru: &RoundUpdate,
        _committee: &Committee,
        _generator: Option<PublicKeyBytes>,
    ) -> Result<HandleMsgOutput, ConsensusError> {
        Ok(HandleMsgOutput::Ready(msg))
    }

    fn collect_from_past(
        &mut self,
        _msg: Message,
        _ru: &RoundUpdate,
        _committee: &Committee,
        _generator: Option<PublicKeyBytes>,
    ) -> Result<HandleMsgOutput, ConsensusError> {
        Ok(HandleMsgOutput::Pending)
    }

    fn handle_timeout(&self) -> Result<HandleMsgOutput, ConsensusError> {
        Err(ConsensusError::Timeout(0))
    }
}

struct RejectAll;

impl MsgHandler for RejectAll {
    fn verify(
        &self,
        _msg: &Message,
        _iteration: u8,
        _round_committees: &RoundCommittees,
    ) -> Result<(), ConsensusError> {
        Err(ConsensusError::InvalidSignature)
    }

    fn collect(
        &mut self,
        _msg: Message,
        _ru: &RoundUpdate,
        _committee: &Committee,
        _generator: Option<PublicKeyBytes>,
    ) -> Result<HandleMsgOutput, ConsensusError> {
        Ok(HandleMsgOutput::Pending)
    }

    fn collect_from_past(
        &mut self,
        _msg: Message,
        _ru: &RoundUpdate,
        _committee: &Committee,
        _generator: Option<PublicKeyBytes>,
    ) -> Result<HandleMsgOutput, ConsensusError> {
        Ok(HandleMsgOutput::Pending)
    }

    fn handle_timeout(&self) -> Result<HandleMsgOutput, ConsensusError> {
        Ok(HandleMsgOutput::Pending)
    }
}

#[test]
fn admission_of_messages() {
    let m = members(5);
    let p = provisioners(&m[..4], 1000 * DUSK);
    let tip = [7u8; 32];
    let ru = round_update(&m[0], tip, 9);
    let step = StepName::Validation;
    let committee = Committee::new(&p, &Config::new(seed(), 10, 0, step, vec![]));
    let rc = RoundCommittees::new();
    let member = m.iter().find(|x| committee.is_member(x.key.bytes())).unwrap();
    let good = validation_msg(member, header(10, 0), Vote::NoQuorum);
    assert_eq!(check_admission(&good, &ru, 0, step, &committee), Ok(()));
    assert_eq!(AcceptAll.is_valid(&good, &ru, 0, step, &committee, &rc), Ok(()));
    assert_eq!(
        RejectAll.is_valid(&good, &ru, 0, step, &committee, &rc),
        Err(ConsensusError::InvalidSignature)
    );
    assert_eq!(
        is_valid_given(&good, &ru, 0, step, &committee, Err(ConsensusError::InvalidSignature)),
        Err(ConsensusError::InvalidSignature)
    );
    assert_eq!(is_valid_given(&good, &ru, 0, step, &committee, Ok(())), Ok(()));

    // a message on another tip
    let mut h = header(10, 0);
    h.prev_block_hash = [0xbe; 32];
    let wrong_tip = validation_msg(member, h, Vote::NoQuorum);
    let expected = Err(ConsensusError::InvalidPrevBlockHash([0xbe; 32]));
    assert_eq!(check_admission(&wrong_tip, &ru, 0, step, &committee), expected);
    assert_eq!(AcceptAll.is_valid(&wrong_tip, &ru, 0, step, &committee, &rc), expected);
    assert_eq!(is_valid_given(&wrong_tip, &ru, 0, step, &committee, Ok(())), expected);

    // a signer outside the committee
    let outsider = validation_msg(&m[4], header(10, 0), Vote::NoQuorum);
    assert_eq!(
        check_admission(&outsider, &ru, 0, step, &committee),
        Err(ConsensusError::NotCommitteeMember)
    );

    // past and future
    let past = validation_msg(member, header(9, 0), Vote::NoQuorum);
    assert_eq!(check_admission(&past, &ru, 0, step, &committee), Err(ConsensusError::PastEvent));
    assert_eq!(
        check_admission(&good, &ru, 0, StepName::Ratification, &committee),
        Err(ConsensusError::PastEvent)
    );
    let future = validation_msg(member, header(10, 1), Vote::NoQuorum);
    assert_eq!(
        check_admission(&future, &ru, 0, step, &committee),
        Err(ConsensusError::FutureEvent)
    );
    // the time decides before the tip does
    let mut h = header(11, 0);
    h.prev_block_hash = [0xbe; 32];
    let far = validation_msg(member, h, Vote::NoQuorum);
    assert_eq!(check_admission(&far, &ru, 0, step, &committee), Err(ConsensusError::FutureEvent));

    // a message without signer
    let quorum = Message {
        header: header(10, 0),
        payload: Payload::Quorum(Quorum { header: header(10, 0), att: Attestation::default() }),
        metadata: None,
    };
    assert_eq!(
        check_admission(&quorum, &ru, 0, step, &committee),
        Err(ConsensusError::InvalidMsgType)
    );
    assert_eq!(
        AcceptAll.is_valid(&quorum, &ru, 0, step, &committee, &rc),
        Err(ConsensusError::InvalidMsgType)
    );

    // a candidate is signed by its generator
    let generator = p.get_generator(0, seed(), 10).unwrap();
    let mut block_header = tip_header([0xaa; 32], 10);
    block_header.generator_bls_pubkey = generator;
    let candidate = Message {
        header: header(10, 0),
        payload: Payload::Candidate(Candidate {
            candidate: Block { header: block_header, txs: vec![] },
        }),
        metadata: None,
    };
    let proposal = Committee::new(&p, &Config::new(seed(), 10, 0, StepName::Proposal, vec![]));
    assert_eq!(check_admission(&candidate, &ru, 0, StepName::Proposal, &proposal), Ok(()));
    assert_eq!(AcceptAll.handle_timeout(), Err(ConsensusError::Timeout(0)));
}

#[test]
fn round_committees_are_found_by_step() {
    let m = members(2);
    let p = provisioners(&m, 1000 * DUSK);
    let mut rc = RoundCommittees::new();
    assert!(rc.get_committee(1).is_none());
    rc.insert(1, Committee::new(&p, &Config::new(seed(), 1, 0, StepName::Validation, vec![])));
    rc.insert(0, Committee::new(&p, &Config::new(seed(), 1, 0, StepName::Proposal, vec![])));
    assert_eq!(rc.get_committee(1).unwrap().credits(), 64);
    assert_eq!(rc.get_committee(0).unwrap().credits(), 1);
    assert!(rc.get_committee(2).is_none());
}
