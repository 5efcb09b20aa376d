use consensus_core::chain::metrics::AverageElapsedTime;
use sha3::{Digest, Sha3_256};
use consensus_core::codec::{DecodeError, EncodeError, Reader};
use consensus_core::ledger::{
    Attestation, Block, EconomicMode, Header, IterationsInfo, Label, PublicKeyBytes,
    RatificationResult, Seed, Signature, SpentTransaction, StepVotes, Transaction, Vote,
};
use consensus_core::encoding::message::TOPIC_FIELD_POS;
use consensus_core::message::{
    Candidate, ConsensusHeader, GetResource, Message, Metadata, Payload, Quorum, QuorumType,
    Ratification, SignInfo, Topics, Validation, ValidationResult,
};

fn hash(fill: u8) -> [u8; 32] {
    let mut h = [fill; 32];
    h[0] = fill.wrapping_add(1);
    h
}

fn step_votes(bitset: u64, fill: u8) -> StepVotes {
    StepVotes::new([fill; 48], bitset)
}

fn attestation(fill: u8) -> Attestation {
    Attestation {
        result: RatificationResult::Success(Vote::Valid(hash(fill))),
        validation: step_votes(0b1011, fill),
        ratification: step_votes(0xffff_0000_ffff_0001, fill.wrapping_add(7)),
    }
}

fn iterations_info() -> IterationsInfo {
    IterationsInfo {
        cert_list: vec![
            None,
            Some((
                Attestation {
                    result: RatificationResult::Fail(Vote::NoCandidate),
                    validation: step_votes(3, 9),
                    ratification: step_votes(5, 10),
                },
                PublicKeyBytes([0xab; 96]),
            )),
            None,
            Some((
                Attestation {
                    result: RatificationResult::Fail(Vote::Invalid(hash(4))),
                    validation: step_votes(u64::MAX, 1),
                    ratification: step_votes(0, 2),
                },
                PublicKeyBytes([0x11; 96]),
            )),
        ],
    }
}

fn header() -> Header {
    Header {
        version: 1,
        height: 0x0102_0304_0506_0708,
        timestamp: 1_700_000_123,
        prev_block_hash: hash(1),
        seed: Seed([0x5e; 48]),
        state_hash: hash(2),
        event_hash: hash(3),
        generator_bls_pubkey: PublicKeyBytes([0x77; 96]),
        txroot: hash(4),
        gas_limit: 5_000_000_000,
        iteration: 2,
        prev_block_cert: attestation(0x21),
        failed_iterations: iterations_info(),
        hash: hash(0xaa),
        att: attestation(0x42),
    }
}

fn consensus_header() -> ConsensusHeader {
    ConsensusHeader { prev_block_hash: hash(8), round: 10, iteration: 3, block_hash: hash(0xaa) }
}

fn sign_info() -> SignInfo {
    SignInfo { signer: PublicKeyBytes([0x33; 96]), signature: Signature([0x44; 48]) }
}

fn transaction(len: usize) -> Transaction {
    Transaction { version: 1, tx_type: 7, inner: (0..len).map(|i| (i * 3) as u8).collect() }
}

fn block() -> Block {
    Block { header: header(), txs: vec![transaction(0), transaction(5), transaction(300)] }
}

fn spent(err: Option<&str>, mode: EconomicMode) -> SpentTransaction {
    SpentTransaction {
        inner: transaction(12),
        block_height: 77,
        gas_spent: 123_456,
        economic_mode: mode,
        err: err.map(|e| e.to_string()),
    }
}

#[test]
fn test_encoding_iterations_info() {
    let obj = iterations_info();
    let mut buf = vec![];
    obj.write(&mut buf).expect("should be writable");
    let read = IterationsInfo::read(&mut Reader::new(&buf)).expect("should be readable");
    assert!(obj.eq(&read));
}

#[test]
fn test_encoding_ratification() {
    let obj = Ratification {
        header: consensus_header(),
        vote: Vote::Valid(hash(0xaa)),
        timestamp: 1_700_000_999,
        validation_result: ValidationResult::new(
            step_votes(0b111, 0x66),
            Vote::Valid(hash(0xaa)),
            QuorumType::Valid,
        ),
        sign_info: sign_info(),
    };
    let mut buf = vec![];
    obj.write(&mut buf);
    let read = Ratification::read(&mut Reader::new(&buf)).expect("should be readable");
    assert!(obj.eq(&read));
}

#[test]
fn test_encoding_validation() {
    let obj = Validation {
        header: consensus_header(),
        vote: Vote::Invalid(hash(0x0b)),
        sign_info: sign_info(),
    };
    let mut buf = vec![];
    obj.write(&mut buf);
    let read = Validation::read(&mut Reader::new(&buf)).expect("should be readable");
    assert!(obj.eq(&read));
}

#[test]
fn test_encoding_candidate() {
    let obj = Candidate { candidate: block() };
    let mut buf = vec![];
    obj.write(&mut buf).expect("should be writable");
    let read = Candidate::read(&mut Reader::new(&buf)).expect("should be readable");
    assert!(obj.eq(&read));
}

#[test]
fn test_encoding_cert() {
    let obj = attestation(0x5a);
    let mut buf = vec![];
    obj.write(&mut buf);
    let read = Attestation::read(&mut Reader::new(&buf)).expect("should be readable");
    assert!(obj.eq(&read));
}

#[test]
fn test_encoding_transaction() {
    let obj = transaction(1000);
    let mut buf = vec![];
    obj.write(&mut buf).expect("should be writable");
    let read = Transaction::read(&mut Reader::new(&buf)).expect("should be readable");
    assert!(obj.eq(&read));
}

#[test]
fn test_encoding_spent_transaction() {
    for obj in [
        spent(None, EconomicMode::Plain),
        spent(Some("panic: out of gas"), EconomicMode::Allowance(5)),
        spent(Some("\u{e9}chec"), EconomicMode::Charge(u64::MAX)),
        spent(None, EconomicMode::Unknown),
    ] {
        let mut buf = vec![];
        obj.write(&mut buf).expect("should be writable");
        let read = SpentTransaction::read(&mut Reader::new(&buf)).expect("should be readable");
        assert!(obj.eq(&read));
    }
}

#[test]
fn test_encoding_header() {
    let obj = consensus_header();
    let mut buf = vec![];
    obj.write(&mut buf);
    let read = ConsensusHeader::read(&mut Reader::new(&buf)).expect("should be readable");
    assert!(obj.eq(&read));
}

#[test]
fn test_encoding_block() {
    let obj = block();
    let mut buf = vec![];
    obj.write(&mut buf).expect("should be writable");
    let read = Block::read(&mut Reader::new(&buf)).expect("should be readable");
    assert!(obj.eq(&read));
}

#[test]
fn test_encoding_ratification_result() {
    for obj in [
        RatificationResult::Fail(Vote::NoCandidate),
        RatificationResult::Fail(Vote::NoQuorum),
        RatificationResult::Fail(Vote::Invalid(hash(1))),
        RatificationResult::Success(Vote::Valid(hash(2))),
    ] {
        let mut buf = vec![];
        obj.write(&mut buf);
        let read = RatificationResult::read(&mut Reader::new(&buf)).expect("should be readable");
        assert!(obj.eq(&read));
    }
}

#[test]
fn block_header_round_trips() {
    let obj = header();
    let mut buf = vec![];
    obj.write(&mut buf).expect("should be writable");
    let mut r = Reader::new(&buf);
    let read = Header::read(&mut r).expect("should be readable");
    assert_eq!(obj, read);
    assert_eq!(r.remaining_len(), 0);
}

#[test]
fn step_votes_bytes_are_bitset_then_signature() {
    let mut buf = vec![];
    step_votes(0x0102_0304_0506_0708, 0xee).write(&mut buf);
    let mut expected = vec![8, 7, 6, 5, 4, 3, 2, 1];
    expected.extend_from_slice(&[0xee; 48]);
    assert_eq!(buf, expected);
}

#[test]
fn vote_tags() {
    let mut buf = vec![];
    Vote::NoCandidate.write(&mut buf);
    Vote::NoQuorum.write(&mut buf);
    assert_eq!(buf, vec![0, 3]);
    let mut buf = vec![];
    Vote::Valid([9; 32]).write(&mut buf);
    assert_eq!(buf[0], 1);
    assert_eq!(&buf[1..], &[9u8; 32]);
    let mut buf = vec![];
    Vote::Invalid([7; 32]).write(&mut buf);
    assert_eq!(buf[0], 2);
    assert_eq!(buf.len(), 33);
    assert_eq!(Vote::read(&mut Reader::new(&[4])), Err(DecodeError::InvalidData));
    assert_eq!(Vote::read(&mut Reader::new(&[])), Err(DecodeError::UnexpectedEof));
    assert_eq!(Vote::read(&mut Reader::new(&[1, 2, 3])), Err(DecodeError::UnexpectedEof));
}

#[test]
fn ratification_result_tags() {
    let mut buf = vec![];
    RatificationResult::Fail(Vote::NoQuorum).write(&mut buf);
    assert_eq!(buf, vec![0, 3]);
    let mut buf = vec![];
    RatificationResult::Success(Vote::NoCandidate).write(&mut buf);
    assert_eq!(buf, vec![1, 0]);
    assert_eq!(
        RatificationResult::read(&mut Reader::new(&[2, 0])),
        Err(DecodeError::InvalidData)
    );
}

#[test]
fn label_bytes() {
    for (label, byte) in [(Label::Accepted, 0u8), (Label::Attested, 1), (Label::Final, 2)] {
        let mut buf = vec![];
        label.write(&mut buf);
        assert_eq!(buf, vec![byte]);
        assert_eq!(Label::read(&mut Reader::new(&buf)), Ok(label));
        assert_eq!(Label::from(byte), label);
    }
    assert_eq!(Label::read(&mut Reader::new(&[3])), Err(DecodeError::InvalidData));
    assert_eq!(Label::read(&mut Reader::new(&[255])), Err(DecodeError::InvalidData));
    assert_eq!(Label::read(&mut Reader::new(&[])), Err(DecodeError::UnexpectedEof));
}

#[test]
fn transaction_bytes() {
    let tx = Transaction { version: 1, tx_type: 0x0a0b0c0d, inner: vec![0xde, 0xad] };
    let mut buf = vec![];
    tx.write(&mut buf).unwrap();
    assert_eq!(buf, vec![1, 0, 0, 0, 0x0d, 0x0c, 0x0b, 0x0a, 2, 0, 0, 0, 0xde, 0xad]);
    // a length that runs past the input
    assert_eq!(
        Transaction::read(&mut Reader::new(&[1, 0, 0, 0, 2, 0, 0, 0, 5, 0, 0, 0, 1, 2])),
        Err(DecodeError::UnexpectedEof)
    );
}

#[test]
fn block_bytes_are_header_count_transactions() {
    let b = block();
    let mut whole = vec![];
    b.write(&mut whole).unwrap();
    let mut expected = vec![];
    b.header.write(&mut expected).unwrap();
    expected.extend_from_slice(&3u32.to_le_bytes());
    for t in &b.txs {
        t.write(&mut expected).unwrap();
    }
    assert_eq!(whole, expected);
}

#[test]
fn iterations_info_bytes() {
    let info = IterationsInfo { cert_list: vec![None, None] };
    let mut buf = vec![];
    info.write(&mut buf).unwrap();
    assert_eq!(buf, vec![2, 0, 0]);
    let one = IterationsInfo {
        cert_list: vec![Some((attestation(1), PublicKeyBytes([0xcc; 96])))],
    };
    let mut buf = vec![];
    one.write(&mut buf).unwrap();
    assert_eq!(buf[0], 1);
    assert_eq!(buf[1], 1);
    assert_eq!(&buf[buf.len() - 96..], &[0xcc; 96]);
    // a presence byte that is neither 0 nor 1
    assert_eq!(
        IterationsInfo::read(&mut Reader::new(&[1, 2])),
        Err(DecodeError::InvalidData)
    );
    // more entries announced than there are
    assert_eq!(
        IterationsInfo::read(&mut Reader::new(&[2, 0])),
        Err(DecodeError::UnexpectedEof)
    );
}

#[test]
fn too_many_failed_iterations_cannot_be_written() {
    let info = IterationsInfo { cert_list: vec![None; 256] };
    let mut buf = vec![0x99];
    assert_eq!(info.write(&mut buf), Err(EncodeError::TooLong));
    assert_eq!(buf, vec![0x99]);
    let info = IterationsInfo { cert_list: vec![None; 255] };
    assert_eq!(info.write(&mut buf), Ok(()));
    assert_eq!(buf.len(), 1 + 1 + 255);
}

#[test]
fn quorum_type_reads_every_byte() {
    for (q, tag) in [
        (QuorumType::Valid, 0u8),
        (QuorumType::Invalid, 1),
        (QuorumType::NoCandidate, 2),
        (QuorumType::NoQuorum, 255),
    ] {
        let mut buf = vec![];
        q.write(&mut buf);
        assert_eq!(buf, vec![tag]);
        assert_eq!(QuorumType::read(&mut Reader::new(&buf)), Ok(q));
    }
    assert_eq!(QuorumType::read(&mut Reader::new(&[3])), Ok(QuorumType::NoQuorum));
    assert_eq!(QuorumType::read(&mut Reader::new(&[100])), Ok(QuorumType::NoQuorum));
}

#[test]
fn economic_mode_bytes() {
    let mut buf = vec![];
    EconomicMode::Allowance(0x0102).write(&mut buf);
    assert_eq!(buf, vec![1, 2, 1, 0, 0, 0, 0, 0, 0]);
    let mut buf = vec![];
    EconomicMode::Charge(1).write(&mut buf);
    assert_eq!(buf, vec![2, 1, 0, 0, 0, 0, 0, 0, 0]);
    let mut buf = vec![];
    EconomicMode::Plain.write(&mut buf);
    assert_eq!(buf, vec![0; 9]);
    let mut buf = vec![];
    EconomicMode::Unknown.write(&mut buf);
    assert_eq!(buf, vec![255, 0, 0, 0, 0, 0, 0, 0, 0]);
    assert_eq!(
        EconomicMode::read(&mut Reader::new(&[9, 1, 1, 1, 1, 1, 1, 1, 1])),
        Ok(EconomicMode::Unknown)
    );
    assert_eq!(
        EconomicMode::read(&mut Reader::new(&[1, 1])),
        Err(DecodeError::UnexpectedEof)
    );
}

#[test]
fn spent_transaction_error_field() {
    // no error: eight zero bytes are written, four are read
    let obj = spent(None, EconomicMode::Plain);
    let mut buf = vec![];
    obj.write(&mut buf).unwrap();
    assert_eq!(&buf[buf.len() - 8..], &[0u8; 8]);
    let mut r = Reader::new(&buf);
    assert_eq!(SpentTransaction::read(&mut r), Ok(obj));
    assert_eq!(r.remaining_len(), 4);
    // an error: its length, then its bytes
    let obj = spent(Some("bad"), EconomicMode::Plain);
    let mut buf = vec![];
    obj.write(&mut buf).unwrap();
    assert_eq!(&buf[buf.len() - 7..], &[3, 0, 0, 0, b'b', b'a', b'd']);
    // an empty error is read back as no error
    let obj = spent(Some(""), EconomicMode::Plain);
    let mut buf = vec![];
    obj.write(&mut buf).unwrap();
    let read = SpentTransaction::read(&mut Reader::new(&buf)).unwrap();
    assert_eq!(read.err, None);
    // an error that is not UTF-8
    let mut buf = vec![];
    spent(Some("ab"), EconomicMode::Plain).write(&mut buf).unwrap();
    let n = buf.len();
    buf[n - 1] = 0xff;
    assert_eq!(SpentTransaction::read(&mut Reader::new(&buf)), Err(DecodeError::InvalidData));
}

#[test]
fn block_without_hash_gets_its_hash_computed() {
    let mut h = header();
    h.hash = [0; 32];
    let b = Block::new(h.clone(), vec![]).unwrap();
    assert_ne!(b.header.hash, [0u8; 32]);
    // the hash is the digest of the hashable part
    let mut hashable = vec![];
    h.marshal_hashable(&mut hashable).unwrap();
    let digest: [u8; 32] = Sha3_256::digest(&hashable).into();
    assert_eq!(b.header.hash, digest);
    assert_eq!(h.calculate_hash(), Ok(digest));
    assert!(b.header.verify_hash());
    assert!(!h.verify_hash());
    assert!(!header().verify_hash());
    // a block written with a zero hash comes back with the hash computed
    let raw = Block { header: h, txs: vec![] };
    let mut buf = vec![];
    raw.write(&mut buf).unwrap();
    let read = Block::read(&mut Reader::new(&buf)).unwrap();
    assert_eq!(read, b);
    // a hash that is set is kept
    let kept = Block::new(header(), vec![]).unwrap();
    assert_eq!(kept.header.hash, header().hash);
    // a header that cannot be hashed
    let mut long = header();
    long.failed_iterations = IterationsInfo { cert_list: vec![None; 256] };
    assert!(Block::new(long.clone(), vec![]).is_ok());
    assert_eq!(long.calculate_hash(), Err(EncodeError::TooLong));
    let mut buf = vec![1, 2, 3];
    assert_eq!(long.write(&mut buf), Err(EncodeError::TooLong));
    assert_eq!(Block { header: long.clone(), txs: vec![] }.write(&mut buf), Err(EncodeError::TooLong));
    assert_eq!(buf, vec![1, 2, 3]);
    long.hash = [0; 32];
    assert_eq!(Block::new(long, vec![]), Err(EncodeError::TooLong));
}

#[test]
fn hashable_part_is_a_prefix_of_the_header() {
    let h = header();
    let mut hashable = vec![];
    h.marshal_hashable(&mut hashable).unwrap();
    let mut whole = vec![];
    h.write(&mut whole).unwrap();
    assert_eq!(&whole[..hashable.len()], &hashable[..]);
    assert_eq!(&whole[whole.len() - 32..], &h.hash);
    assert_eq!(hashable[0], 1);
    assert_eq!(&hashable[1..9], &h.height.to_le_bytes());
    assert_eq!(&hashable[9..17], &h.timestamp.to_le_bytes());
    assert_eq!(&hashable[17..49], &h.prev_block_hash);
    assert_eq!(hashable[297], 2);
    let read = Header::unmarshal_hashable(&mut Reader::new(&hashable)).unwrap();
    assert_eq!(read.height, h.height);
    assert_eq!(read.failed_iterations, h.failed_iterations);
    assert_eq!(read.hash, [0u8; 32]);
}

#[test]
fn consensus_header_bytes() {
    let h = ConsensusHeader { prev_block_hash: [1; 32], round: 258, iteration: 9, block_hash: [2; 32] };
    let mut buf = vec![];
    h.write(&mut buf);
    assert_eq!(buf.len(), 73);
    assert_eq!(&buf[..32], &[1u8; 32]);
    assert_eq!(&buf[32..40], &[2, 1, 0, 0, 0, 0, 0, 0]);
    assert_eq!(buf[40], 9);
    assert_eq!(&buf[41..], &[2u8; 32]);
    assert_eq!(h.signable(), buf);
    assert_eq!(
        ConsensusHeader::read(&mut Reader::new(&buf[..72])),
        Err(DecodeError::UnexpectedEof)
    );
}

#[test]
fn reader_primitives() {
    let data = [1u8, 2, 0, 0, 0, 3, 0, 0, 0, 0, 0, 0, 0, 2, 0, 0, 0, 8, 9];
    let mut r = Reader::new(&data);
    assert_eq!(r.read_u8(), Ok(1));
    assert_eq!(r.read_u32_le(), Ok(2));
    assert_eq!(r.read_u64_le(), Ok(3));
    assert_eq!(r.read_var_le_bytes32(), Ok(vec![8, 9]));
    assert_eq!(r.remaining_len(), 0);
    assert_eq!(r.read_u8(), Err(DecodeError::UnexpectedEof));
    let mut r = Reader::new(&data);
    assert_eq!(r.read_bytes::<4>(), Ok([1, 2, 0, 0]));
    assert_eq!(r.read_bytes::<16>(), Err(DecodeError::UnexpectedEof));
}

#[test]
fn average_elapsed_time_round_trips() {
    let mut avg = AverageElapsedTime::new();
    for v in [10u64, 20, 30] {
        avg.push_back(v);
    }
    let mut buf = vec![];
    avg.write(&mut buf);
    let mut expected = vec![3u8, 0, 0, 0];
    for v in [10u64, 20, 30] {
        expected.extend_from_slice(&v.to_le_bytes());
    }
    assert_eq!(buf, expected);
    assert_eq!(AverageElapsedTime::read(&mut Reader::new(&buf)), Ok(avg));
    assert_eq!(
        AverageElapsedTime::read(&mut Reader::new(&[6, 0, 0, 0])),
        Err(DecodeError::InvalidData)
    );
}

#[test]
fn frames_round_trip() {
    let h = consensus_header();
    let validation = Validation { header: h, vote: Vote::NoQuorum, sign_info: sign_info() };
    let quorum = Quorum { header: h, att: attestation(3) };
    let request = GetResource::new(vec![hash(1), hash(2)], b"10.0.0.1:9000".to_vec(), 99, 16);
    assert!(request.is_alive(98));
    assert!(!request.is_alive(99));
    for payload in [
        Payload::Validation(validation),
        Payload::Quorum(quorum),
        Payload::Candidate(Candidate { candidate: block() }),
        Payload::GetResource(request.clone()),
        Payload::Empty,
    ] {
        let msg = Message { header: h, payload, metadata: Some(Metadata { height: 3 }) };
        let frame = msg.encode_frame(0x0102).unwrap();
        assert_eq!(&frame[..8], &[2, 1, 0, 0, 0, 0, 0, 0]);
        assert_eq!(frame[TOPIC_FIELD_POS], msg.topic().to_u8());
        let mut r = Reader::new(&frame);
        let (reserved, read) = Message::decode_frame(&mut r).unwrap();
        assert_eq!(r.remaining_len(), 0);
        assert_eq!(reserved, 0x0102);
        assert_eq!(read.header, msg.header);
        assert_eq!(read.payload, msg.payload);
        // what the transport knows does not travel
        assert_eq!(read.metadata, None);
    }
    for (topic, byte) in [
        (Topics::GetResource, 8u8),
        (Topics::Candidate, 15),
        (Topics::Validation, 17),
        (Topics::Ratification, 18),
        (Topics::Quorum, 19),
        (Topics::Unknown, 255),
    ] {
        assert_eq!(topic.to_u8(), byte);
        assert_eq!(Topics::from_u8(byte), Some(topic));
    }
    assert_eq!(Topics::from_u8(0), None);
    assert_eq!(Topics::from_u8(16), None);
    // a topic byte that stands for nothing
    let mut frame = Message { header: h, payload: Payload::Empty, metadata: None }
        .encode_frame(0)
        .unwrap();
    frame[TOPIC_FIELD_POS] = 1;
    assert_eq!(
        Message::decode_frame(&mut Reader::new(&frame)).map(|_| ()),
        Err(DecodeError::InvalidData)
    );
    assert_eq!(
        Message::decode_frame(&mut Reader::new(&frame[..8])).map(|_| ()),
        Err(DecodeError::UnexpectedEof)
    );
    frame[TOPIC_FIELD_POS] = 17;
    assert_eq!(
        Message::decode_frame(&mut Reader::new(&frame)).map(|_| ()),
        Err(DecodeError::UnexpectedEof)
    );
    // a request on the wire
    let mut buf = vec![];
    request.write(&mut buf).unwrap();
    assert_eq!(&buf[..4], &[2, 0, 0, 0]);
    assert_eq!(&buf[4..36], &hash(1));
    assert_eq!(&buf[68..72], &[13, 0, 0, 0]);
    assert_eq!(&buf[72..85], b"10.0.0.1:9000");
    assert_eq!(&buf[85..93], &99u64.to_le_bytes());
    assert_eq!(&buf[93..], &[16, 0]);
    assert_eq!(GetResource::read(&mut Reader::new(&buf)), Ok(request.clone()));
    assert_eq!(GetResource::read(&mut Reader::new(&buf[..94])), Err(DecodeError::UnexpectedEof));
    let msg = Message::new_get_resource(request);
    assert_eq!(msg.topic(), Topics::GetResource);
    assert_eq!(msg.header.round, 0);
    let mut buf = vec![];
    Quorum { header: h, att: attestation(3) }.write(&mut buf);
    assert_eq!(buf.len(), 73 + 2 * 56 + 34);
    assert_eq!(Quorum::read(&mut Reader::new(&buf)), Ok(Quorum { header: h, att: attestation(3) }));
}
