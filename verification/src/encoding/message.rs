//! Consensus messages on the wire.

use vstd::prelude::*;
use vstd::bytes::*;
use vstd::slice::*;
use crate::codec::{
    encode_var_bytes, lemma_parse_bytes, lemma_parse_u32_le, lemma_parse_u64_le,
    lemma_parse_u8, lemma_parse_var_bytes, parse_bytes, parse_u32_le, parse_u64_le, parse_u8,
    parse_var_bytes, write_bytes, write_u32_le, write_u64_le, write_u8, write_var_le_bytes32,
    DecodeError, EncodeError, Parsed, Reader,
};
use crate::encoding::attestation::is_bytes;
use crate::encoding::block::array_from_slice;
use crate::ledger::{
    Attestation, AttestationView, Block, BlockView, PublicKeyBytes, Signature, StepVotes,
    StepVotesView, Vote, VoteView,
};
use crate::message::{
    hashes_view, Candidate, CandidateView, ConsensusHeader, ConsensusHeaderView, GetResource,
    GetResourceView, Message, MessageView,
    Payload, PayloadView, Quorum, QuorumType, QuorumView, Ratification, RatificationView,
    SignInfo, SignInfoView, Topics, Validation, ValidationResult, ValidationResultView,
    ValidationView,
};

verus! {

/// The number of bytes a consensus header takes.
pub const CONSENSUS_HEADER_LEN: usize = 73;

impl ConsensusHeaderView {
    pub open spec fn wf(self) -> bool {
        is_bytes(self.prev_block_hash, 32) && is_bytes(self.block_hash, 32)
    }

    /// The hash of the previous block, the round as a little-endian `u64`,
    /// the iteration, then the hash of the block voted on.
    pub open spec fn encode(self) -> Seq<u8> {
        self.prev_block_hash + spec_u64_to_le_bytes(self.round) + seq![self.iteration]
            + self.block_hash
    }

    pub open spec fn parse(s: Seq<u8>) -> Parsed<ConsensusHeaderView> {
        if s.len() < CONSENSUS_HEADER_LEN {
            Err(DecodeError::UnexpectedEof)
        } else {
            Ok(
                (
                    ConsensusHeaderView {
                        prev_block_hash: s.subrange(0, 32),
                        round: spec_u64_from_le_bytes(s.subrange(32, 40)),
                        iteration: s[40],
                        block_hash: s.subrange(41, 73),
                    },
                    s.skip(CONSENSUS_HEADER_LEN as int),
                ),
            )
        }
    }

    pub proof fn lemma_round_trip(self, tail: Seq<u8>)
        requires
            self.wf(),
        ensures
            self.encode().len() == CONSENSUS_HEADER_LEN,
            Self::parse(self.encode() + tail) == Ok::<
                (ConsensusHeaderView, Seq<u8>),
                DecodeError,
            >((self, tail)),
    {
        lemma_auto_spec_u64_to_from_le_bytes();
        let s = self.encode() + tail;
        assert(s.subrange(0, 32) =~= self.prev_block_hash);
        assert(s.subrange(32, 40) =~= spec_u64_to_le_bytes(self.round));
        assert(s.subrange(41, 73) =~= self.block_hash);
        assert(s.skip(CONSENSUS_HEADER_LEN as int) =~= tail);
    }
}

impl ConsensusHeader {
    pub fn write(&self, w: &mut Vec<u8>)
        ensures
            final(w)@ == old(w)@ + self@.encode(),
    {
        write_bytes(w, self.prev_block_hash.as_slice());
        write_u64_le(w, self.round);
        write_u8(w, self.iteration);
        write_bytes(w, self.block_hash.as_slice());
        assert(w@ =~= old(w)@ + self@.encode());
    }

    pub fn read(r: &mut Reader) -> (res: Result<ConsensusHeader, DecodeError>)
        ensures
            match res {
                Ok(v) => ConsensusHeaderView::parse(old(r).remaining()) == Ok::<
                    (ConsensusHeaderView, Seq<u8>),
                    DecodeError,
                >((v@, final(r).remaining())),
                Err(e) => ConsensusHeaderView::parse(old(r).remaining()) == Err::<
                    (ConsensusHeaderView, Seq<u8>),
                    DecodeError,
                >(e),
            },
    {
        let ghost s = r.remaining();
        let buf = match r.read_bytes::<73>() {
            Ok(b) => b,
            Err(e) => return Err(e),
        };
        let b = buf.as_slice();
        let header = ConsensusHeader {
            prev_block_hash: array_from_slice::<32>(b, 0),
            round: u64_from_le_bytes(slice_subrange(b, 32, 40)),
            iteration: b[40],
            block_hash: array_from_slice::<32>(b, 41),
        };
        proof {
            let t = s.take(CONSENSUS_HEADER_LEN as int);
            assert(t.subrange(0, 32) =~= s.subrange(0, 32));
            assert(t.subrange(32, 40) =~= s.subrange(32, 40));
            assert(t.subrange(41, 73) =~= s.subrange(41, 73));
        }
        Ok(header)
    }

    /// The bytes that a vote's signature covers: the encoded header.
    pub fn signable(&self) -> (out: Vec<u8>)
        ensures
            out@ == self@.encode(),
    {
        let mut out: Vec<u8> = Vec::new();
        self.write(&mut out);
        assert(out@ =~= self@.encode());
        out
    }
}

/// The number of bytes a signer and a signature take.
pub const SIGN_INFO_LEN: usize = 144;

impl SignInfoView {
    pub open spec fn wf(self) -> bool {
        is_bytes(self.signer, 96) && is_bytes(self.signature, 48)
    }

    /// The 96 bytes of the signer's key, then the 48 bytes of the signature.
    pub open spec fn encode(self) -> Seq<u8> {
        self.signer + self.signature
    }

    pub open spec fn parse(s: Seq<u8>) -> Parsed<SignInfoView> {
        if s.len() < SIGN_INFO_LEN {
            Err(DecodeError::UnexpectedEof)
        } else {
            Ok(
                (
                    SignInfoView { signer: s.subrange(0, 96), signature: s.subrange(96, 144) },
                    s.skip(SIGN_INFO_LEN as int),
                ),
            )
        }
    }

    pub proof fn lemma_round_trip(self, tail: Seq<u8>)
        requires
            self.wf(),
        ensures
            Self::parse(self.encode() + tail) == Ok::<(SignInfoView, Seq<u8>), DecodeError>(
                (self, tail),
            ),
    {
        let s = self.encode() + tail;
        assert(s.subrange(0, 96) =~= self.signer);
        assert(s.subrange(96, 144) =~= self.signature);
        assert(s.skip(SIGN_INFO_LEN as int) =~= tail);
    }
}

impl SignInfo {
    pub fn write(&self, w: &mut Vec<u8>)
        ensures
            final(w)@ == old(w)@ + self@.encode(),
    {
        write_bytes(w, self.signer.inner().as_slice());
        write_bytes(w, self.signature.inner().as_slice());
        assert(w@ =~= old(w)@ + self@.encode());
    }

    pub fn read(r: &mut Reader) -> (res: Result<SignInfo, DecodeError>)
        ensures
            match res {
                Ok(v) => SignInfoView::parse(old(r).remaining()) == Ok::<
                    (SignInfoView, Seq<u8>),
                    DecodeError,
                >((v@, final(r).remaining())),
                Err(e) => SignInfoView::parse(old(r).remaining()) == Err::<
                    (SignInfoView, Seq<u8>),
                    DecodeError,
                >(e),
            },
    {
        let ghost s = r.remaining();
        let buf = match r.read_bytes::<144>() {
            Ok(b) => b,
            Err(e) => return Err(e),
        };
        let b = buf.as_slice();
        let info = SignInfo {
            signer: PublicKeyBytes(array_from_slice::<96>(b, 0)),
            signature: Signature(array_from_slice::<48>(b, 96)),
        };
        proof {
            let t = s.take(SIGN_INFO_LEN as int);
            assert(t.subrange(0, 96) =~= s.subrange(0, 96));
            assert(t.subrange(96, 144) =~= s.subrange(96, 144));
        }
        Ok(info)
    }
}

impl QuorumType {
    /// The byte that stands for the quorum type.
    pub open spec fn tag(self) -> u8 {
        match self {
            QuorumType::Valid => 0,
            QuorumType::Invalid => 1,
            QuorumType::NoCandidate => 2,
            QuorumType::NoQuorum => 255,
        }
    }

    /// Every byte stands for a quorum type: those above 2 for no quorum.
    pub open spec fn of_tag(tag: u8) -> QuorumType {
        if tag == 0 {
            QuorumType::Valid
        } else if tag == 1 {
            QuorumType::Invalid
        } else if tag == 2 {
            QuorumType::NoCandidate
        } else {
            QuorumType::NoQuorum
        }
    }

    pub open spec fn encode(self) -> Seq<u8> {
        seq![self.tag()]
    }

    pub open spec fn parse(s: Seq<u8>) -> Parsed<QuorumType> {
        match parse_u8(s) {
            Err(e) => Err(e),
            Ok((tag, rest)) => Ok((Self::of_tag(tag), rest)),
        }
    }

    pub proof fn lemma_round_trip(self, tail: Seq<u8>)
        ensures
            Self::parse(self.encode() + tail) == Ok::<(QuorumType, Seq<u8>), DecodeError>(
                (self, tail),
            ),
    {
        lemma_parse_u8(self.tag(), tail);
    }

    pub fn from_u8(tag: u8) -> (q: QuorumType)
        ensures
            q == Self::of_tag(tag),
    {
        if tag == 0 {
            QuorumType::Valid
        } else if tag == 1 {
            QuorumType::Invalid
        } else if tag == 2 {
            QuorumType::NoCandidate
        } else {
            QuorumType::NoQuorum
        }
    }

    pub fn write(&self, w: &mut Vec<u8>)
        ensures
            final(w)@ == old(w)@ + self.encode(),
    {
        let tag: u8 = match self {
            QuorumType::Valid => 0,
            QuorumType::Invalid => 1,
            QuorumType::NoCandidate => 2,
            QuorumType::NoQuorum => 255,
        };
        write_u8(w, tag);
    }

    pub fn read(r: &mut Reader) -> (res: Result<QuorumType, DecodeError>)
        ensures
            match res {
                Ok(v) => QuorumType::parse(old(r).remaining()) == Ok::<
                    (QuorumType, Seq<u8>),
                    DecodeError,
                >((v, final(r).remaining())),
                Err(e) => QuorumType::parse(old(r).remaining()) == Err::<
                    (QuorumType, Seq<u8>),
                    DecodeError,
                >(e),
            },
    {
        match r.read_u8() {
            Ok(tag) => Ok(QuorumType::from_u8(tag)),
            Err(e) => Err(e),
        }
    }
}

impl ValidationResultView {
    pub open spec fn wf(self) -> bool {
        self.sv.wf() && self.vote.wf()
    }

    /// The step votes, the vote, then the quorum type.
    pub open spec fn encode(self) -> Seq<u8> {
        self.sv.encode() + self.vote.encode() + self.quorum.encode()
    }

    pub open spec fn parse(s: Seq<u8>) -> Parsed<ValidationResultView> {
        match StepVotesView::parse(s) {
            Err(e) => Err(e),
            Ok((sv, r1)) => match VoteView::parse(r1) {
                Err(e) => Err(e),
                Ok((vote, r2)) => match QuorumType::parse(r2) {
                    Err(e) => Err(e),
                    Ok((quorum, r3)) => Ok((ValidationResultView { quorum, vote, sv }, r3)),
                },
            },
        }
    }

    pub proof fn lemma_round_trip(self, tail: Seq<u8>)
        requires
            self.wf(),
        ensures
            Self::parse(self.encode() + tail) == Ok::<
                (ValidationResultView, Seq<u8>),
                DecodeError,
            >((self, tail)),
    {
        let t2 = self.quorum.encode() + tail;
        let t1 = self.vote.encode() + t2;
        assert(self.encode() + tail =~= self.sv.encode() + t1);
        self.sv.lemma_round_trip(t1);
        self.vote.lemma_round_trip(t2);
        self.quorum.lemma_round_trip(tail);
    }
}

impl ValidationResult {
    pub fn write(&self, w: &mut Vec<u8>)
        ensures
            final(w)@ == old(w)@ + self@.encode(),
    {
        self.sv.write(w);
        self.vote.write(w);
        self.quorum.write(w);
        assert(w@ =~= old(w)@ + self@.encode());
    }

    pub fn read(r: &mut Reader) -> (res: Result<ValidationResult, DecodeError>)
        ensures
            match res {
                Ok(v) => ValidationResultView::parse(old(r).remaining()) == Ok::<
                    (ValidationResultView, Seq<u8>),
                    DecodeError,
                >((v@, final(r).remaining())),
                Err(e) => ValidationResultView::parse(old(r).remaining()) == Err::<
                    (ValidationResultView, Seq<u8>),
                    DecodeError,
                >(e),
            },
    {
        let sv = match StepVotes::read(r) {
            Ok(v) => v,
            Err(e) => return Err(e),
        };
        let vote = match Vote::read(r) {
            Ok(v) => v,
            Err(e) => return Err(e),
        };
        let quorum = match QuorumType::read(r) {
            Ok(v) => v,
            Err(e) => return Err(e),
        };
        Ok(ValidationResult::new(sv, vote, quorum))
    }
}

impl ValidationView {
    pub open spec fn wf(self) -> bool {
        self.header.wf() && self.vote.wf() && self.sign_info.wf()
    }

    /// The header, the vote, then the signer and the signature.
    pub open spec fn encode(self) -> Seq<u8> {
        self.header.encode() + self.vote.encode() + self.sign_info.encode()
    }

    pub open spec fn parse(s: Seq<u8>) -> Parsed<ValidationView> {
        match ConsensusHeaderView::parse(s) {
            Err(e) => Err(e),
            Ok((header, r1)) => match VoteView::parse(r1) {
                Err(e) => Err(e),
                Ok((vote, r2)) => match SignInfoView::parse(r2) {
                    Err(e) => Err(e),
                    Ok((sign_info, r3)) => Ok((ValidationView { header, vote, sign_info }, r3)),
                },
            },
        }
    }

    pub proof fn lemma_round_trip(self, tail: Seq<u8>)
        requires
            self.wf(),
        ensures
            Self::parse(self.encode() + tail) == Ok::<(ValidationView, Seq<u8>), DecodeError>(
                (self, tail),
            ),
    {
        let t2 = self.sign_info.encode() + tail;
        let t1 = self.vote.encode() + t2;
        assert(self.encode() + tail =~= self.header.encode() + t1);
        self.header.lemma_round_trip(t1);
        self.vote.lemma_round_trip(t2);
        self.sign_info.lemma_round_trip(tail);
    }
}

impl Validation {
    pub fn write(&self, w: &mut Vec<u8>)
        ensures
            final(w)@ == old(w)@ + self@.encode(),
    {
        self.header.write(w);
        self.vote.write(w);
        self.sign_info.write(w);
        assert(w@ =~= old(w)@ + self@.encode());
    }

    pub fn read(r: &mut Reader) -> (res: Result<Validation, DecodeError>)
        ensures
            match res {
                Ok(v) => ValidationView::parse(old(r).remaining()) == Ok::<
                    (ValidationView, Seq<u8>),
                    DecodeError,
                >((v@, final(r).remaining())),
                Err(e) => ValidationView::parse(old(r).remaining()) == Err::<
                    (ValidationView, Seq<u8>),
                    DecodeError,
                >(e),
            },
    {
        let header = match ConsensusHeader::read(r) {
            Ok(v) => v,
            Err(e) => return Err(e),
        };
        let vote = match Vote::read(r) {
            Ok(v) => v,
            Err(e) => return Err(e),
        };
        let sign_info = match SignInfo::read(r) {
            Ok(v) => v,
            Err(e) => return Err(e),
        };
        Ok(Validation { header, vote, sign_info })
    }
}

impl RatificationView {
    pub open spec fn wf(self) -> bool {
        self.header.wf() && self.vote.wf() && self.validation_result.wf() && self.sign_info.wf()
    }

    /// The header, the vote, the timestamp as a little-endian `u64`, the
    /// validation result, then the signer and the signature.
    pub open spec fn encode(self) -> Seq<u8> {
        self.header.encode() + self.vote.encode() + spec_u64_to_le_bytes(self.timestamp)
            + self.validation_result.encode() + self.sign_info.encode()
    }

    pub open spec fn parse(s: Seq<u8>) -> Parsed<RatificationView> {
        match ConsensusHeaderView::parse(s) {
            Err(e) => Err(e),
            Ok((header, r1)) => match VoteView::parse(r1) {
                Err(e) => Err(e),
                Ok((vote, r2)) => match parse_u64_le(r2) {
                    Err(e) => Err(e),
                    Ok((timestamp, r3)) => match ValidationResultView::parse(r3) {
                        Err(e) => Err(e),
                        Ok((validation_result, r4)) => match SignInfoView::parse(r4) {
                            Err(e) => Err(e),
                            Ok((sign_info, r5)) => Ok(
                                (
                                    RatificationView {
                                        header,
                                        vote,
                                        timestamp,
                                        validation_result,
                                        sign_info,
                                    },
                                    r5,
                                ),
                            ),
                        },
                    },
                },
            },
        }
    }

    pub proof fn lemma_round_trip(self, tail: Seq<u8>)
        requires
            self.wf(),
        ensures
            Self::parse(self.encode() + tail) == Ok::<(RatificationView, Seq<u8>), DecodeError>(
                (self, tail),
            ),
    {
        let t4 = self.sign_info.encode() + tail;
        let t3 = self.validation_result.encode() + t4;
        let t2 = spec_u64_to_le_bytes(self.timestamp) + t3;
        let t1 = self.vote.encode() + t2;
        assert(self.encode() + tail =~= self.header.encode() + t1);
        self.header.lemma_round_trip(t1);
        self.vote.lemma_round_trip(t2);
        lemma_parse_u64_le(self.timestamp, t3);
        self.validation_result.lemma_round_trip(t4);
        self.sign_info.lemma_round_trip(tail);
    }
}

impl Ratification {
    pub fn write(&self, w: &mut Vec<u8>)
        ensures
            final(w)@ == old(w)@ + self@.encode(),
    {
        self.header.write(w);
        self.vote.write(w);
        write_u64_le(w, self.timestamp);
        self.validation_result.write(w);
        self.sign_info.write(w);
        assert(w@ =~= old(w)@ + self@.encode());
    }

    pub fn read(r: &mut Reader) -> (res: Result<Ratification, DecodeError>)
        ensures
            match res {
                Ok(v) => RatificationView::parse(old(r).remaining()) == Ok::<
                    (RatificationView, Seq<u8>),
                    DecodeError,
                >((v@, final(r).remaining())),
                Err(e) => RatificationView::parse(old(r).remaining()) == Err::<
                    (RatificationView, Seq<u8>),
                    DecodeError,
                >(e),
            },
    {
        let header = match ConsensusHeader::read(r) {
            Ok(v) => v,
            Err(e) => return Err(e),
        };
        let vote = match Vote::read(r) {
            Ok(v) => v,
            Err(e) => return Err(e),
        };
        let timestamp = match r.read_u64_le() {
            Ok(v) => v,
            Err(e) => return Err(e),
        };
        let validation_result = match ValidationResult::read(r) {
            Ok(v) => v,
            Err(e) => return Err(e),
        };
        let sign_info = match SignInfo::read(r) {
            Ok(v) => v,
            Err(e) => return Err(e),
        };
        Ok(Ratification { header, vote, sign_info, timestamp, validation_result })
    }
}

impl CandidateView {
    /// A candidate is its block.
    pub open spec fn encode(self) -> Seq<u8> {
        self.candidate.encode()
    }

    pub open spec fn parse(s: Seq<u8>) -> Parsed<CandidateView> {
        match BlockView::parse(s) {
            Err(e) => Err(e),
            Ok((candidate, rest)) => Ok((CandidateView { candidate }, rest)),
        }
    }

    /// Parsing an encoding gives the candidate back, provided the hash of its
    /// block is not left at zero.
    pub proof fn lemma_round_trip(self, tail: Seq<u8>)
        requires
            self.candidate.wf(),
            self.candidate.header.hash != crate::encoding::block::zero_hash(),
        ensures
            Self::parse(self.encode() + tail) == Ok::<(CandidateView, Seq<u8>), DecodeError>(
                (self, tail),
            ),
    {
        self.candidate.lemma_round_trip(tail);
    }
}

impl Candidate {
    /// Fails, writing nothing, when the block cannot be written.
    pub fn write(&self, w: &mut Vec<u8>) -> (res: Result<(), EncodeError>)
        ensures
            res is Ok <==> self@.candidate.encodable(),
            res is Ok ==> final(w)@ == old(w)@ + self@.encode(),
            res is Err ==> final(w)@ == old(w)@,
    {
        self.candidate.write(w)
    }

    pub fn read(r: &mut Reader) -> (res: Result<Candidate, DecodeError>)
        ensures
            match res {
                Ok(v) => CandidateView::parse(old(r).remaining()) == Ok::<
                    (CandidateView, Seq<u8>),
                    DecodeError,
                >((v@, final(r).remaining())),
                Err(e) => CandidateView::parse(old(r).remaining()) == Err::<
                    (CandidateView, Seq<u8>),
                    DecodeError,
                >(e),
            },
    {
        match Block::read(r) {
            Ok(candidate) => Ok(Candidate { candidate }),
            Err(e) => Err(e),
        }
    }
}

impl QuorumView {
    pub open spec fn wf(self) -> bool {
        self.header.wf() && self.att.wf()
    }

    /// The header, then the attestation.
    pub open spec fn encode(self) -> Seq<u8> {
        self.header.encode() + self.att.encode()
    }

    pub open spec fn parse(s: Seq<u8>) -> Parsed<QuorumView> {
        match ConsensusHeaderView::parse(s) {
            Err(e) => Err(e),
            Ok((header, r1)) => match AttestationView::parse(r1) {
                Err(e) => Err(e),
                Ok((att, r2)) => Ok((QuorumView { header, att }, r2)),
            },
        }
    }

    pub proof fn lemma_round_trip(self, tail: Seq<u8>)
        requires
            self.wf(),
        ensures
            Self::parse(self.encode() + tail) == Ok::<(QuorumView, Seq<u8>), DecodeError>(
                (self, tail),
            ),
    {
        assert(self.encode() + tail =~= self.header.encode() + (self.att.encode() + tail));
        self.header.lemma_round_trip(self.att.encode() + tail);
        self.att.lemma_round_trip(tail);
    }
}

impl Quorum {
    pub fn write(&self, w: &mut Vec<u8>)
        ensures
            final(w)@ == old(w)@ + self@.encode(),
    {
        self.header.write(w);
        self.att.write(w);
        assert(w@ =~= old(w)@ + self@.encode());
    }

    pub fn read(r: &mut Reader) -> (res: Result<Quorum, DecodeError>)
        ensures
            match res {
                Ok(v) => QuorumView::parse(old(r).remaining()) == Ok::<
                    (QuorumView, Seq<u8>),
                    DecodeError,
                >((v@, final(r).remaining())),
                Err(e) => QuorumView::parse(old(r).remaining()) == Err::<
                    (QuorumView, Seq<u8>),
                    DecodeError,
                >(e),
            },
    {
        let header = match ConsensusHeader::read(r) {
            Ok(v) => v,
            Err(e) => return Err(e),
        };
        let att = match Attestation::read(r) {
            Ok(v) => v,
            Err(e) => return Err(e),
        };
        Ok(Quorum { header, att })
    }
}

/// The hashes one after another.
pub open spec fn encode_hashes(l: Seq<Seq<u8>>) -> Seq<u8>
    decreases l.len(),
{
    if l.len() == 0 {
        Seq::empty()
    } else {
        encode_hashes(l.drop_last()) + l.last()
    }
}

/// The first `n` hashes of `s`.
pub open spec fn parse_hashes(s: Seq<u8>, n: nat) -> Parsed<Seq<Seq<u8>>>
    decreases n,
{
    if n == 0 {
        Ok((Seq::empty(), s))
    } else {
        match parse_hashes(s, (n - 1) as nat) {
            Err(e) => Err(e),
            Ok((l, rest)) => match parse_bytes(rest, 32) {
                Err(e) => Err(e),
                Ok((h, rest2)) => Ok((l.push(h), rest2)),
            },
        }
    }
}

pub proof fn lemma_parse_hashes_fails(s: Seq<u8>, i: nat, n: nat)
    requires
        i <= n,
        parse_hashes(s, i) is Err,
    ensures
        parse_hashes(s, n) == parse_hashes(s, i),
    decreases n,
{
    if i < n {
        lemma_parse_hashes_fails(s, i, (n - 1) as nat);
    }
}

pub proof fn lemma_hashes_round_trip(l: Seq<Seq<u8>>, tail: Seq<u8>)
    requires
        forall|i: int| 0 <= i < l.len() ==> (#[trigger] l[i]).len() == 32,
    ensures
        parse_hashes(encode_hashes(l) + tail, l.len()) == Ok::<
            (Seq<Seq<u8>>, Seq<u8>),
            DecodeError,
        >((l, tail)),
    decreases l.len(),
{
    if l.len() == 0 {
        assert(encode_hashes(l) + tail =~= tail);
        assert(l =~= Seq::empty());
    } else {
        let front = l.drop_last();
        let t1 = l.last() + tail;
        assert(encode_hashes(l) + tail =~= encode_hashes(front) + t1);
        lemma_hashes_round_trip(front, t1);
        lemma_parse_bytes(l.last(), tail);
        assert(front.push(l.last()) =~= l);
    }
}

impl GetResourceView {
    /// What can be written: the lengths fit their prefixes.
    pub open spec fn encodable(self) -> bool {
        self.inventory.len() <= u32::MAX && self.requester.len() <= u32::MAX
    }

    pub open spec fn wf(self) -> bool {
        &&& self.encodable()
        &&& forall|i: int| 0 <= i < self.inventory.len() ==> (#[trigger] self.inventory[i]).len()
            == 32
    }

    /// The number of hashes as a little-endian `u32`, the hashes, the
    /// requester behind its `u32` length, the deadline as a little-endian
    /// `u64`, then the hops as a little-endian `u16`.
    pub open spec fn encode(self) -> Seq<u8> {
        spec_u32_to_le_bytes(self.inventory.len() as u32) + encode_hashes(self.inventory)
            + encode_var_bytes(self.requester) + spec_u64_to_le_bytes(self.ttl_as_sec)
            + spec_u16_to_le_bytes(self.hops_limit)
    }

    pub open spec fn parse(s: Seq<u8>) -> Parsed<GetResourceView> {
        match parse_u32_le(s) {
            Err(e) => Err(e),
            Ok((n, r1)) => match parse_hashes(r1, n as nat) {
                Err(e) => Err(e),
                Ok((inventory, r2)) => match parse_var_bytes(r2) {
                    Err(e) => Err(e),
                    Ok((requester, r3)) => match parse_u64_le(r3) {
                        Err(e) => Err(e),
                        Ok((ttl_as_sec, r4)) => if r4.len() < 2 {
                            Err(DecodeError::UnexpectedEof)
                        } else {
                            Ok(
                                (
                                    GetResourceView {
                                        inventory,
                                        requester,
                                        ttl_as_sec,
                                        hops_limit: spec_u16_from_le_bytes(r4.take(2)),
                                    },
                                    r4.skip(2),
                                ),
                            )
                        },
                    },
                },
            },
        }
    }

    pub proof fn lemma_round_trip(self, tail: Seq<u8>)
        requires
            self.wf(),
        ensures
            Self::parse(self.encode() + tail) == Ok::<(GetResourceView, Seq<u8>), DecodeError>(
                (self, tail),
            ),
    {
        lemma_auto_spec_u16_to_from_le_bytes();
        let n = self.inventory.len() as u32;
        let hops = spec_u16_to_le_bytes(self.hops_limit);
        let t4 = hops + tail;
        let t3 = spec_u64_to_le_bytes(self.ttl_as_sec) + t4;
        let t2 = encode_var_bytes(self.requester) + t3;
        let t1 = encode_hashes(self.inventory) + t2;
        assert(self.encode() + tail =~= spec_u32_to_le_bytes(n) + t1);
        lemma_parse_u32_le(n, t1);
        lemma_hashes_round_trip(self.inventory, t2);
        lemma_parse_var_bytes(self.requester, t3);
        lemma_parse_u64_le(self.ttl_as_sec, t4);
        assert(t4.take(2) =~= hops);
        assert(t4.skip(2) =~= tail);
    }
}

pub proof fn lemma_hashes_view_push(l: Seq<crate::ledger::Hash>, h: crate::ledger::Hash)
    ensures
        hashes_view(l.push(h)) == hashes_view(l).push(h@),
{
    assert(hashes_view(l.push(h)) =~= hashes_view(l).push(h@));
}

impl GetResource {
    /// Fails, writing nothing, when a length does not fit its prefix.
    pub fn write(&self, w: &mut Vec<u8>) -> (res: Result<(), EncodeError>)
        ensures
            res is Ok <==> self@.encodable(),
            res is Ok ==> final(w)@ == old(w)@ + self@.encode(),
            res is Err ==> final(w)@ == old(w)@,
    {
        let n = self.inventory.len();
        if n > 0xffff_ffff || self.requester.len() > 0xffff_ffff {
            return Err(EncodeError::TooLong);
        }
        write_u32_le(w, n as u32);
        let ghost all = hashes_view(self.inventory@);
        let ghost prefix = w@;
        let mut i: usize = 0;
        assert(encode_hashes(all.take(0)) =~= Seq::<u8>::empty());
        while i < n
            invariant
                i <= n,
                n == self.inventory@.len(),
                all == hashes_view(self.inventory@),
                w@ == prefix + encode_hashes(all.take(i as int)),
            decreases n - i,
        {
            write_bytes(w, self.inventory[i].as_slice());
            proof {
                assert(all.take(i + 1).drop_last() =~= all.take(i as int));
                assert(all.take(i + 1).last() == self.inventory@[i as int]@);
            }
            i = i + 1;
        }
        proof {
            assert(all.take(n as int) =~= all);
        }
        let _ = write_var_le_bytes32(w, self.requester.as_slice());
        write_u64_le(w, self.ttl_as_sec);
        let mut hops = u16_to_le_bytes(self.hops_limit);
        w.append(&mut hops);
        assert(w@ =~= old(w)@ + self@.encode());
        Ok(())
    }

    pub fn read(r: &mut Reader) -> (res: Result<GetResource, DecodeError>)
        ensures
            match res {
                Ok(v) => GetResourceView::parse(old(r).remaining()) == Ok::<
                    (GetResourceView, Seq<u8>),
                    DecodeError,
                >((v@, final(r).remaining())),
                Err(e) => GetResourceView::parse(old(r).remaining()) == Err::<
                    (GetResourceView, Seq<u8>),
                    DecodeError,
                >(e),
            },
    {
        let n = match r.read_u32_le() {
            Ok(n) => n,
            Err(e) => return Err(e),
        };
        let ghost body = r.remaining();
        let mut inventory: Vec<crate::ledger::Hash> = Vec::new();
        let mut i: u32 = 0;
        assert(hashes_view(inventory@) =~= Seq::empty());
        while i < n
            invariant
                i <= n,
                parse_u32_le(old(r).remaining()) == Ok::<(u32, Seq<u8>), DecodeError>((n, body)),
                parse_hashes(body, i as nat) == Ok::<(Seq<Seq<u8>>, Seq<u8>), DecodeError>(
                    (hashes_view(inventory@), r.remaining()),
                ),
            decreases n - i,
        {
            let ghost before = inventory@;
            let h = match r.read_bytes::<32>() {
                Ok(h) => h,
                Err(e) => {
                    proof {
                        lemma_parse_hashes_fails(body, (i + 1) as nat, n as nat);
                    }
                    return Err(e);
                },
            };
            inventory.push(h);
            proof {
                lemma_hashes_view_push(before, h);
            }
            i = i + 1;
        }
        let requester = match r.read_var_le_bytes32() {
            Ok(v) => v,
            Err(e) => return Err(e),
        };
        let ttl_as_sec = match r.read_u64_le() {
            Ok(v) => v,
            Err(e) => return Err(e),
        };
        let hops = match r.read_bytes::<2>() {
            Ok(v) => v,
            Err(e) => return Err(e),
        };
        let hops_limit = u16_from_le_bytes(hops.as_slice());
        Ok(GetResource { inventory, requester, ttl_as_sec, hops_limit })
    }
}

impl PayloadView {
    /// What can be written: a candidate whose block can be, a request whose
    /// lengths fit.
    pub open spec fn encodable(self) -> bool {
        match self {
            PayloadView::Candidate(c) => c.candidate.encodable(),
            PayloadView::GetResource(g) => g.encodable(),
            _ => true,
        }
    }

    pub open spec fn encode(self) -> Seq<u8> {
        match self {
            PayloadView::Candidate(c) => c.encode(),
            PayloadView::Validation(v) => v.encode(),
            PayloadView::Ratification(r) => r.encode(),
            PayloadView::Quorum(q) => q.encode(),
            PayloadView::GetResource(g) => g.encode(),
            PayloadView::Empty => Seq::empty(),
        }
    }

    /// The payload that travels under `topic`.
    pub open spec fn parse(topic: Topics, s: Seq<u8>) -> Parsed<PayloadView> {
        match topic {
            Topics::Candidate => match CandidateView::parse(s) {
                Ok((c, rest)) => Ok((PayloadView::Candidate(c), rest)),
                Err(e) => Err(e),
            },
            Topics::Validation => match ValidationView::parse(s) {
                Ok((v, rest)) => Ok((PayloadView::Validation(v), rest)),
                Err(e) => Err(e),
            },
            Topics::Ratification => match RatificationView::parse(s) {
                Ok((r, rest)) => Ok((PayloadView::Ratification(r), rest)),
                Err(e) => Err(e),
            },
            Topics::Quorum => match QuorumView::parse(s) {
                Ok((q, rest)) => Ok((PayloadView::Quorum(q), rest)),
                Err(e) => Err(e),
            },
            Topics::GetResource => match GetResourceView::parse(s) {
                Ok((g, rest)) => Ok((PayloadView::GetResource(g), rest)),
                Err(e) => Err(e),
            },
            Topics::Unknown => Ok((PayloadView::Empty, s)),
        }
    }
}

impl PayloadView {
    /// What holds of the payloads that code can hold and write.
    pub open spec fn wf(self) -> bool {
        match self {
            PayloadView::Candidate(c) => c.candidate.wf() && c.candidate.header.hash
                != crate::encoding::block::zero_hash(),
            PayloadView::Validation(v) => v.wf(),
            PayloadView::Ratification(r) => r.wf(),
            PayloadView::Quorum(q) => q.wf(),
            PayloadView::GetResource(g) => g.wf(),
            PayloadView::Empty => true,
        }
    }

    pub proof fn lemma_round_trip(self, tail: Seq<u8>)
        requires
            self.wf(),
        ensures
            Self::parse(self.topic(), self.encode() + tail) == Ok::<
                (PayloadView, Seq<u8>),
                DecodeError,
            >((self, tail)),
    {
        match self {
            PayloadView::Candidate(c) => c.lemma_round_trip(tail),
            PayloadView::Validation(v) => v.lemma_round_trip(tail),
            PayloadView::Ratification(r) => r.lemma_round_trip(tail),
            PayloadView::Quorum(q) => q.lemma_round_trip(tail),
            PayloadView::GetResource(g) => g.lemma_round_trip(tail),
            PayloadView::Empty => {
                assert(self.encode() + tail =~= tail);
            },
        }
    }
}

/// The place of the topic in a frame.
pub const TOPIC_FIELD_POS: usize = 8;

impl MessageView {
    pub proof fn lemma_frame_round_trip(self, reserved: u64, tail: Seq<u8>)
        requires
            self.header.wf(),
            self.payload.wf(),
        ensures
            Self::parse_frame(self.encode_frame(reserved) + tail) == Ok::<
                ((u64, MessageView), Seq<u8>),
                DecodeError,
            >(((reserved, self), tail)),
    {
        reveal(MessageView::parse_frame);
        let topic = self.payload.topic();
        let t3 = self.payload.encode() + tail;
        let t2 = self.header.encode() + t3;
        let t1 = seq![topic.spec_to_u8()] + t2;
        let s = self.encode_frame(reserved) + tail;
        assert(s =~= spec_u64_to_le_bytes(reserved) + t1);
        assert(parse_u64_le(s) == Ok::<(u64, Seq<u8>), DecodeError>((reserved, t1))) by {
            lemma_parse_u64_le(reserved, t1);
        }
        assert(parse_u8(t1) == Ok::<(u8, Seq<u8>), DecodeError>((topic.spec_to_u8(), t2))) by {
            lemma_parse_u8(topic.spec_to_u8(), t2);
        }
        assert(Topics::spec_from_u8(topic.spec_to_u8()) == Some(topic));
        assert(ConsensusHeaderView::parse(t2) == Ok::<
            (ConsensusHeaderView, Seq<u8>),
            DecodeError,
        >((self.header, t3))) by {
            self.header.lemma_round_trip(t3);
        }
        assert(PayloadView::parse(topic, t3) == Ok::<(PayloadView, Seq<u8>), DecodeError>(
            (self.payload, tail),
        )) by {
            self.payload.lemma_round_trip(tail);
        }
    }

    /// A frame: eight bytes that the sender is free to choose, little
    /// endian, the topic, the header of the message, then its payload.
    pub open spec fn encode_frame(self, reserved: u64) -> Seq<u8> {
        spec_u64_to_le_bytes(reserved) + seq![self.payload.topic().spec_to_u8()]
            + self.header.encode() + self.payload.encode()
    }

    /// The reserved bytes and the message of a frame. A topic byte that
    /// stands for no topic is malformed.
    #[verifier::opaque]
    pub open spec fn parse_frame(s: Seq<u8>) -> Parsed<(u64, MessageView)> {
        match parse_u64_le(s) {
            Err(e) => Err(e),
            Ok((reserved, r1)) => match parse_u8(r1) {
                Err(e) => Err(e),
                Ok((b, r2)) => match Topics::spec_from_u8(b) {
                    None => Err(DecodeError::InvalidData),
                    Some(topic) => match ConsensusHeaderView::parse(r2) {
                        Err(e) => Err(e),
                        Ok((header, r3)) => match PayloadView::parse(topic, r3) {
                            Err(e) => Err(e),
                            Ok((payload, r4)) => Ok(
                                ((reserved, MessageView { header, payload }), r4),
                            ),
                        },
                    },
                },
            },
        }
    }
}

impl Message {
    /// Writes the frame of the message. Fails, writing nothing, when the
    /// message carries a block that cannot be written.
    pub fn encode_frame(&self, reserved: u64) -> (res: Result<Vec<u8>, EncodeError>)
        ensures
            res is Ok <==> self@.payload.encodable(),
            res matches Ok(bytes) ==> bytes@ == self@.encode_frame(reserved),
    {
        let mut w: Vec<u8> = Vec::new();
        write_u64_le(&mut w, reserved);
        write_u8(&mut w, self.topic().to_u8());
        self.header.write(&mut w);
        match &self.payload {
            Payload::Candidate(c) => match c.write(&mut w) {
                Err(e) => return Err(e),
                Ok(()) => {},
            },
            Payload::Validation(v) => v.write(&mut w),
            Payload::Ratification(r) => r.write(&mut w),
            Payload::Quorum(q) => q.write(&mut w),
            Payload::GetResource(g) => match g.write(&mut w) {
                Err(e) => return Err(e),
                Ok(()) => {},
            },
            Payload::Empty => {},
        }
        assert(w@ =~= self@.encode_frame(reserved));
        Ok(w)
    }

    /// Reads a frame: the reserved bytes and the message, which comes
    /// without what the transport knows of it.
    pub fn decode_frame(r: &mut Reader) -> (res: Result<(u64, Message), DecodeError>)
        ensures
            match res {
                Ok((reserved, msg)) => MessageView::parse_frame(old(r).remaining()) == Ok::<
                    ((u64, MessageView), Seq<u8>),
                    DecodeError,
                >(((reserved, msg@), final(r).remaining())) && msg.metadata.is_none(),
                Err(e) => MessageView::parse_frame(old(r).remaining()) == Err::<
                    ((u64, MessageView), Seq<u8>),
                    DecodeError,
                >(e),
            },
    {
        proof {
            reveal(MessageView::parse_frame);
        }
        let reserved = match r.read_u64_le() {
            Ok(v) => v,
            Err(e) => return Err(e),
        };
        let b = match r.read_u8() {
            Ok(v) => v,
            Err(e) => return Err(e),
        };
        let topic = match Topics::from_u8(b) {
            Some(t) => t,
            None => return Err(DecodeError::InvalidData),
        };
        let header = match ConsensusHeader::read(r) {
            Ok(v) => v,
            Err(e) => return Err(e),
        };
        let payload = match topic {
            Topics::Candidate => match Candidate::read(r) {
                Ok(c) => Payload::Candidate(c),
                Err(e) => return Err(e),
            },
            Topics::Validation => match Validation::read(r) {
                Ok(v) => Payload::Validation(v),
                Err(e) => return Err(e),
            },
            Topics::Ratification => match Ratification::read(r) {
                Ok(v) => Payload::Ratification(v),
                Err(e) => return Err(e),
            },
            Topics::Quorum => match Quorum::read(r) {
                Ok(q) => Payload::Quorum(q),
                Err(e) => return Err(e),
            },
            Topics::GetResource => match GetResource::read(r) {
                Ok(g) => Payload::GetResource(g),
                Err(e) => return Err(e),
            },
            Topics::Unknown => Payload::Empty,
        };
        Ok((reserved, Message { header, payload, metadata: None }))
    }
}

} // verus!
