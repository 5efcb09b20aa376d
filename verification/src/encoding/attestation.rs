//! Votes, attestations, labels and the list of failed iterations on the wire.
//!
//! For each type: `encode` gives the bytes of a value, `parse` says what a
//! byte string decodes to, `write` and `read` are their executable forms, and
//! a round-trip lemma states that parsing an encoding gives the value back.

use vstd::prelude::*;
use vstd::bytes::*;
use crate::codec::{
    lemma_parse_bytes, lemma_parse_u64_le, lemma_parse_u8, parse_bytes, parse_u64_le, parse_u8,
    write_bytes, write_u64_le, write_u8, DecodeError, EncodeError, Parsed, Reader,
};
use crate::ledger::{
    Attestation, AttestationView, IterationsInfo, IterationsInfoView, Label, PublicKeyBytes,
    RatificationResult, RatificationResultView, Signature, StepVotes, StepVotesView, Vote,
    VoteView, iteration_entries_view, iteration_entry_view,
};

verus! {

/// A sequence that can be the view of a byte array of length `n`.
pub open spec fn is_bytes(s: Seq<u8>, n: nat) -> bool {
    s.len() == n
}

impl VoteView {
    pub open spec fn wf(self) -> bool {
        match self {
            VoteView::Valid(h) => is_bytes(h, 32),
            VoteView::Invalid(h) => is_bytes(h, 32),
            _ => true,
        }
    }

    /// One tag byte (0 no candidate, 1 valid, 2 invalid, 3 no quorum); a
    /// valid or invalid vote is followed by the 32 bytes of the block hash.
    pub open spec fn encode(self) -> Seq<u8> {
        match self {
            VoteView::NoCandidate => seq![0u8],
            VoteView::Valid(h) => seq![1u8] + h,
            VoteView::Invalid(h) => seq![2u8] + h,
            VoteView::NoQuorum => seq![3u8],
        }
    }

    pub open spec fn parse(s: Seq<u8>) -> Parsed<VoteView> {
        match parse_u8(s) {
            Err(e) => Err(e),
            Ok((tag, rest)) => if tag == 0 {
                Ok((VoteView::NoCandidate, rest))
            } else if tag == 1 {
                match parse_bytes(rest, 32) {
                    Ok((h, rest2)) => Ok((VoteView::Valid(h), rest2)),
                    Err(e) => Err(e),
                }
            } else if tag == 2 {
                match parse_bytes(rest, 32) {
                    Ok((h, rest2)) => Ok((VoteView::Invalid(h), rest2)),
                    Err(e) => Err(e),
                }
            } else if tag == 3 {
                Ok((VoteView::NoQuorum, rest))
            } else {
                Err(DecodeError::InvalidData)
            },
        }
    }

    pub proof fn lemma_round_trip(self, tail: Seq<u8>)
        requires
            self.wf(),
        ensures
            Self::parse(self.encode() + tail) == Ok::<(VoteView, Seq<u8>), DecodeError>(
                (self, tail),
            ),
    {
        match self {
            VoteView::NoCandidate => lemma_parse_u8(0, tail),
            VoteView::NoQuorum => lemma_parse_u8(3, tail),
            VoteView::Valid(h) => {
                assert(self.encode() + tail =~= seq![1u8] + (h + tail));
                lemma_parse_u8(1, h + tail);
                lemma_parse_bytes(h, tail);
            },
            VoteView::Invalid(h) => {
                assert(self.encode() + tail =~= seq![2u8] + (h + tail));
                lemma_parse_u8(2, h + tail);
                lemma_parse_bytes(h, tail);
            },
        }
    }
}

impl Vote {
    pub fn write(&self, w: &mut Vec<u8>)
        ensures
            final(w)@ == old(w)@ + self@.encode(),
    {
        match self {
            Vote::NoCandidate => write_u8(w, 0),
            Vote::Valid(h) => {
                write_u8(w, 1);
                write_bytes(w, h.as_slice());
                assert(w@ =~= old(w)@ + self@.encode());
            },
            Vote::Invalid(h) => {
                write_u8(w, 2);
                write_bytes(w, h.as_slice());
                assert(w@ =~= old(w)@ + self@.encode());
            },
            Vote::NoQuorum => write_u8(w, 3),
        }
    }

    pub fn read(r: &mut Reader) -> (res: Result<Vote, DecodeError>)
        ensures
            match res {
                Ok(v) => VoteView::parse(old(r).remaining()) == Ok::<
                    (VoteView, Seq<u8>),
                    DecodeError,
                >((v@, final(r).remaining())),
                Err(e) => VoteView::parse(old(r).remaining()) == Err::<
                    (VoteView, Seq<u8>),
                    DecodeError,
                >(e),
            },
    {
        let tag = match r.read_u8() {
            Ok(t) => t,
            Err(e) => return Err(e),
        };
        if tag == 0 {
            Ok(Vote::NoCandidate)
        } else if tag == 1 {
            match r.read_bytes::<32>() {
                Ok(h) => Ok(Vote::Valid(h)),
                Err(e) => Err(e),
            }
        } else if tag == 2 {
            match r.read_bytes::<32>() {
                Ok(h) => Ok(Vote::Invalid(h)),
                Err(e) => Err(e),
            }
        } else if tag == 3 {
            Ok(Vote::NoQuorum)
        } else {
            Err(DecodeError::InvalidData)
        }
    }
}

impl StepVotesView {
    pub open spec fn wf(self) -> bool {
        is_bytes(self.aggregate_signature, 48)
    }

    /// The bitset as a little-endian `u64`, then the 48 signature bytes.
    pub open spec fn encode(self) -> Seq<u8> {
        spec_u64_to_le_bytes(self.bitset) + self.aggregate_signature
    }

    pub open spec fn parse(s: Seq<u8>) -> Parsed<StepVotesView> {
        match parse_u64_le(s) {
            Err(e) => Err(e),
            Ok((bitset, rest)) => match parse_bytes(rest, 48) {
                Err(e) => Err(e),
                Ok((sig, rest2)) => Ok(
                    (StepVotesView { bitset, aggregate_signature: sig }, rest2),
                ),
            },
        }
    }

    pub proof fn lemma_round_trip(self, tail: Seq<u8>)
        requires
            self.wf(),
        ensures
            Self::parse(self.encode() + tail) == Ok::<(StepVotesView, Seq<u8>), DecodeError>(
                (self, tail),
            ),
    {
        assert(self.encode() + tail =~= spec_u64_to_le_bytes(self.bitset) + (
        self.aggregate_signature + tail));
        lemma_parse_u64_le(self.bitset, self.aggregate_signature + tail);
        lemma_parse_bytes(self.aggregate_signature, tail);
    }
}

impl StepVotes {
    pub fn write(&self, w: &mut Vec<u8>)
        ensures
            final(w)@ == old(w)@ + self@.encode(),
    {
        write_u64_le(w, self.bitset);
        write_bytes(w, self.aggregate_signature.inner().as_slice());
        assert(w@ =~= old(w)@ + self@.encode());
    }

    pub fn read(r: &mut Reader) -> (res: Result<StepVotes, DecodeError>)
        ensures
            match res {
                Ok(v) => StepVotesView::parse(old(r).remaining()) == Ok::<
                    (StepVotesView, Seq<u8>),
                    DecodeError,
                >((v@, final(r).remaining())),
                Err(e) => StepVotesView::parse(old(r).remaining()) == Err::<
                    (StepVotesView, Seq<u8>),
                    DecodeError,
                >(e),
            },
    {
        let bitset = match r.read_u64_le() {
            Ok(b) => b,
            Err(e) => return Err(e),
        };
        let aggregate_signature = match r.read_bytes::<48>() {
            Ok(s) => s,
            Err(e) => return Err(e),
        };
        Ok(StepVotes { bitset, aggregate_signature: Signature(aggregate_signature) })
    }
}

impl RatificationResultView {
    pub open spec fn wf(self) -> bool {
        match self {
            RatificationResultView::Fail(v) => v.wf(),
            RatificationResultView::Success(v) => v.wf(),
        }
    }

    /// One tag byte (0 fail, 1 success), then the vote.
    pub open spec fn encode(self) -> Seq<u8> {
        match self {
            RatificationResultView::Fail(v) => seq![0u8] + v.encode(),
            RatificationResultView::Success(v) => seq![1u8] + v.encode(),
        }
    }

    pub open spec fn parse(s: Seq<u8>) -> Parsed<RatificationResultView> {
        match parse_u8(s) {
            Err(e) => Err(e),
            Ok((tag, rest)) => if tag == 0 {
                match VoteView::parse(rest) {
                    Ok((v, rest2)) => Ok((RatificationResultView::Fail(v), rest2)),
                    Err(e) => Err(e),
                }
            } else if tag == 1 {
                match VoteView::parse(rest) {
                    Ok((v, rest2)) => Ok((RatificationResultView::Success(v), rest2)),
                    Err(e) => Err(e),
                }
            } else {
                Err(DecodeError::InvalidData)
            },
        }
    }

    pub proof fn lemma_round_trip(self, tail: Seq<u8>)
        requires
            self.wf(),
        ensures
            Self::parse(self.encode() + tail) == Ok::<
                (RatificationResultView, Seq<u8>),
                DecodeError,
            >((self, tail)),
    {
        match self {
            RatificationResultView::Fail(v) => {
                assert(self.encode() + tail =~= seq![0u8] + (v.encode() + tail));
                lemma_parse_u8(0, v.encode() + tail);
                v.lemma_round_trip(tail);
            },
            RatificationResultView::Success(v) => {
                assert(self.encode() + tail =~= seq![1u8] + (v.encode() + tail));
                lemma_parse_u8(1, v.encode() + tail);
                v.lemma_round_trip(tail);
            },
        }
    }
}

impl RatificationResult {
    pub fn write(&self, w: &mut Vec<u8>)
        ensures
            final(w)@ == old(w)@ + self@.encode(),
    {
        match self {
            RatificationResult::Fail(v) => {
                write_u8(w, 0);
                v.write(w);
            },
            RatificationResult::Success(v) => {
                write_u8(w, 1);
                v.write(w);
            },
        }
        assert(w@ =~= old(w)@ + self@.encode());
    }

    pub fn read(r: &mut Reader) -> (res: Result<RatificationResult, DecodeError>)
        ensures
            match res {
                Ok(v) => RatificationResultView::parse(old(r).remaining()) == Ok::<
                    (RatificationResultView, Seq<u8>),
                    DecodeError,
                >((v@, final(r).remaining())),
                Err(e) => RatificationResultView::parse(old(r).remaining()) == Err::<
                    (RatificationResultView, Seq<u8>),
                    DecodeError,
                >(e),
            },
    {
        let tag = match r.read_u8() {
            Ok(t) => t,
            Err(e) => return Err(e),
        };
        if tag == 0 {
            match Vote::read(r) {
                Ok(v) => Ok(RatificationResult::Fail(v)),
                Err(e) => Err(e),
            }
        } else if tag == 1 {
            match Vote::read(r) {
                Ok(v) => Ok(RatificationResult::Success(v)),
                Err(e) => Err(e),
            }
        } else {
            Err(DecodeError::InvalidData)
        }
    }
}

impl AttestationView {
    pub open spec fn wf(self) -> bool {
        self.result.wf() && self.validation.wf() && self.ratification.wf()
    }

    /// The result, then the validation votes, then the ratification votes.
    pub open spec fn encode(self) -> Seq<u8> {
        self.result.encode() + self.validation.encode() + self.ratification.encode()
    }

    pub open spec fn parse(s: Seq<u8>) -> Parsed<AttestationView> {
        match RatificationResultView::parse(s) {
            Err(e) => Err(e),
            Ok((result, r1)) => match StepVotesView::parse(r1) {
                Err(e) => Err(e),
                Ok((validation, r2)) => match StepVotesView::parse(r2) {
                    Err(e) => Err(e),
                    Ok((ratification, r3)) => Ok(
                        (AttestationView { result, validation, ratification }, r3),
                    ),
                },
            },
        }
    }

    pub proof fn lemma_round_trip(self, tail: Seq<u8>)
        requires
            self.wf(),
        ensures
            Self::parse(self.encode() + tail) == Ok::<(AttestationView, Seq<u8>), DecodeError>(
                (self, tail),
            ),
    {
        let t2 = self.ratification.encode() + tail;
        let t1 = self.validation.encode() + t2;
        assert(self.encode() + tail =~= self.result.encode() + t1);
        self.result.lemma_round_trip(t1);
        self.validation.lemma_round_trip(t2);
        self.ratification.lemma_round_trip(tail);
    }
}

impl Attestation {
    pub fn write(&self, w: &mut Vec<u8>)
        ensures
            final(w)@ == old(w)@ + self@.encode(),
    {
        self.result.write(w);
        self.validation.write(w);
        self.ratification.write(w);
        assert(w@ =~= old(w)@ + self@.encode());
    }

    pub fn read(r: &mut Reader) -> (res: Result<Attestation, DecodeError>)
        ensures
            match res {
                Ok(v) => AttestationView::parse(old(r).remaining()) == Ok::<
                    (AttestationView, Seq<u8>),
                    DecodeError,
                >((v@, final(r).remaining())),
                Err(e) => AttestationView::parse(old(r).remaining()) == Err::<
                    (AttestationView, Seq<u8>),
                    DecodeError,
                >(e),
            },
    {
        let result = match RatificationResult::read(r) {
            Ok(v) => v,
            Err(e) => return Err(e),
        };
        let validation = match StepVotes::read(r) {
            Ok(v) => v,
            Err(e) => return Err(e),
        };
        let ratification = match StepVotes::read(r) {
            Ok(v) => v,
            Err(e) => return Err(e),
        };
        Ok(Attestation { result, validation, ratification })
    }
}

impl Label {
    /// The byte that stands for the label on the wire and on disk.
    pub open spec fn tag(self) -> u8 {
        match self {
            Label::Accepted => 0,
            Label::Attested => 1,
            Label::Final => 2,
        }
    }

    pub open spec fn encode(self) -> Seq<u8> {
        seq![self.tag()]
    }

    pub open spec fn of_tag(tag: u8) -> Label
        recommends
            tag <= 2,
    {
        if tag == 0 {
            Label::Accepted
        } else if tag == 1 {
            Label::Attested
        } else {
            Label::Final
        }
    }

    /// Any tag above 2 is malformed.
    pub open spec fn parse(s: Seq<u8>) -> Parsed<Label> {
        match parse_u8(s) {
            Err(e) => Err(e),
            Ok((tag, rest)) => if tag <= 2 {
                Ok((Self::of_tag(tag), rest))
            } else {
                Err(DecodeError::InvalidData)
            },
        }
    }

    pub proof fn lemma_round_trip(self, tail: Seq<u8>)
        ensures
            Self::parse(self.encode() + tail) == Ok::<(Label, Seq<u8>), DecodeError>(
                (self, tail),
            ),
    {
        lemma_parse_u8(self.tag(), tail);
    }

    /// The label that a tag stands for.
    pub fn from(value: u8) -> (l: Label)
        requires
            value <= 2,
        ensures
            l == Self::of_tag(value),
            l.tag() == value,
    {
        if value == 0 {
            Label::Accepted
        } else if value == 1 {
            Label::Attested
        } else {
            Label::Final
        }
    }

    pub fn to_u8(&self) -> (b: u8)
        ensures
            b == self.tag(),
    {
        match self {
            Label::Accepted => 0,
            Label::Attested => 1,
            Label::Final => 2,
        }
    }

    pub fn write(&self, w: &mut Vec<u8>)
        ensures
            final(w)@ == old(w)@ + self.encode(),
    {
        write_u8(w, self.to_u8());
    }

    pub fn read(r: &mut Reader) -> (res: Result<Label, DecodeError>)
        ensures
            match res {
                Ok(v) => Label::parse(old(r).remaining()) == Ok::<(Label, Seq<u8>), DecodeError>(
                    (v, final(r).remaining()),
                ),
                Err(e) => Label::parse(old(r).remaining()) == Err::<(Label, Seq<u8>), DecodeError>(
                    e,
                ),
            },
    {
        let tag = match r.read_u8() {
            Ok(t) => t,
            Err(e) => return Err(e),
        };
        if tag <= 2 {
            Ok(Label::from(tag))
        } else {
            Err(DecodeError::InvalidData)
        }
    }
}

/// One entry of the list of failed iterations, as the parser sees it.
pub type IterationEntryView = Option<(AttestationView, Seq<u8>)>;

pub open spec fn iteration_entry_wf(e: IterationEntryView) -> bool {
    match e {
        None => true,
        Some((c, pk)) => c.wf() && is_bytes(pk, 96),
    }
}

/// A presence byte; a present entry is followed by the attestation and the
/// 96 bytes of the generator's key.
pub open spec fn encode_iteration_entry(e: IterationEntryView) -> Seq<u8> {
    match e {
        None => seq![0u8],
        Some((c, pk)) => seq![1u8] + c.encode() + pk,
    }
}

pub open spec fn parse_iteration_entry(s: Seq<u8>) -> Parsed<IterationEntryView> {
    match parse_u8(s) {
        Err(e) => Err(e),
        Ok((present, rest)) => if present == 0 {
            Ok((None, rest))
        } else if present == 1 {
            match AttestationView::parse(rest) {
                Err(e) => Err(e),
                Ok((c, r1)) => match parse_bytes(r1, 96) {
                    Err(e) => Err(e),
                    Ok((pk, r2)) => Ok((Some((c, pk)), r2)),
                },
            }
        } else {
            Err(DecodeError::InvalidData)
        },
    }
}

pub proof fn lemma_iteration_entry_round_trip(e: IterationEntryView, tail: Seq<u8>)
    requires
        iteration_entry_wf(e),
    ensures
        parse_iteration_entry(encode_iteration_entry(e) + tail) == Ok::<
            (IterationEntryView, Seq<u8>),
            DecodeError,
        >((e, tail)),
{
    match e {
        None => lemma_parse_u8(0, tail),
        Some((c, pk)) => {
            assert(encode_iteration_entry(e) + tail =~= seq![1u8] + (c.encode() + (pk + tail)));
            lemma_parse_u8(1, c.encode() + (pk + tail));
            c.lemma_round_trip(pk + tail);
            lemma_parse_bytes(pk, tail);
        },
    }
}

/// The entries one after another.
pub open spec fn encode_iteration_entries(l: Seq<IterationEntryView>) -> Seq<u8>
    decreases l.len(),
{
    if l.len() == 0 {
        Seq::empty()
    } else {
        encode_iteration_entries(l.drop_last()) + encode_iteration_entry(l.last())
    }
}

/// The first `n` entries of `s`, or the first error met on the way.
pub open spec fn parse_iteration_entries(s: Seq<u8>, n: nat) -> Parsed<Seq<IterationEntryView>>
    decreases n,
{
    if n == 0 {
        Ok((Seq::empty(), s))
    } else {
        match parse_iteration_entries(s, (n - 1) as nat) {
            Err(e) => Err(e),
            Ok((l, rest)) => match parse_iteration_entry(rest) {
                Err(e) => Err(e),
                Ok((x, rest2)) => Ok((l.push(x), rest2)),
            },
        }
    }
}

pub proof fn lemma_parse_iteration_entries_fails(s: Seq<u8>, i: nat, n: nat)
    requires
        i <= n,
        parse_iteration_entries(s, i) is Err,
    ensures
        parse_iteration_entries(s, n) == parse_iteration_entries(s, i),
    decreases n,
{
    if i < n {
        lemma_parse_iteration_entries_fails(s, i, (n - 1) as nat);
    }
}

pub proof fn lemma_parse_iteration_entries_len(s: Seq<u8>, n: nat)
    ensures
        parse_iteration_entries(s, n) matches Ok((l, _)) ==> l.len() == n,
    decreases n,
{
    if n > 0 {
        lemma_parse_iteration_entries_len(s, (n - 1) as nat);
    }
}

pub proof fn lemma_iteration_entries_round_trip(l: Seq<IterationEntryView>, tail: Seq<u8>)
    requires
        forall|i: int| 0 <= i < l.len() ==> iteration_entry_wf(#[trigger] l[i]),
    ensures
        parse_iteration_entries(encode_iteration_entries(l) + tail, l.len()) == Ok::<
            (Seq<IterationEntryView>, Seq<u8>),
            DecodeError,
        >((l, tail)),
    decreases l.len(),
{
    if l.len() == 0 {
        assert(encode_iteration_entries(l) + tail =~= tail);
        assert(l =~= Seq::empty());
    } else {
        let front = l.drop_last();
        let t1 = encode_iteration_entry(l.last()) + tail;
        assert(encode_iteration_entries(l) + tail =~= encode_iteration_entries(front) + t1);
        lemma_iteration_entries_round_trip(front, t1);
        lemma_iteration_entry_round_trip(l.last(), tail);
        assert(front.push(l.last()) =~= l);
    }
}

impl IterationsInfoView {
    pub open spec fn wf(self) -> bool {
        &&& self.cert_list.len() <= u8::MAX
        &&& forall|i: int|
            0 <= i < self.cert_list.len() ==> iteration_entry_wf(#[trigger] self.cert_list[i])
    }

    /// The number of entries as one byte, then the entries.
    pub open spec fn encode(self) -> Seq<u8> {
        seq![self.cert_list.len() as u8] + encode_iteration_entries(self.cert_list)
    }

    pub open spec fn parse(s: Seq<u8>) -> Parsed<IterationsInfoView> {
        match parse_u8(s) {
            Err(e) => Err(e),
            Ok((count, rest)) => match parse_iteration_entries(rest, count as nat) {
                Err(e) => Err(e),
                Ok((l, rest2)) => Ok((IterationsInfoView { cert_list: l }, rest2)),
            },
        }
    }

    pub proof fn lemma_round_trip(self, tail: Seq<u8>)
        requires
            self.wf(),
        ensures
            Self::parse(self.encode() + tail) == Ok::<(IterationsInfoView, Seq<u8>), DecodeError>(
                (self, tail),
            ),
    {
        let count = self.cert_list.len() as u8;
        let body = encode_iteration_entries(self.cert_list);
        assert(self.encode() + tail =~= seq![count] + (body + tail));
        lemma_parse_u8(count, body + tail);
        lemma_iteration_entries_round_trip(self.cert_list, tail);
    }
}

pub proof fn lemma_iterations_view_push(
    l: Seq<Option<(Attestation, PublicKeyBytes)>>,
    e: Option<(Attestation, PublicKeyBytes)>,
)
    ensures
        iteration_entries_view(l.push(e)) == iteration_entries_view(l).push(
            iteration_entry_view(e),
        ),
{
    assert(iteration_entries_view(l.push(e)) =~= iteration_entries_view(l).push(
        iteration_entry_view(e),
    ));
}

impl IterationsInfo {
    /// Fails, writing nothing, when there are more than 255 entries.
    pub fn write(&self, w: &mut Vec<u8>) -> (res: Result<(), EncodeError>)
        ensures
            res is Ok <==> self.cert_list@.len() <= u8::MAX,
            res is Ok ==> final(w)@ == old(w)@ + self@.encode(),
            res is Err ==> final(w)@ == old(w)@,
    {
        let n = self.cert_list.len();
        if n > 255 {
            return Err(EncodeError::TooLong);
        }
        write_u8(w, n as u8);
        let ghost all = iteration_entries_view(self.cert_list@);
        let mut i: usize = 0;
        while i < n
            invariant
                i <= n,
                n == self.cert_list@.len(),
                all == iteration_entries_view(self.cert_list@),
                w@ == old(w)@ + seq![n as u8] + encode_iteration_entries(all.take(i as int)),
            decreases n - i,
        {
            let ghost before = w@;
            match &self.cert_list[i] {
                None => write_u8(w, 0),
                Some((c, pk)) => {
                    write_u8(w, 1);
                    c.write(w);
                    write_bytes(w, pk.inner().as_slice());
                },
            }
            proof {
                let e = all[i as int];
                assert(e == iteration_entry_view(self.cert_list@[i as int]));
                assert(w@ =~= before + encode_iteration_entry(e));
                assert(all.take(i + 1).drop_last() =~= all.take(i as int));
                assert(all.take(i + 1).last() == e);
            }
            i = i + 1;
        }
        proof {
            assert(all.take(n as int) =~= all);
            assert(w@ =~= old(w)@ + self@.encode());
        }
        Ok(())
    }

    pub fn read(r: &mut Reader) -> (res: Result<IterationsInfo, DecodeError>)
        ensures
            match res {
                Ok(v) => IterationsInfoView::parse(old(r).remaining()) == Ok::<
                    (IterationsInfoView, Seq<u8>),
                    DecodeError,
                >((v@, final(r).remaining())),
                Err(e) => IterationsInfoView::parse(old(r).remaining()) == Err::<
                    (IterationsInfoView, Seq<u8>),
                    DecodeError,
                >(e),
            },
    {
        let count = match r.read_u8() {
            Ok(c) => c,
            Err(e) => return Err(e),
        };
        let ghost body = r.remaining();
        let mut cert_list: Vec<Option<(Attestation, PublicKeyBytes)>> = Vec::new();
        let mut i: u8 = 0;
        assert(iteration_entries_view(cert_list@) =~= Seq::empty());
        while i < count
            invariant
                i <= count,
                parse_u8(old(r).remaining()) == Ok::<(u8, Seq<u8>), DecodeError>((count, body)),
                parse_iteration_entries(body, i as nat) == Ok::<
                    (Seq<IterationEntryView>, Seq<u8>),
                    DecodeError,
                >((iteration_entries_view(cert_list@), r.remaining())),
            decreases count - i,
        {
            let ghost before = cert_list@;
            let present = match r.read_u8() {
                Ok(p) => p,
                Err(e) => {
                    proof {
                        lemma_parse_iteration_entries_fails(body, (i + 1) as nat, count as nat);
                    }
                    return Err(e);
                },
            };
            let entry = if present == 0 {
                None
            } else if present == 1 {
                let cert = match Attestation::read(r) {
                    Ok(c) => c,
                    Err(e) => {
                        proof {
                            lemma_parse_iteration_entries_fails(
                                body,
                                (i + 1) as nat,
                                count as nat,
                            );
                        }
                        return Err(e);
                    },
                };
                let pk = match r.read_bytes::<96>() {
                    Ok(pk) => pk,
                    Err(e) => {
                        proof {
                            lemma_parse_iteration_entries_fails(
                                body,
                                (i + 1) as nat,
                                count as nat,
                            );
                        }
                        return Err(e);
                    },
                };
                Some((cert, PublicKeyBytes(pk)))
            } else {
                proof {
                    lemma_parse_iteration_entries_fails(body, (i + 1) as nat, count as nat);
                }
                return Err(DecodeError::InvalidData);
            };
            cert_list.push(entry);
            proof {
                lemma_iterations_view_push(before, entry);
            }
            i = i + 1;
        }
        Ok(IterationsInfo { cert_list })
    }
}

} // verus!
