//! Headers, transactions and blocks on the wire.

use vstd::prelude::*;
use vstd::bytes::*;
use vstd::slice::*;
use vstd::utf8::*;
use vstd::string::*;
use crate::codec::{
    encode_var_bytes, lemma_parse_bytes, lemma_parse_u32_le, lemma_parse_u64_le,
    lemma_parse_var_bytes, parse_bytes, parse_u32_le, parse_u64_le, parse_var_bytes,
    write_bytes, write_u32_le, write_u64_le, write_u8, write_var_le_bytes32, DecodeError,
    EncodeError, Parsed, Reader,
};
use crate::crypto::{sha3_256, sha3_256_digest};
use crate::encoding::attestation::is_bytes;
use crate::ledger::{
    transactions_view, Attestation, AttestationView, Block, BlockView, EconomicMode, Header,
    HeaderView, IterationsInfo, IterationsInfoView, PublicKeyBytes, Seed, SpentTransaction,
    SpentTransactionView, Transaction, TransactionView,
};

verus! {

/// Copies `N` bytes of `s`, starting at `at`, into an array.
pub fn array_from_slice<const N: usize>(s: &[u8], at: usize) -> (out: [u8; N])
    requires
        at + N <= s@.len(),
    ensures
        out@ == s@.subrange(at as int, at + N),
{
    let len = s.len();
    let mut out = [0u8; N];
    let mut i: usize = 0;
    while i < N
        invariant
            i <= N,
            at + N <= len,
            len == s@.len(),
            forall|j: int| 0 <= j < i ==> out@[j] == s@[at + j],
        decreases N - i,
    {
        out[i] = s[at + i];
        i = i + 1;
    }
    assert(out@ =~= s@.subrange(at as int, at + N));
    out
}

/// The number of bytes that the fixed-size fields of a header take.
pub const HEADER_FIXED_LEN: usize = 298;

impl HeaderView {
    pub open spec fn wf(self) -> bool {
        &&& is_bytes(self.prev_block_hash, 32)
        &&& is_bytes(self.seed, 48)
        &&& is_bytes(self.state_hash, 32)
        &&& is_bytes(self.event_hash, 32)
        &&& is_bytes(self.generator_bls_pubkey, 96)
        &&& is_bytes(self.txroot, 32)
        &&& is_bytes(self.hash, 32)
        &&& self.prev_block_cert.wf()
        &&& self.failed_iterations.wf()
        &&& self.att.wf()
    }

    /// The fields of fixed size, in the order in which they are hashed.
    pub open spec fn encode_fixed(self) -> Seq<u8> {
        seq![self.version] + spec_u64_to_le_bytes(self.height) + spec_u64_to_le_bytes(
            self.timestamp,
        ) + self.prev_block_hash + self.seed + self.state_hash + self.event_hash
            + self.generator_bls_pubkey + self.txroot + spec_u64_to_le_bytes(self.gas_limit)
            + seq![self.iteration]
    }

    /// Everything that the block hash covers.
    pub open spec fn encode_hashable(self) -> Seq<u8> {
        self.encode_fixed() + self.prev_block_cert.encode() + self.failed_iterations.encode()
    }

    /// The hashable part, then the attestation of the block, then its hash.
    pub open spec fn encode(self) -> Seq<u8> {
        self.encode_hashable() + self.att.encode() + self.hash
    }

    /// A header read from the fixed-size fields of `s` and the given rest.
    pub open spec fn of_parts(
        s: Seq<u8>,
        prev_block_cert: AttestationView,
        failed_iterations: IterationsInfoView,
        att: AttestationView,
        hash: Seq<u8>,
    ) -> HeaderView {
        HeaderView {
            version: s[0],
            height: spec_u64_from_le_bytes(s.subrange(1, 9)),
            timestamp: spec_u64_from_le_bytes(s.subrange(9, 17)),
            prev_block_hash: s.subrange(17, 49),
            seed: s.subrange(49, 97),
            state_hash: s.subrange(97, 129),
            event_hash: s.subrange(129, 161),
            generator_bls_pubkey: s.subrange(161, 257),
            txroot: s.subrange(257, 289),
            gas_limit: spec_u64_from_le_bytes(s.subrange(289, 297)),
            iteration: s[297],
            prev_block_cert,
            failed_iterations,
            hash,
            att,
        }
    }

    /// The hashable part of a header: the fixed-size fields, the attestation
    /// of the previous block and the failed iterations. `att` and `hash` of
    /// the result are placeholders taken from the arguments.
    pub open spec fn parse_hashable(s: Seq<u8>, att: AttestationView, hash: Seq<u8>) -> Parsed<
        HeaderView,
    > {
        if s.len() < HEADER_FIXED_LEN {
            Err(DecodeError::UnexpectedEof)
        } else {
            match AttestationView::parse(s.skip(HEADER_FIXED_LEN as int)) {
                Err(e) => Err(e),
                Ok((prev_block_cert, r1)) => match IterationsInfoView::parse(r1) {
                    Err(e) => Err(e),
                    Ok((failed_iterations, r2)) => Ok(
                        (Self::of_parts(s, prev_block_cert, failed_iterations, att, hash), r2),
                    ),
                },
            }
        }
    }

    #[verifier::opaque]
    pub open spec fn parse(s: Seq<u8>) -> Parsed<HeaderView> {
        if s.len() < HEADER_FIXED_LEN {
            Err(DecodeError::UnexpectedEof)
        } else {
            match AttestationView::parse(s.skip(HEADER_FIXED_LEN as int)) {
                Err(e) => Err(e),
                Ok((prev_block_cert, r1)) => match IterationsInfoView::parse(r1) {
                    Err(e) => Err(e),
                    Ok((failed_iterations, r2)) => match AttestationView::parse(r2) {
                        Err(e) => Err(e),
                        Ok((att, r3)) => match parse_bytes(r3, 32) {
                            Err(e) => Err(e),
                            Ok((hash, r4)) => Ok(
                                (
                                    Self::of_parts(
                                        s,
                                        prev_block_cert,
                                        failed_iterations,
                                        att,
                                        hash,
                                    ),
                                    r4,
                                ),
                            ),
                        },
                    },
                },
            }
        }
    }

    proof fn lemma_fixed(self, tail: Seq<u8>)
        requires
            self.wf(),
        ensures
            self.encode_fixed().len() == HEADER_FIXED_LEN,
            (self.encode_fixed() + tail).skip(HEADER_FIXED_LEN as int) == tail,
            Self::of_parts(
                self.encode_fixed() + tail,
                self.prev_block_cert,
                self.failed_iterations,
                self.att,
                self.hash,
            ) == self,
    {
        lemma_auto_spec_u64_to_from_le_bytes();
        let s = self.encode_fixed() + tail;
        assert(s.skip(HEADER_FIXED_LEN as int) =~= tail);
        assert(s.subrange(1, 9) =~= spec_u64_to_le_bytes(self.height));
        assert(s.subrange(9, 17) =~= spec_u64_to_le_bytes(self.timestamp));
        assert(s.subrange(17, 49) =~= self.prev_block_hash);
        assert(s.subrange(49, 97) =~= self.seed);
        assert(s.subrange(97, 129) =~= self.state_hash);
        assert(s.subrange(129, 161) =~= self.event_hash);
        assert(s.subrange(161, 257) =~= self.generator_bls_pubkey);
        assert(s.subrange(257, 289) =~= self.txroot);
        assert(s.subrange(289, 297) =~= spec_u64_to_le_bytes(self.gas_limit));
    }

    pub proof fn lemma_round_trip(self, tail: Seq<u8>)
        requires
            self.wf(),
        ensures
            Self::parse(self.encode() + tail) == Ok::<(HeaderView, Seq<u8>), DecodeError>(
                (self, tail),
            ),
    {
        reveal(HeaderView::parse);
        let t3 = self.hash + tail;
        let t2 = self.att.encode() + t3;
        let t1 = self.failed_iterations.encode() + t2;
        let t0 = self.prev_block_cert.encode() + t1;
        let s = self.encode() + tail;
        assert(s =~= self.encode_fixed() + t0);
        self.lemma_fixed(t0);
        self.prev_block_cert.lemma_round_trip(t1);
        self.failed_iterations.lemma_round_trip(t2);
        self.att.lemma_round_trip(t3);
        lemma_parse_bytes(self.hash, tail);
    }

    pub proof fn lemma_hashable_round_trip(self, tail: Seq<u8>)
        requires
            self.wf(),
        ensures
            Self::parse_hashable(self.encode_hashable() + tail, self.att, self.hash) == Ok::<
                (HeaderView, Seq<u8>),
                DecodeError,
            >((self, tail)),
    {
        let t1 = self.failed_iterations.encode() + tail;
        let t0 = self.prev_block_cert.encode() + t1;
        assert(self.encode_hashable() + tail =~= self.encode_fixed() + t0);
        self.lemma_fixed(t0);
        self.prev_block_cert.lemma_round_trip(t1);
        self.failed_iterations.lemma_round_trip(tail);
    }
}

impl HeaderView {
    /// The hash that the header should carry: the digest of everything that
    /// the hash covers.
    pub open spec fn expected_hash(self) -> Seq<u8> {
        sha3_256(self.encode_hashable())
    }

    /// Whether the header carries the hash that it should.
    pub open spec fn hash_is_valid(self) -> bool {
        self.hash == self.expected_hash()
    }
}

impl Header {
    /// Computes the hash that the header should carry. Fails when there are
    /// more than 255 failed iterations.
    pub fn calculate_hash(&self) -> (res: Result<[u8; 32], EncodeError>)
        ensures
            res is Ok <==> self.failed_iterations.cert_list@.len() <= u8::MAX,
            res matches Ok(h) ==> h@ == self@.expected_hash(),
    {
        let mut buf: Vec<u8> = Vec::new();
        match self.marshal_hashable(&mut buf) {
            Err(e) => return Err(e),
            Ok(()) => {},
        }
        assert(buf@ =~= self@.encode_hashable());
        Ok(sha3_256_digest(buf.as_slice()))
    }

    /// Whether the header carries the hash that it should. A header with
    /// more than 255 failed iterations has no hash.
    pub fn verify_hash(&self) -> (ok: bool)
        ensures
            ok == (self.failed_iterations.cert_list@.len() <= u8::MAX
                && self@.hash_is_valid()),
    {
        match self.calculate_hash() {
            Ok(h) => crate::codec::bytes_eq(h.as_slice(), self.hash.as_slice()),
            Err(_) => false,
        }
    }

    /// Writes the fields that the block hash covers. Fails, writing nothing,
    /// when there are more than 255 failed iterations.
    pub fn marshal_hashable(&self, w: &mut Vec<u8>) -> (res: Result<(), EncodeError>)
        ensures
            res is Ok <==> self.failed_iterations.cert_list@.len() <= u8::MAX,
            res is Ok ==> final(w)@ == old(w)@ + self@.encode_hashable(),
            res is Err ==> final(w)@ == old(w)@,
    {
        if self.failed_iterations.cert_list.len() > 255 {
            return Err(EncodeError::TooLong);
        }
        write_u8(w, self.version);
        write_u64_le(w, self.height);
        write_u64_le(w, self.timestamp);
        write_bytes(w, self.prev_block_hash.as_slice());
        write_bytes(w, self.seed.inner().as_slice());
        write_bytes(w, self.state_hash.as_slice());
        write_bytes(w, self.event_hash.as_slice());
        write_bytes(w, self.generator_bls_pubkey.inner().as_slice());
        write_bytes(w, self.txroot.as_slice());
        write_u64_le(w, self.gas_limit);
        write_u8(w, self.iteration);
        assert(w@ =~= old(w)@ + self@.encode_fixed());
        self.prev_block_cert.write(w);
        let _ = self.failed_iterations.write(w);
        assert(w@ =~= old(w)@ + self@.encode_hashable());
        Ok(())
    }

    /// Reads the fields that the block hash covers. The attestation of the
    /// block and its hash are left at their defaults: no votes, all zero.
    pub fn unmarshal_hashable(r: &mut Reader) -> (res: Result<Header, DecodeError>)
        ensures
            match res {
                Ok(v) => HeaderView::parse_hashable(old(r).remaining(), v.att@, v.hash@) == Ok::<
                    (HeaderView, Seq<u8>),
                    DecodeError,
                >((v@, final(r).remaining())),
                Err(e) => forall|att: AttestationView, hash: Seq<u8>|
                    #[trigger] HeaderView::parse_hashable(old(r).remaining(), att, hash) == Err::<
                        (HeaderView, Seq<u8>),
                        DecodeError,
                    >(e),
            },
    {
        let ghost s = r.remaining();
        let fixed = match r.read_bytes::<298>() {
            Ok(f) => f,
            Err(e) => return Err(e),
        };
        assert(r.remaining() == s.skip(HEADER_FIXED_LEN as int));
        assert(fixed@ == s.take(HEADER_FIXED_LEN as int));
        let prev_block_cert = match Attestation::read(r) {
            Ok(v) => v,
            Err(e) => return Err(e),
        };
        let failed_iterations = match IterationsInfo::read(r) {
            Ok(v) => v,
            Err(e) => return Err(e),
        };
        let f = fixed.as_slice();
        let header = Header {
            version: f[0],
            height: u64_from_le_bytes(slice_subrange(f, 1, 9)),
            timestamp: u64_from_le_bytes(slice_subrange(f, 9, 17)),
            prev_block_hash: array_from_slice::<32>(f, 17),
            seed: Seed(array_from_slice::<48>(f, 49)),
            state_hash: array_from_slice::<32>(f, 97),
            event_hash: array_from_slice::<32>(f, 129),
            generator_bls_pubkey: PublicKeyBytes(array_from_slice::<96>(f, 161)),
            txroot: array_from_slice::<32>(f, 257),
            gas_limit: u64_from_le_bytes(slice_subrange(f, 289, 297)),
            iteration: f[297],
            prev_block_cert,
            failed_iterations,
            hash: [0u8; 32],
            att: Attestation::default(),
        };
        proof {
            let t = s.take(HEADER_FIXED_LEN as int);
            assert(t.subrange(1, 9) =~= s.subrange(1, 9));
            assert(t.subrange(9, 17) =~= s.subrange(9, 17));
            assert(t.subrange(17, 49) =~= s.subrange(17, 49));
            assert(t.subrange(49, 97) =~= s.subrange(49, 97));
            assert(t.subrange(97, 129) =~= s.subrange(97, 129));
            assert(t.subrange(129, 161) =~= s.subrange(129, 161));
            assert(t.subrange(161, 257) =~= s.subrange(161, 257));
            assert(t.subrange(257, 289) =~= s.subrange(257, 289));
            assert(t.subrange(289, 297) =~= s.subrange(289, 297));
        }
        Ok(header)
    }

    /// Fails, writing nothing, when there are more than 255 failed iterations.
    pub fn write(&self, w: &mut Vec<u8>) -> (res: Result<(), EncodeError>)
        ensures
            res is Ok <==> self.failed_iterations.cert_list@.len() <= u8::MAX,
            res is Ok ==> final(w)@ == old(w)@ + self@.encode(),
            res is Err ==> final(w)@ == old(w)@,
    {
        match self.marshal_hashable(w) {
            Err(e) => return Err(e),
            Ok(()) => {},
        }
        self.att.write(w);
        write_bytes(w, self.hash.as_slice());
        assert(w@ =~= old(w)@ + self@.encode());
        Ok(())
    }

    pub fn read(r: &mut Reader) -> (res: Result<Header, DecodeError>)
        ensures
            match res {
                Ok(v) => HeaderView::parse(old(r).remaining()) == Ok::<
                    (HeaderView, Seq<u8>),
                    DecodeError,
                >((v@, final(r).remaining())),
                Err(e) => HeaderView::parse(old(r).remaining()) == Err::<
                    (HeaderView, Seq<u8>),
                    DecodeError,
                >(e),
            },
    {
        proof {
            reveal(HeaderView::parse);
        }
        let ghost s = r.remaining();
        let mut header = match Header::unmarshal_hashable(r) {
            Ok(h) => h,
            Err(e) => {
                assert(HeaderView::parse_hashable(s, arbitrary(), Seq::empty()) is Err);
                return Err(e);
            },
        };
        let ghost h0 = header;
        let att = match Attestation::read(r) {
            Ok(v) => v,
            Err(e) => return Err(e),
        };
        let hash = match r.read_bytes::<32>() {
            Ok(v) => v,
            Err(e) => return Err(e),
        };
        header.att = att;
        header.hash = hash;
        Ok(header)
    }
}

impl TransactionView {
    pub open spec fn wf(self) -> bool {
        self.inner.len() <= u32::MAX
    }

    /// The version and the type as little-endian `u32`, then the payload
    /// behind its `u32` length.
    pub open spec fn encode(self) -> Seq<u8> {
        spec_u32_to_le_bytes(self.version) + spec_u32_to_le_bytes(self.tx_type)
            + encode_var_bytes(self.inner)
    }

    pub open spec fn parse(s: Seq<u8>) -> Parsed<TransactionView> {
        match parse_u32_le(s) {
            Err(e) => Err(e),
            Ok((version, r1)) => match parse_u32_le(r1) {
                Err(e) => Err(e),
                Ok((tx_type, r2)) => match parse_var_bytes(r2) {
                    Err(e) => Err(e),
                    Ok((inner, r3)) => Ok((TransactionView { version, tx_type, inner }, r3)),
                },
            },
        }
    }

    pub proof fn lemma_round_trip(self, tail: Seq<u8>)
        requires
            self.wf(),
        ensures
            Self::parse(self.encode() + tail) == Ok::<(TransactionView, Seq<u8>), DecodeError>(
                (self, tail),
            ),
    {
        let t2 = encode_var_bytes(self.inner) + tail;
        let t1 = spec_u32_to_le_bytes(self.tx_type) + t2;
        assert(self.encode() + tail =~= spec_u32_to_le_bytes(self.version) + t1);
        lemma_parse_u32_le(self.version, t1);
        lemma_parse_u32_le(self.tx_type, t2);
        lemma_parse_var_bytes(self.inner, tail);
    }
}

impl Transaction {
    /// Fails, writing nothing, when the payload is longer than a `u32` can say.
    pub fn write(&self, w: &mut Vec<u8>) -> (res: Result<(), EncodeError>)
        ensures
            res is Ok <==> self@.wf(),
            res is Ok ==> final(w)@ == old(w)@ + self@.encode(),
            res is Err ==> final(w)@ == old(w)@,
    {
        if self.inner.len() > 0xffff_ffff {
            return Err(EncodeError::TooLong);
        }
        write_u32_le(w, self.version);
        write_u32_le(w, self.tx_type);
        let _ = write_var_le_bytes32(w, self.inner.as_slice());
        assert(w@ =~= old(w)@ + self@.encode());
        Ok(())
    }

    pub fn read(r: &mut Reader) -> (res: Result<Transaction, DecodeError>)
        ensures
            match res {
                Ok(v) => TransactionView::parse(old(r).remaining()) == Ok::<
                    (TransactionView, Seq<u8>),
                    DecodeError,
                >((v@, final(r).remaining())),
                Err(e) => TransactionView::parse(old(r).remaining()) == Err::<
                    (TransactionView, Seq<u8>),
                    DecodeError,
                >(e),
            },
    {
        let version = match r.read_u32_le() {
            Ok(v) => v,
            Err(e) => return Err(e),
        };
        let tx_type = match r.read_u32_le() {
            Ok(v) => v,
            Err(e) => return Err(e),
        };
        let inner = match r.read_var_le_bytes32() {
            Ok(v) => v,
            Err(e) => return Err(e),
        };
        Ok(Transaction { version, tx_type, inner })
    }
}

/// The number of bytes an economic mode takes: a tag and a `u64`.
pub const ECO_MODE_LEN: usize = 9;

impl EconomicMode {
    pub open spec fn tag(self) -> u8 {
        match self {
            EconomicMode::Plain => 0,
            EconomicMode::Allowance(_) => 1,
            EconomicMode::Charge(_) => 2,
            EconomicMode::Unknown => 255,
        }
    }

    pub open spec fn amount(self) -> u64 {
        match self {
            EconomicMode::Allowance(v) => v,
            EconomicMode::Charge(v) => v,
            _ => 0,
        }
    }

    /// The tag, then the amount as a little-endian `u64` (zero where the mode
    /// has none).
    pub open spec fn encode(self) -> Seq<u8> {
        seq![self.tag()] + spec_u64_to_le_bytes(self.amount())
    }

    /// Tag 1 is an allowance, 2 a charge, 0 the plain mode; every other tag
    /// is read as unknown. The amount of a plain or unknown mode is ignored.
    pub open spec fn parse(s: Seq<u8>) -> Parsed<EconomicMode> {
        if s.len() < ECO_MODE_LEN {
            Err(DecodeError::UnexpectedEof)
        } else {
            let amount = spec_u64_from_le_bytes(s.subrange(1, 9));
            let mode = if s[0] == 1 {
                EconomicMode::Allowance(amount)
            } else if s[0] == 2 {
                EconomicMode::Charge(amount)
            } else if s[0] == 0 {
                EconomicMode::Plain
            } else {
                EconomicMode::Unknown
            };
            Ok((mode, s.skip(ECO_MODE_LEN as int)))
        }
    }

    pub proof fn lemma_round_trip(self, tail: Seq<u8>)
        ensures
            Self::parse(self.encode() + tail) == Ok::<(EconomicMode, Seq<u8>), DecodeError>(
                (self, tail),
            ),
    {
        lemma_auto_spec_u64_to_from_le_bytes();
        let s = self.encode() + tail;
        assert(s.subrange(1, 9) =~= spec_u64_to_le_bytes(self.amount()));
        assert(s.skip(ECO_MODE_LEN as int) =~= tail);
    }

    pub fn write(&self, w: &mut Vec<u8>)
        ensures
            final(w)@ == old(w)@ + self.encode(),
    {
        match self {
            EconomicMode::Allowance(v) => {
                write_u8(w, 1);
                write_u64_le(w, *v);
            },
            EconomicMode::Charge(v) => {
                write_u8(w, 2);
                write_u64_le(w, *v);
            },
            EconomicMode::Plain => {
                write_u8(w, 0);
                write_u64_le(w, 0);
            },
            EconomicMode::Unknown => {
                write_u8(w, 255);
                write_u64_le(w, 0);
            },
        }
        assert(w@ =~= old(w)@ + self.encode());
    }

    pub fn read(r: &mut Reader) -> (res: Result<EconomicMode, DecodeError>)
        ensures
            match res {
                Ok(v) => EconomicMode::parse(old(r).remaining()) == Ok::<
                    (EconomicMode, Seq<u8>),
                    DecodeError,
                >((v, final(r).remaining())),
                Err(e) => EconomicMode::parse(old(r).remaining()) == Err::<
                    (EconomicMode, Seq<u8>),
                    DecodeError,
                >(e),
            },
    {
        let ghost s = r.remaining();
        let buf = match r.read_bytes::<9>() {
            Ok(b) => b,
            Err(e) => return Err(e),
        };
        let b = buf.as_slice();
        let amount = u64_from_le_bytes(slice_subrange(b, 1, 9));
        proof {
            assert(s.take(9).subrange(1, 9) =~= s.subrange(1, 9));
        }
        let tag = b[0];
        if tag == 1 {
            Ok(EconomicMode::Allowance(amount))
        } else if tag == 2 {
            Ok(EconomicMode::Charge(amount))
        } else if tag == 0 {
            Ok(EconomicMode::Plain)
        } else {
            Ok(EconomicMode::Unknown)
        }
    }
}

/// `String::from_utf8`. Trusted: it accepts exactly the valid UTF-8 byte
/// strings and gives the text that they encode.
#[verifier::external_body]
fn string_from_utf8(bytes: Vec<u8>) -> (res: Option<String>)
    ensures
        res is Some <==> valid_utf8(bytes@),
        res matches Some(s) ==> s@ == decode_utf8(bytes@),
{
    String::from_utf8(bytes).ok()
}

/// The error of a spent transaction on the wire. A present message is its
/// UTF-8 bytes behind their `u32` length. An absent one is a zero length
/// followed by four zero bytes, which a reader does not consume.
pub open spec fn encode_tx_error(err: Option<Seq<char>>) -> Seq<u8> {
    match err {
        Some(e) => encode_var_bytes(encode_utf8(e)),
        None => spec_u32_to_le_bytes(0) + spec_u32_to_le_bytes(0),
    }
}

/// A zero length stands for no error; a longer one for that many bytes of
/// UTF-8 text.
pub open spec fn parse_tx_error(s: Seq<u8>) -> Parsed<Option<Seq<char>>> {
    match parse_u32_le(s) {
        Err(e) => Err(e),
        Ok((len, rest)) => if len == 0 {
            Ok((None, rest))
        } else {
            match parse_bytes(rest, len as nat) {
                Err(e) => Err(e),
                Ok((bytes, rest2)) => if valid_utf8(bytes) {
                    Ok((Some(decode_utf8(bytes)), rest2))
                } else {
                    Err(DecodeError::InvalidData)
                },
            }
        },
    }
}

/// What a reader leaves unread behind the encoding of a spent transaction
/// that is followed by `tail`.
pub open spec fn rest_after_tx_error(err: Option<Seq<char>>, tail: Seq<u8>) -> Seq<u8> {
    match err {
        Some(_) => tail,
        None => spec_u32_to_le_bytes(0) + tail,
    }
}

pub proof fn lemma_utf8_not_empty(chars: Seq<char>)
    requires
        chars.len() > 0,
    ensures
        encode_utf8(chars).len() > 0,
{
    encode_utf8_first_scalar(chars);
    encode_utf8_decode_utf8(chars);
    if encode_utf8(chars).len() == 0 {
        assert(decode_utf8(encode_utf8(chars)).len() == 0);
    }
}

pub proof fn lemma_tx_error_round_trip(err: Option<Seq<char>>, tail: Seq<u8>)
    requires
        err matches Some(e) ==> 0 < e.len() && encode_utf8(e).len() <= u32::MAX,
    ensures
        parse_tx_error(encode_tx_error(err) + tail) == Ok::<
            (Option<Seq<char>>, Seq<u8>),
            DecodeError,
        >((err, rest_after_tx_error(err, tail))),
{
    match err {
        Some(e) => {
            let bytes = encode_utf8(e);
            lemma_utf8_not_empty(e);
            assert(encode_tx_error(err) + tail =~= spec_u32_to_le_bytes(bytes.len() as u32) + (
            bytes + tail));
            lemma_parse_u32_le(bytes.len() as u32, bytes + tail);
            lemma_parse_bytes(bytes, tail);
            encode_utf8_valid_utf8(e);
            encode_utf8_decode_utf8(e);
        },
        None => {
            let z = spec_u32_to_le_bytes(0);
            assert(encode_tx_error(err) + tail =~= z + (z + tail));
            lemma_parse_u32_le(0, z + tail);
        },
    }
}

impl SpentTransactionView {
    /// What can be written: the lengths fit their prefixes.
    pub open spec fn wf(self) -> bool {
        &&& self.inner.wf()
        &&& self.err matches Some(e) ==> encode_utf8(e).len() <= u32::MAX
    }

    /// The transaction, the block height and the gas spent as little-endian
    /// `u64`, the economic mode, then the error.
    pub open spec fn encode(self) -> Seq<u8> {
        self.inner.encode() + spec_u64_to_le_bytes(self.block_height) + spec_u64_to_le_bytes(
            self.gas_spent,
        ) + self.economic_mode.encode() + encode_tx_error(self.err)
    }

    pub open spec fn parse(s: Seq<u8>) -> Parsed<SpentTransactionView> {
        match TransactionView::parse(s) {
            Err(e) => Err(e),
            Ok((inner, r1)) => match parse_u64_le(r1) {
                Err(e) => Err(e),
                Ok((block_height, r2)) => match parse_u64_le(r2) {
                    Err(e) => Err(e),
                    Ok((gas_spent, r3)) => match EconomicMode::parse(r3) {
                        Err(e) => Err(e),
                        Ok((economic_mode, r4)) => match parse_tx_error(r4) {
                            Err(e) => Err(e),
                            Ok((err, r5)) => Ok(
                                (
                                    SpentTransactionView {
                                        inner,
                                        block_height,
                                        gas_spent,
                                        economic_mode,
                                        err,
                                    },
                                    r5,
                                ),
                            ),
                        },
                    },
                },
            },
        }
    }

    /// Parsing an encoding gives the value back, unless its error is present
    /// and empty: that one is read back as absent.
    pub proof fn lemma_round_trip(self, tail: Seq<u8>)
        requires
            self.wf(),
            self.err matches Some(e) ==> e.len() > 0,
        ensures
            Self::parse(self.encode() + tail) == Ok::<
                (SpentTransactionView, Seq<u8>),
                DecodeError,
            >((self, rest_after_tx_error(self.err, tail))),
    {
        let t4 = encode_tx_error(self.err) + tail;
        let t3 = self.economic_mode.encode() + t4;
        let t2 = spec_u64_to_le_bytes(self.gas_spent) + t3;
        let t1 = spec_u64_to_le_bytes(self.block_height) + t2;
        assert(self.encode() + tail =~= self.inner.encode() + t1);
        self.inner.lemma_round_trip(t1);
        lemma_parse_u64_le(self.block_height, t2);
        lemma_parse_u64_le(self.gas_spent, t3);
        self.economic_mode.lemma_round_trip(t4);
        lemma_tx_error_round_trip(self.err, tail);
    }
}

impl SpentTransaction {
    /// Fails, writing nothing, when the payload or the error message is
    /// longer than a `u32` can say.
    pub fn write(&self, w: &mut Vec<u8>) -> (res: Result<(), EncodeError>)
        ensures
            res is Ok <==> self@.wf(),
            res is Ok ==> final(w)@ == old(w)@ + self@.encode(),
            res is Err ==> final(w)@ == old(w)@,
    {
        if let Some(e) = &self.err {
            if e.as_str().as_bytes().len() > 0xffff_ffff {
                return Err(EncodeError::TooLong);
            }
        }
        match self.inner.write(w) {
            Err(e) => return Err(e),
            Ok(()) => {},
        }
        write_u64_le(w, self.block_height);
        write_u64_le(w, self.gas_spent);
        self.economic_mode.write(w);
        match &self.err {
            Some(e) => {
                let _ = write_var_le_bytes32(w, e.as_str().as_bytes());
            },
            None => {
                write_u32_le(w, 0);
                write_u32_le(w, 0);
            },
        }
        assert(w@ =~= old(w)@ + self@.encode());
        Ok(())
    }

    /// An error message that is not valid UTF-8 makes the input malformed.
    pub fn read(r: &mut Reader) -> (res: Result<SpentTransaction, DecodeError>)
        ensures
            match res {
                Ok(v) => SpentTransactionView::parse(old(r).remaining()) == Ok::<
                    (SpentTransactionView, Seq<u8>),
                    DecodeError,
                >((v@, final(r).remaining())),
                Err(e) => SpentTransactionView::parse(old(r).remaining()) == Err::<
                    (SpentTransactionView, Seq<u8>),
                    DecodeError,
                >(e),
            },
    {
        let inner = match Transaction::read(r) {
            Ok(v) => v,
            Err(e) => return Err(e),
        };
        let block_height = match r.read_u64_le() {
            Ok(v) => v,
            Err(e) => return Err(e),
        };
        let gas_spent = match r.read_u64_le() {
            Ok(v) => v,
            Err(e) => return Err(e),
        };
        let economic_mode = match EconomicMode::read(r) {
            Ok(v) => v,
            Err(e) => return Err(e),
        };
        let ghost before_err = r.remaining();
        let bytes = match r.read_var_le_bytes32() {
            Ok(v) => v,
            Err(e) => return Err(e),
        };
        let err = if bytes.len() > 0 {
            match string_from_utf8(bytes) {
                Some(s) => Some(s),
                None => return Err(DecodeError::InvalidData),
            }
        } else {
            proof {
                let rest = parse_u32_le(before_err)->Ok_0.1;
                assert(rest.skip(0) =~= rest);
            }
            None
        };
        Ok(SpentTransaction { inner, block_height, gas_spent, economic_mode, err })
    }
}

/// The transactions one after another.
pub open spec fn encode_transactions(l: Seq<TransactionView>) -> Seq<u8>
    decreases l.len(),
{
    if l.len() == 0 {
        Seq::empty()
    } else {
        encode_transactions(l.drop_last()) + l.last().encode()
    }
}

/// The first `n` transactions of `s`, or the first error met on the way.
pub open spec fn parse_transactions(s: Seq<u8>, n: nat) -> Parsed<Seq<TransactionView>>
    decreases n,
{
    if n == 0 {
        Ok((Seq::empty(), s))
    } else {
        match parse_transactions(s, (n - 1) as nat) {
            Err(e) => Err(e),
            Ok((l, rest)) => match TransactionView::parse(rest) {
                Err(e) => Err(e),
                Ok((x, rest2)) => Ok((l.push(x), rest2)),
            },
        }
    }
}

pub proof fn lemma_parse_transactions_fails(s: Seq<u8>, i: nat, n: nat)
    requires
        i <= n,
        parse_transactions(s, i) is Err,
    ensures
        parse_transactions(s, n) == parse_transactions(s, i),
    decreases n,
{
    if i < n {
        lemma_parse_transactions_fails(s, i, (n - 1) as nat);
    }
}

pub proof fn lemma_transactions_round_trip(l: Seq<TransactionView>, tail: Seq<u8>)
    requires
        forall|i: int| 0 <= i < l.len() ==> (#[trigger] l[i]).wf(),
    ensures
        parse_transactions(encode_transactions(l) + tail, l.len()) == Ok::<
            (Seq<TransactionView>, Seq<u8>),
            DecodeError,
        >((l, tail)),
    decreases l.len(),
{
    if l.len() == 0 {
        assert(encode_transactions(l) + tail =~= tail);
        assert(l =~= Seq::empty());
    } else {
        let front = l.drop_last();
        let t1 = l.last().encode() + tail;
        assert(encode_transactions(l) + tail =~= encode_transactions(front) + t1);
        lemma_transactions_round_trip(front, t1);
        l.last().lemma_round_trip(tail);
        assert(front.push(l.last()) =~= l);
    }
}

pub proof fn lemma_transactions_view_push(l: Seq<Transaction>, t: Transaction)
    ensures
        transactions_view(l.push(t)) == transactions_view(l).push(t@),
{
    assert(transactions_view(l.push(t)) =~= transactions_view(l).push(t@));
}

/// Thirty-two zero bytes: the hash of a header whose hash was not computed.
pub open spec fn zero_hash() -> Seq<u8> {
    Seq::new(32, |i: int| 0u8)
}

/// The header with its hash filled in where it was left at zero.
pub open spec fn with_hash(h: HeaderView) -> HeaderView {
    if h.hash == zero_hash() {
        HeaderView { hash: h.expected_hash(), ..h }
    } else {
        h
    }
}

impl BlockView {
    /// What can be written: the lengths fit their prefixes.
    pub open spec fn encodable(self) -> bool {
        &&& self.header.failed_iterations.cert_list.len() <= u8::MAX
        &&& self.txs.len() <= u32::MAX
        &&& forall|i: int| 0 <= i < self.txs.len() ==> (#[trigger] self.txs[i]).wf()
    }

    pub open spec fn wf(self) -> bool {
        &&& self.header.wf()
        &&& self.encodable()
    }

    /// The header, the number of transactions as a little-endian `u32`, then
    /// the transactions.
    pub open spec fn encode(self) -> Seq<u8> {
        self.header.encode() + spec_u32_to_le_bytes(self.txs.len() as u32) + encode_transactions(
            self.txs,
        )
    }

    /// A block whose header comes with a zero hash gets its hash computed.
    pub open spec fn parse(s: Seq<u8>) -> Parsed<BlockView> {
        match HeaderView::parse(s) {
            Err(e) => Err(e),
            Ok((header, r1)) => match parse_u32_le(r1) {
                Err(e) => Err(e),
                Ok((n, r2)) => match parse_transactions(r2, n as nat) {
                    Err(e) => Err(e),
                    Ok((txs, r3)) => Ok((BlockView { header: with_hash(header), txs }, r3)),
                },
            },
        }
    }

    /// Parsing an encoding gives the block back, unless its hash is zero:
    /// that one is read back with the hash computed.
    pub proof fn lemma_round_trip(self, tail: Seq<u8>)
        requires
            self.wf(),
        ensures
            Self::parse(self.encode() + tail) == Ok::<(BlockView, Seq<u8>), DecodeError>(
                (BlockView { header: with_hash(self.header), txs: self.txs }, tail),
            ),
            self.header.hash != zero_hash() ==> Self::parse(self.encode() + tail) == Ok::<
                (BlockView, Seq<u8>),
                DecodeError,
            >((self, tail)),
    {
        let n = self.txs.len() as u32;
        let t2 = encode_transactions(self.txs) + tail;
        let t1 = spec_u32_to_le_bytes(n) + t2;
        let s = self.encode() + tail;
        assert(s =~= self.header.encode() + t1);
        assert(HeaderView::parse(s) == Ok::<(HeaderView, Seq<u8>), DecodeError>(
            (self.header, t1),
        )) by {
            self.header.lemma_round_trip(t1);
        }
        assert(parse_u32_le(t1) == Ok::<(u32, Seq<u8>), DecodeError>((n, t2))) by {
            lemma_parse_u32_le(n, t2);
        }
        assert(parse_transactions(t2, n as nat) == Ok::<
            (Seq<TransactionView>, Seq<u8>),
            DecodeError,
        >((self.txs, tail))) by {
            lemma_transactions_round_trip(self.txs, tail);
        }
    }
}

impl Block {
    /// A block of the given header and transactions. A header whose hash is
    /// all zero gets the digest of its hashable fields as its hash; for that
    /// the header must have at most 255 failed iterations.
    pub fn new(header: Header, txs: Vec<Transaction>) -> (res: Result<Block, EncodeError>)
        ensures
            res is Err <==> header.hash@ == zero_hash()
                && header.failed_iterations.cert_list@.len() > u8::MAX,
            res matches Ok(b) ==> b@ == (BlockView {
                header: with_hash(header@),
                txs: transactions_view(txs@),
            }),
    {
        let zeros = [0u8; 32];
        assert(zeros@ =~= zero_hash());
        if !crate::codec::bytes_eq(header.hash.as_slice(), zeros.as_slice()) {
            return Ok(Block { header, txs });
        }
        let hash = match header.calculate_hash() {
            Ok(h) => h,
            Err(e) => return Err(e),
        };
        let mut header = header;
        header.hash = hash;
        Ok(Block { header, txs })
    }

    /// Fails, writing nothing, when a count or a length does not fit its
    /// prefix.
    pub fn write(&self, w: &mut Vec<u8>) -> (res: Result<(), EncodeError>)
        ensures
            res is Ok <==> self@.encodable(),
            res is Ok ==> final(w)@ == old(w)@ + self@.encode(),
            res is Err ==> final(w)@ == old(w)@,
    {
        let n = self.txs.len();
        let ghost all = transactions_view(self.txs@);
        if n > 0xffff_ffff {
            return Err(EncodeError::TooLong);
        }
        let mut k: usize = 0;
        while k < n
            invariant
                k <= n,
                n == self.txs@.len(),
                all == transactions_view(self.txs@),
                forall|j: int| 0 <= j < k ==> (#[trigger] all[j]).wf(),
            decreases n - k,
        {
            if self.txs[k].inner.len() > 0xffff_ffff {
                assert(!all[k as int].wf());
                return Err(EncodeError::TooLong);
            }
            k = k + 1;
        }
        match self.header.write(w) {
            Err(e) => return Err(e),
            Ok(()) => {},
        }
        write_u32_le(w, n as u32);
        let ghost prefix = w@;
        let mut i: usize = 0;
        assert(encode_transactions(all.take(0)) =~= Seq::<u8>::empty());
        while i < n
            invariant
                i <= n,
                n == self.txs@.len(),
                all == transactions_view(self.txs@),
                forall|j: int| 0 <= j < n ==> (#[trigger] all[j]).wf(),
                w@ == prefix + encode_transactions(all.take(i as int)),
            decreases n - i,
        {
            let ghost before = w@;
            assert(all[i as int] == self.txs@[i as int]@);
            assert(all[i as int].wf());
            let _ = self.txs[i].write(w);
            proof {
                assert(all.take(i + 1).drop_last() =~= all.take(i as int));
                assert(all.take(i + 1).last() == all[i as int]);
            }
            i = i + 1;
        }
        proof {
            assert(all.take(n as int) =~= all);
            assert(w@ =~= old(w)@ + self@.encode());
        }
        Ok(())
    }

    pub fn read(r: &mut Reader) -> (res: Result<Block, DecodeError>)
        ensures
            match res {
                Ok(v) => BlockView::parse(old(r).remaining()) == Ok::<
                    (BlockView, Seq<u8>),
                    DecodeError,
                >((v@, final(r).remaining())),
                Err(e) => BlockView::parse(old(r).remaining()) == Err::<
                    (BlockView, Seq<u8>),
                    DecodeError,
                >(e),
            },
    {
        let ghost s = r.remaining();
        let header = match Header::read(r) {
            Ok(h) => h,
            Err(e) => return Err(e),
        };
        let ghost r1 = r.remaining();
        let tx_len = match r.read_u32_le() {
            Ok(n) => n,
            Err(e) => return Err(e),
        };
        let ghost body = r.remaining();
        let mut txs: Vec<Transaction> = Vec::new();
        let mut i: u32 = 0;
        assert(transactions_view(txs@) =~= Seq::empty());
        while i < tx_len
            invariant
                i <= tx_len,
                HeaderView::parse(s) == Ok::<(HeaderView, Seq<u8>), DecodeError>((header@, r1)),
                parse_u32_le(r1) == Ok::<(u32, Seq<u8>), DecodeError>((tx_len, body)),
                s == old(r).remaining(),
                parse_transactions(body, i as nat) == Ok::<
                    (Seq<TransactionView>, Seq<u8>),
                    DecodeError,
                >((transactions_view(txs@), r.remaining())),
            decreases tx_len - i,
        {
            let ghost before = txs@;
            let tx = match Transaction::read(r) {
                Ok(t) => t,
                Err(e) => {
                    proof {
                        lemma_parse_transactions_fails(body, (i + 1) as nat, tx_len as nat);
                    }
                    return Err(e);
                },
            };
            txs.push(tx);
            proof {
                lemma_transactions_view_push(before, tx);
            }
            i = i + 1;
        }
        proof {
            // a parsed header has at most 255 failed iterations
            reveal(HeaderView::parse);
            let after_fixed = s.skip(HEADER_FIXED_LEN as int);
            let r_cert = AttestationView::parse(after_fixed)->Ok_0.1;
            let count = crate::codec::parse_u8(r_cert)->Ok_0.0;
            let entries = crate::codec::parse_u8(r_cert)->Ok_0.1;
            crate::encoding::attestation::lemma_parse_iteration_entries_len(entries, count as nat);
        }
        match Block::new(header, txs) {
            Ok(b) => Ok(b),
            Err(_) => Err(DecodeError::InvalidData),
        }
    }
}

} // verus!
