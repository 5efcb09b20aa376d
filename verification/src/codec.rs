//! Little-endian, length-prefixed byte encoding primitives.
//!
//! Every wire type of the crate is described twice: by a spec function that
//! gives its encoding as a `Seq<u8>`, and by a spec parser that says which
//! byte strings decode to which value and what is left over. The executable
//! writers and readers are proved against these.

use vstd::prelude::*;
use vstd::bytes::*;
use vstd::slice::*;

verus! {

/// Why a byte string could not be decoded.
#[derive(Clone, Copy, Debug, PartialEq, Eq, Structural)]
pub enum DecodeError {
    /// The input ended before the value was complete.
    UnexpectedEof,
    /// A tag or a payload holds a value that the format does not allow.
    InvalidData,
}

/// Why a value has no encoding.
#[derive(Clone, Copy, Debug, PartialEq, Eq, Structural)]
pub enum EncodeError {
    /// A length does not fit the width of its length prefix.
    TooLong,
}

/// The outcome of a spec parser: the decoded value and the unread rest.
pub type Parsed<T> = Result<(T, Seq<u8>), DecodeError>;

pub open spec fn parse_u8(s: Seq<u8>) -> Parsed<u8> {
    if s.len() < 1 {
        Err(DecodeError::UnexpectedEof)
    } else {
        Ok((s[0], s.skip(1)))
    }
}

pub open spec fn parse_u32_le(s: Seq<u8>) -> Parsed<u32> {
    if s.len() < 4 {
        Err(DecodeError::UnexpectedEof)
    } else {
        Ok((spec_u32_from_le_bytes(s.take(4)), s.skip(4)))
    }
}

pub open spec fn parse_u64_le(s: Seq<u8>) -> Parsed<u64> {
    if s.len() < 8 {
        Err(DecodeError::UnexpectedEof)
    } else {
        Ok((spec_u64_from_le_bytes(s.take(8)), s.skip(8)))
    }
}

/// Exactly `n` raw bytes.
pub open spec fn parse_bytes(s: Seq<u8>, n: nat) -> Parsed<Seq<u8>> {
    if s.len() < n {
        Err(DecodeError::UnexpectedEof)
    } else {
        Ok((s.take(n as int), s.skip(n as int)))
    }
}

/// A `u32` little-endian length followed by that many bytes.
pub open spec fn encode_var_bytes(b: Seq<u8>) -> Seq<u8>
    recommends
        b.len() <= u32::MAX,
{
    spec_u32_to_le_bytes(b.len() as u32) + b
}

pub open spec fn parse_var_bytes(s: Seq<u8>) -> Parsed<Seq<u8>> {
    match parse_u32_le(s) {
        Ok((len, rest)) => parse_bytes(rest, len as nat),
        Err(e) => Err(e),
    }
}

pub proof fn lemma_parse_u8(b: u8, tail: Seq<u8>)
    ensures
        parse_u8(seq![b] + tail) == Ok::<(u8, Seq<u8>), DecodeError>((b, tail)),
{
    assert((seq![b] + tail).skip(1) =~= tail);
}

pub proof fn lemma_parse_u32_le(x: u32, tail: Seq<u8>)
    ensures
        spec_u32_to_le_bytes(x).len() == 4,
        parse_u32_le(spec_u32_to_le_bytes(x) + tail) == Ok::<(u32, Seq<u8>), DecodeError>(
            (x, tail),
        ),
{
    lemma_auto_spec_u32_to_from_le_bytes();
    let e = spec_u32_to_le_bytes(x);
    assert((e + tail).take(4) =~= e);
    assert((e + tail).skip(4) =~= tail);
}

pub proof fn lemma_parse_u64_le(x: u64, tail: Seq<u8>)
    ensures
        spec_u64_to_le_bytes(x).len() == 8,
        parse_u64_le(spec_u64_to_le_bytes(x) + tail) == Ok::<(u64, Seq<u8>), DecodeError>(
            (x, tail),
        ),
{
    lemma_auto_spec_u64_to_from_le_bytes();
    let e = spec_u64_to_le_bytes(x);
    assert((e + tail).take(8) =~= e);
    assert((e + tail).skip(8) =~= tail);
}

pub proof fn lemma_parse_bytes(b: Seq<u8>, tail: Seq<u8>)
    ensures
        parse_bytes(b + tail, b.len()) == Ok::<(Seq<u8>, Seq<u8>), DecodeError>((b, tail)),
{
    assert((b + tail).take(b.len() as int) =~= b);
    assert((b + tail).skip(b.len() as int) =~= tail);
}

pub proof fn lemma_parse_var_bytes(b: Seq<u8>, tail: Seq<u8>)
    requires
        b.len() <= u32::MAX,
    ensures
        parse_var_bytes(encode_var_bytes(b) + tail) == Ok::<(Seq<u8>, Seq<u8>), DecodeError>(
            (b, tail),
        ),
{
    let len = b.len() as u32;
    assert(encode_var_bytes(b) + tail =~= spec_u32_to_le_bytes(len) + (b + tail));
    lemma_parse_u32_le(len, b + tail);
    lemma_parse_bytes(b, tail);
}

/// A cursor over a byte slice. `remaining()` is what has not been read yet.
pub struct Reader<'a> {
    buf: &'a [u8],
    pos: usize,
}

impl<'a> Reader<'a> {
    #[verifier::type_invariant]
    spec fn inv(&self) -> bool {
        self.pos <= self.buf@.len()
    }

    pub closed spec fn remaining(&self) -> Seq<u8> {
        self.buf@.skip(self.pos as int)
    }

    pub fn new(buf: &'a [u8]) -> (r: Self)
        ensures
            r.remaining() == buf@,
    {
        Reader { buf, pos: 0 }
    }

    /// Number of bytes that have not been read yet.
    pub fn remaining_len(&self) -> (n: usize)
        ensures
            n == self.remaining().len(),
    {
        proof {
            use_type_invariant(self);
        }
        self.buf.len() - self.pos
    }

    /// Takes the next `n` bytes as a slice of the underlying buffer.
    fn take_slice(&mut self, n: usize) -> (res: Result<&'a [u8], DecodeError>)
        ensures
            match res {
                Ok(b) => parse_bytes(old(self).remaining(), n as nat) == Ok::<
                    (Seq<u8>, Seq<u8>),
                    DecodeError,
                >((b@, final(self).remaining())),
                Err(e) => e == DecodeError::UnexpectedEof && old(self).remaining().len() < n
                    && final(self).remaining() == old(self).remaining(),
            },
    {
        proof {
            use_type_invariant(&*self);
        }
        if self.buf.len() - self.pos < n {
            return Err(DecodeError::UnexpectedEof);
        }
        let out = slice_subrange(self.buf, self.pos, self.pos + n);
        proof {
            let rem = self.buf@.skip(self.pos as int);
            assert(out@ =~= rem.take(n as int));
            assert(self.buf@.skip(self.pos + n) =~= rem.skip(n as int));
        }
        self.pos = self.pos + n;
        Ok(out)
    }

    pub fn read_u8(&mut self) -> (res: Result<u8, DecodeError>)
        ensures
            match res {
                Ok(v) => parse_u8(old(self).remaining()) == Ok::<(u8, Seq<u8>), DecodeError>(
                    (v, final(self).remaining()),
                ),
                Err(e) => parse_u8(old(self).remaining()) == Err::<(u8, Seq<u8>), DecodeError>(e),
            },
    {
        match self.take_slice(1) {
            Ok(b) => Ok(b[0]),
            Err(e) => Err(e),
        }
    }

    pub fn read_u32_le(&mut self) -> (res: Result<u32, DecodeError>)
        ensures
            match res {
                Ok(v) => parse_u32_le(old(self).remaining()) == Ok::<(u32, Seq<u8>), DecodeError>(
                    (v, final(self).remaining()),
                ),
                Err(e) => parse_u32_le(old(self).remaining()) == Err::<(u32, Seq<u8>), DecodeError>(
                    e,
                ),
            },
    {
        match self.take_slice(4) {
            Ok(b) => Ok(u32_from_le_bytes(b)),
            Err(e) => Err(e),
        }
    }

    pub fn read_u64_le(&mut self) -> (res: Result<u64, DecodeError>)
        ensures
            match res {
                Ok(v) => parse_u64_le(old(self).remaining()) == Ok::<(u64, Seq<u8>), DecodeError>(
                    (v, final(self).remaining()),
                ),
                Err(e) => parse_u64_le(old(self).remaining()) == Err::<(u64, Seq<u8>), DecodeError>(
                    e,
                ),
            },
    {
        match self.take_slice(8) {
            Ok(b) => Ok(u64_from_le_bytes(b)),
            Err(e) => Err(e),
        }
    }

    /// Reads exactly `N` bytes into an array.
    pub fn read_bytes<const N: usize>(&mut self) -> (res: Result<[u8; N], DecodeError>)
        ensures
            match res {
                Ok(v) => parse_bytes(old(self).remaining(), N as nat) == Ok::<
                    (Seq<u8>, Seq<u8>),
                    DecodeError,
                >((v@, final(self).remaining())),
                Err(e) => parse_bytes(old(self).remaining(), N as nat) == Err::<
                    (Seq<u8>, Seq<u8>),
                    DecodeError,
                >(e),
            },
    {
        match self.take_slice(N) {
            Ok(b) => {
                let mut out = [0u8; N];
                let mut i: usize = 0;
                while i < N
                    invariant
                        i <= N,
                        b@.len() == N,
                        forall|j: int| 0 <= j < i ==> out@[j] == b@[j],
                    decreases N - i,
                {
                    out[i] = b[i];
                    i = i + 1;
                }
                assert(out@ =~= b@);
                Ok(out)
            },
            Err(e) => Err(e),
        }
    }

    /// Reads a `u32` length and then that many bytes.
    pub fn read_var_le_bytes32(&mut self) -> (res: Result<Vec<u8>, DecodeError>)
        ensures
            match res {
                Ok(v) => parse_var_bytes(old(self).remaining()) == Ok::<
                    (Seq<u8>, Seq<u8>),
                    DecodeError,
                >((v@, final(self).remaining())),
                Err(e) => parse_var_bytes(old(self).remaining()) == Err::<
                    (Seq<u8>, Seq<u8>),
                    DecodeError,
                >(e),
            },
    {
        let len = match self.read_u32_le() {
            Ok(len) => len,
            Err(e) => return Err(e),
        };
        match self.take_slice(len as usize) {
            Ok(b) => Ok(slice_to_vec(b)),
            Err(e) => Err(e),
        }
    }
}

/// Appends one byte.
pub fn write_u8(w: &mut Vec<u8>, v: u8)
    ensures
        final(w)@ == old(w)@ + seq![v],
{
    w.push(v);
    assert(w@ =~= old(w)@ + seq![v]);
}

/// Appends `v` as four little-endian bytes.
pub fn write_u32_le(w: &mut Vec<u8>, v: u32)
    ensures
        final(w)@ == old(w)@ + spec_u32_to_le_bytes(v),
{
    let mut b = u32_to_le_bytes(v);
    w.append(&mut b);
}

/// Appends `v` as eight little-endian bytes.
pub fn write_u64_le(w: &mut Vec<u8>, v: u64)
    ensures
        final(w)@ == old(w)@ + spec_u64_to_le_bytes(v),
{
    let mut b = u64_to_le_bytes(v);
    w.append(&mut b);
}

/// Appends the bytes of `b` as they are.
pub fn write_bytes(w: &mut Vec<u8>, b: &[u8])
    ensures
        final(w)@ == old(w)@ + b@,
{
    let mut i: usize = 0;
    while i < b.len()
        invariant
            i <= b@.len(),
            w@ == old(w)@ + b@.take(i as int),
        decreases b@.len() - i,
    {
        w.push(b[i]);
        assert(b@.take(i + 1) =~= b@.take(i as int).push(b@[i as int]));
        assert(w@ =~= old(w)@ + b@.take(i + 1));
        i = i + 1;
    }
    assert(b@.take(i as int) =~= b@);
}

/// Appends the length of `b` as a little-endian `u32`, then `b`. A slice
/// whose length does not fit in a `u32` is refused and nothing is written.
pub fn write_var_le_bytes32(w: &mut Vec<u8>, b: &[u8]) -> (res: Result<(), EncodeError>)
    ensures
        res is Ok <==> b@.len() <= u32::MAX,
        res is Ok ==> final(w)@ == old(w)@ + encode_var_bytes(b@),
        res is Err ==> final(w)@ == old(w)@,
{
    if b.len() > 0xffff_ffff {
        return Err(EncodeError::TooLong);
    }
    write_u32_le(w, b.len() as u32);
    write_bytes(w, b);
    assert(w@ =~= old(w)@ + encode_var_bytes(b@));
    Ok(())
}

/// Whether two byte slices hold the same bytes.
pub fn bytes_eq(a: &[u8], b: &[u8]) -> (same: bool)
    ensures
        same == (a@ == b@),
{
    if a.len() != b.len() {
        return false;
    }
    let mut i: usize = 0;
    while i < a.len()
        invariant
            i <= a@.len(),
            a@.len() == b@.len(),
            forall|j: int| 0 <= j < i ==> a@[j] == b@[j],
        decreases a@.len() - i,
    {
        if a[i] != b[i] {
            return false;
        }
        i = i + 1;
    }
    assert(a@ =~= b@);
    true
}

} // verus!
