//! BLS public keys and the multi-signature operations on them. The curve
//! arithmetic is taken on trust from `bls12_381_bls`; what is claimed of each
//! call stands in its contract.

use vstd::prelude::*;
use bls12_381_bls::{PublicKey as BlsPublicKey, Signature as BlsSignature, APK};
use dusk_bytes::Serializable;
use crate::ledger::PublicKeyBytes;
use crate::num::{be_value, bytes_lt};

verus! {

/// Why a BLS operation failed.
#[derive(Clone, Copy, Debug, PartialEq, Eq, Structural)]
pub enum BlsError {
    /// Some bytes are not the encoding of a curve point.
    BytesError,
    /// The signature does not verify under the key.
    InvalidSignature,
    /// A key or a signature is the identity or lies outside the subgroup.
    InvalidPoint,
}

/// The error type of `bls12_381_bls`. Nothing is known of its values but
/// what `bls_error` tells.
#[verifier::external_type_specification]
#[verifier::external_body]
pub struct ExBlsSigError(bls12_381_bls::Error);

/// Tells the variants of `bls12_381_bls::Error` apart.
#[verifier::external_body]
fn bls_error(e: bls12_381_bls::Error) -> BlsError {
    match e {
        bls12_381_bls::Error::BytesError(_) => BlsError::BytesError,
        bls12_381_bls::Error::InvalidSignature => BlsError::InvalidSignature,
        bls12_381_bls::Error::InvalidPoint => BlsError::InvalidPoint,
    }
}

/// Whether 96 bytes are the compressed encoding of a public key.
pub uninterp spec fn bls_public_key_decodes(key: Seq<u8>) -> bool;

/// `bls12_381_bls::PublicKey::from_bytes`, asked only whether it succeeds.
/// Trusted: the answer is a function of the bytes alone.
#[verifier::external_body]
fn public_key_decodes(key: &[u8; 96]) -> (ok: bool)
    ensures
        ok == bls_public_key_decodes(key@),
{
    BlsPublicKey::from_bytes(key).is_ok()
}

/// The aggregated key that stands for one public key alone.
pub uninterp spec fn bls_apk_from(key: Seq<u8>) -> Result<Seq<u8>, BlsError>;

/// `APK::from` on the key that the bytes encode, handed back as bytes.
/// Trusted: the result is a function of the key bytes alone; bytes that do
/// not decode give `BytesError`.
#[verifier::external_body]
fn apk_from(key: &[u8; 96]) -> (res: Result<[u8; 96], BlsError>)
    ensures
        match res {
            Ok(apk) => bls_apk_from(key@) == Ok::<Seq<u8>, BlsError>(apk@),
            Err(e) => bls_apk_from(key@) == Err::<Seq<u8>, BlsError>(e),
        },
{
    let pk = BlsPublicKey::from_bytes(key).map_err(|_| BlsError::BytesError)?;
    Ok(APK::from(&pk).to_bytes())
}

/// The aggregated key after more public keys were added to it.
pub uninterp spec fn bls_apk_aggregate(apk: Seq<u8>, keys: Seq<Seq<u8>>) -> Result<
    Seq<u8>,
    BlsError,
>;

/// The byte strings of a list of keys.
pub open spec fn key_bytes_of(keys: Seq<PublicKeyBytes>) -> Seq<Seq<u8>> {
    Seq::new(keys.len(), |i: int| keys[i]@)
}

/// `APK::aggregate`, on bytes. Trusted: the result is a function of the
/// aggregated key and the list of keys alone; the call fails with
/// `InvalidPoint` where the crate refuses a key, and with `BytesError` where
/// some bytes do not decode.
#[verifier::external_body]
fn apk_aggregate(apk: &[u8; 96], keys: &Vec<PublicKeyBytes>) -> (res: Result<[u8; 96], BlsError>)
    ensures
        match res {
            Ok(out) => bls_apk_aggregate(apk@, key_bytes_of(keys@)) == Ok::<Seq<u8>, BlsError>(
                out@,
            ),
            Err(e) => bls_apk_aggregate(apk@, key_bytes_of(keys@)) == Err::<Seq<u8>, BlsError>(e),
        },
{
    let mut apk = APK::from_bytes(apk).map_err(|_| BlsError::BytesError)?;
    let pks = keys.iter().map(|k| BlsPublicKey::from_bytes(&k.0)).collect::<Result<Vec<_>, _>>();
    apk.aggregate(&pks.map_err(|_| BlsError::BytesError)?).map_err(bls_error)?;
    Ok(apk.to_bytes())
}

/// Whether a signature verifies under an aggregated key for a message.
pub uninterp spec fn bls_apk_verify(apk: Seq<u8>, signature: Seq<u8>, msg: Seq<u8>) -> Result<
    (),
    BlsError,
>;

/// `APK::verify`, on bytes. Trusted: the outcome is a function of the key,
/// the signature and the message alone.
#[verifier::external_body]
fn apk_verify(apk: &[u8; 96], signature: &[u8; 48], msg: &[u8]) -> (res: Result<(), BlsError>)
    ensures
        res == bls_apk_verify(apk@, signature@, msg@),
{
    let apk = APK::from_bytes(apk).map_err(|_| BlsError::BytesError)?;
    let sig = BlsSignature::from_bytes(signature).map_err(bls_error)?;
    apk.verify(&sig, msg).map_err(bls_error)
}

/// Whether `signature` is the signature of the owner of `key` over `msg`:
/// it must verify under the aggregated key that stands for `key` alone, so
/// that it can be aggregated with the signatures of others.
pub open spec fn spec_verify_signature(key: Seq<u8>, signature: Seq<u8>, msg: Seq<u8>) -> Result<
    (),
    BlsError,
> {
    match bls_apk_from(key) {
        Err(e) => Err(e),
        Ok(apk) => bls_apk_verify(apk, signature, msg),
    }
}

/// Verifies `signature` over `msg` under the key that `key` encodes.
pub fn verify_signature(key: &PublicKeyBytes, signature: &[u8; 48], msg: &[u8]) -> (res: Result<
    (),
    BlsError,
>)
    ensures
        res == spec_verify_signature(key@, signature@, msg@),
{
    match apk_from(&key.0) {
        Err(e) => Err(e),
        Ok(apk) => apk_verify(&apk, signature, msg),
    }
}

/// A validator's public key: 96 bytes that were checked to decode to a
/// curve point when the key was made. Keys are equal when their bytes are,
/// and are ordered by their bytes.
#[derive(Clone, Copy, Debug, PartialEq, Eq)]
pub struct PublicKey {
    bytes: PublicKeyBytes,
}

impl View for PublicKey {
    type V = Seq<u8>;

    closed spec fn view(&self) -> Seq<u8> {
        self.bytes@
    }
}

impl PublicKey {
    /// The key that the bytes encode, if they encode one.
    pub fn try_from_bytes(bytes: PublicKeyBytes) -> (res: Result<PublicKey, BlsError>)
        ensures
            res is Ok <==> bls_public_key_decodes(bytes@),
            res matches Ok(k) ==> k@ == bytes@,
            res matches Err(e) ==> e == BlsError::BytesError,
    {
        if public_key_decodes(&bytes.0) {
            Ok(PublicKey { bytes })
        } else {
            Err(BlsError::BytesError)
        }
    }

    pub fn bytes(&self) -> (b: &PublicKeyBytes)
        ensures
            b@ == self@,
    {
        &self.bytes
    }

    pub proof fn lemma_len(self)
        ensures
            self@.len() == 96,
    {
    }

    /// The place of the key in the canonical order of keys.
    pub open spec fn rank(self) -> nat {
        be_value(self@)
    }

    /// Whether the two keys are the same.
    pub fn same(&self, other: &PublicKey) -> (eq: bool)
        ensures
            eq == (self@ == other@),
    {
        crate::codec::bytes_eq(self.bytes.0.as_slice(), other.bytes.0.as_slice())
    }

    /// Whether this key comes before `other` in the canonical order.
    pub fn before(&self, other: &PublicKey) -> (lt: bool)
        ensures
            lt == (self.rank() < other.rank()),
    {
        bytes_lt(self.bytes.0.as_slice(), other.bytes.0.as_slice())
    }
}

/// The aggregated key of a non-empty list of keys: the first key turned into
/// an aggregated key, then the others added to it.
pub open spec fn spec_aggregate(keys: Seq<Seq<u8>>) -> Result<Seq<u8>, BlsError>
    recommends
        keys.len() > 0,
{
    match bls_apk_from(keys[0]) {
        Err(e) => Err(e),
        Ok(apk) => bls_apk_aggregate(apk, keys.skip(1)),
    }
}

/// Aggregates the keys; `None` when there is no key at all.
pub fn aggregate_keys(keys: &Vec<PublicKeyBytes>) -> (res: Option<Result<[u8; 96], BlsError>>)
    ensures
        res is None <==> keys@.len() == 0,
        res matches Some(r) ==> match r {
            Ok(apk) => spec_aggregate(key_bytes_of(keys@)) == Ok::<Seq<u8>, BlsError>(apk@),
            Err(e) => spec_aggregate(key_bytes_of(keys@)) == Err::<Seq<u8>, BlsError>(e),
        },
{
    if keys.len() == 0 {
        return None;
    }
    let first = match apk_from(&keys[0].0) {
        Ok(apk) => apk,
        Err(e) => return Some(Err(e)),
    };
    let mut rest: Vec<PublicKeyBytes> = Vec::new();
    let mut i: usize = 1;
    while i < keys.len()
        invariant
            1 <= i <= keys@.len(),
            rest@ == keys@.subrange(1, i as int),
        decreases keys@.len() - i,
    {
        rest.push(keys[i]);
        assert(rest@ =~= keys@.subrange(1, i + 1));
        i = i + 1;
    }
    proof {
        assert(rest@ =~= keys@.skip(1));
        assert(key_bytes_of(rest@) =~= key_bytes_of(keys@).skip(1));
    }
    Some(apk_aggregate(&first, &rest))
}

/// Verifies `signature` over `msg` under the aggregated key `apk`.
pub fn verify_aggregate(apk: &[u8; 96], signature: &[u8; 48], msg: &[u8]) -> (res: Result<
    (),
    BlsError,
>)
    ensures
        res == bls_apk_verify(apk@, signature@, msg@),
{
    apk_verify(apk, signature, msg)
}

} // verus!
