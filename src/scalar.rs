//! Scalars: integers modulo the order of the group, held in their canonical
//! 32-byte little-endian encoding.
use ark_bls12_377::Fr;
use ark_serialize::{CanonicalDeserialize, CanonicalSerialize, SerializationError};
use ark_ff::PrimeField;
use ark_std::rand::rngs::OsRng;
use ark_std::rand::RngCore;
use vstd::prelude::*;

verus! {

/// Width in bytes of the canonical encoding of a scalar.
pub const SCALAR_BYTES: usize = 32;

/// The order of the group, that is the modulus of the scalar field.
pub open spec fn field_order() -> nat {
    8444461749428370424248824938781546531375899335154063827935233455917409239041nat
}

/// The unsigned integer that a little-endian byte string encodes.
pub open spec fn le_nat(s: Seq<u8>) -> nat
    decreases s.len(),
{
    if s.len() == 0 {
        0
    } else {
        s[0] as nat + 256 * le_nat(s.drop_first())
    }
}

/// `256` raised to the power `n`.
pub open spec fn pow256(n: nat) -> nat
    decreases n,
{
    if n == 0 {
        1
    } else {
        256 * pow256((n - 1) as nat)
    }
}

/// Whether `s` is the canonical encoding of a scalar.
pub open spec fn is_scalar_encoding(s: Seq<u8>) -> bool {
    s.len() == SCALAR_BYTES && le_nat(s) < field_order()
}

/// What decoding a buffer as a scalar gives: the value of its first
/// `SCALAR_BYTES` bytes, or `None` when the buffer is too short or that value
/// is not below the field order.
pub open spec fn decoded_scalar(b: Seq<u8>) -> Option<nat> {
    if b.len() >= SCALAR_BYTES && le_nat(b.subrange(0, SCALAR_BYTES as int)) < field_order() {
        Some(le_nat(b.subrange(0, SCALAR_BYTES as int)))
    } else {
        None
    }
}

/// The value encoded by `s` is below `256` to the power of its length.
pub proof fn lemma_le_nat_bound(s: Seq<u8>)
    ensures
        le_nat(s) < pow256(s.len()),
    decreases s.len(),
{
    if s.len() > 0 {
        lemma_le_nat_bound(s.drop_first());
        assert(pow256(s.len()) == 256 * pow256((s.len() - 1) as nat));
    }
}

/// A trailing zero byte does not change the encoded value.
pub proof fn lemma_le_nat_push_zero(s: Seq<u8>)
    ensures
        le_nat(s.push(0)) == le_nat(s),
    decreases s.len(),
{
    if s.len() > 0 {
        lemma_le_nat_push_zero(s.drop_first());
        assert(s.push(0).drop_first() =~= s.drop_first().push(0));
    } else {
        assert(s.push(0).drop_first() =~= s);
    }
}

/// Decoding the canonical encoding of a scalar gives that scalar back.
pub proof fn lemma_codec_round_trip(s: nat, b: Seq<u8>)
    requires
        s < field_order(),
        b.len() == SCALAR_BYTES,
        le_nat(b) == s,
    ensures
        decoded_scalar(b) == Some(s),
{
    assert(b.subrange(0, SCALAR_BYTES as int) =~= b);
}

/// Error of the codec.
#[derive(Debug, Clone, Copy, PartialEq, Eq, Structural)]
pub enum ProofError {
    /// The buffer is too short, or does not hold a canonical field element.
    DeserializationError,
    /// The operating system's random source failed.
    RandomSourceError,
}

/// An element of the scalar field.
#[derive(Debug, PartialEq, Eq)]
pub struct Scalar {
    bytes: Vec<u8>,
}

#[verifier::external_type_specification]
#[verifier::external_body]
pub struct ExSerializationError(SerializationError);

/// Relies on `Fr::deserialize` of ark-ff (with `Fr::serialize` to hand the
/// element back): it reads 32 little-endian bytes, refuses a buffer shorter
/// than that and a value that is not below the modulus, and the element then
/// encodes to the bytes that were read.
#[verifier::external_body]
fn fr_deserialize(b: &[u8]) -> (r: Result<Vec<u8>, SerializationError>)
    ensures
        r is Ok <==> decoded_scalar(b@) is Some,
        r matches Ok(v) ==> v@ == b@.subrange(0, SCALAR_BYTES as int),
{
    let f = Fr::deserialize(b)?;
    let mut out: Vec<u8> = Vec::new();
    f.serialize(&mut out)?;
    Ok(out)
}

/// Relies on `Fr`'s `Add` of ark-ff: addition modulo the field order.
#[verifier::external_body]
fn fr_add(a: &Vec<u8>, b: &Vec<u8>) -> (r: Vec<u8>)
    requires
        is_scalar_encoding(a@),
        is_scalar_encoding(b@),
    ensures
        is_scalar_encoding(r@),
        le_nat(r@) == (le_nat(a@) + le_nat(b@)) % field_order(),
{
    let x = Fr::deserialize(&a[..]).unwrap();
    let y = Fr::deserialize(&b[..]).unwrap();
    let mut out: Vec<u8> = Vec::new();
    (x + y).serialize(&mut out).unwrap();
    out
}

/// Relies on `Fr`'s `Mul` of ark-ff: multiplication modulo the field order.
#[verifier::external_body]
fn fr_mul(a: &Vec<u8>, b: &Vec<u8>) -> (r: Vec<u8>)
    requires
        is_scalar_encoding(a@),
        is_scalar_encoding(b@),
    ensures
        is_scalar_encoding(r@),
        le_nat(r@) == (le_nat(a@) * le_nat(b@)) % field_order(),
{
    let x = Fr::deserialize(&a[..]).unwrap();
    let y = Fr::deserialize(&b[..]).unwrap();
    let mut out: Vec<u8> = Vec::new();
    (x * y).serialize(&mut out).unwrap();
    out
}

/// Relies on `Fr::from(u64)` of ark-ff: the element whose value is `n`.
#[verifier::external_body]
fn fr_from_u64(n: u64) -> (r: Vec<u8>)
    ensures
        is_scalar_encoding(r@),
        le_nat(r@) == n as nat,
{
    let mut out: Vec<u8> = Vec::new();
    Fr::from(n).serialize(&mut out).unwrap();
    out
}

#[verifier::external_type_specification]
#[verifier::external_body]
pub struct ExRandError(ark_std::rand::Error);

/// Width in bytes of the random draw that a random scalar is reduced from.
pub const RANDOM_BYTES: usize = 64;

/// Relies on `RngCore::try_fill_bytes` of `OsRng` (rand_core): fills the
/// buffer from the operating system's generator, or reports its failure.
#[verifier::external_body]
fn os_random_bytes() -> (r: Result<Vec<u8>, ark_std::rand::Error>)
    ensures
        r matches Ok(v) ==> v@.len() == RANDOM_BYTES,
{
    let mut buf: Vec<u8> = vec![0u8; RANDOM_BYTES];
    OsRng.try_fill_bytes(&mut buf)?;
    Ok(buf)
}

/// Relies on `PrimeField::from_le_bytes_mod_order` of ark-ff (then
/// `serialize`): the little-endian value of the bytes modulo the field order.
#[verifier::external_body]
fn fr_from_le_bytes_mod_order(b: &[u8]) -> (r: Vec<u8>)
    requires
        b@.len() >= SCALAR_BYTES,
    ensures
        is_scalar_encoding(r@),
        le_nat(r@) == le_nat(b@) % field_order(),
{
    let mut out: Vec<u8> = Vec::new();
    Fr::from_le_bytes_mod_order(b).serialize(&mut out).unwrap();
    out
}

impl View for Scalar {
    type V = nat;

    closed spec fn view(&self) -> nat {
        le_nat(self.bytes@)
    }
}

impl Clone for Scalar {
    fn clone(&self) -> (r: Scalar)
        ensures
            r@ == self@,
    {
        proof {
            use_type_invariant(self);
        }
        Scalar { bytes: self.bytes.clone() }
    }
}

impl Scalar {
    #[verifier::type_invariant]
    spec fn inv(self) -> bool {
        is_scalar_encoding(self.bytes@)
    }

    /// The canonical encoding of this scalar.
    pub closed spec fn encoding(&self) -> Seq<u8> {
        self.bytes@
    }

    /// The scalar whose value is `n`.
    pub fn from_u64(n: u64) -> (r: Scalar)
        ensures
            r@ == n as nat,
    {
        Scalar { bytes: fr_from_u64(n) }
    }

    /// The additive identity.
    pub fn zero() -> (r: Scalar)
        ensures
            r@ == 0,
    {
        Scalar::from_u64(0)
    }

    /// The little-endian value of `b` modulo the field order.
    pub fn from_le_bytes_mod_order(b: &[u8]) -> (r: Scalar)
        requires
            b@.len() >= SCALAR_BYTES,
        ensures
            r@ == le_nat(b@) % field_order(),
    {
        Scalar { bytes: fr_from_le_bytes_mod_order(b) }
    }

    /// A scalar reduced from `RANDOM_BYTES` bytes of the operating system's
    /// generator, which makes it uniform up to a bias below 2^-250.
    pub fn random() -> (r: Result<Scalar, ProofError>)
        ensures
            r matches Err(e) ==> e == ProofError::RandomSourceError,
    {
        match os_random_bytes() {
            Ok(b) => Ok(Scalar::from_le_bytes_mod_order(b.as_slice())),
            Err(_) => Err(ProofError::RandomSourceError),
        }
    }

    /// Sum modulo the field order.
    pub fn add(&self, other: &Scalar) -> (r: Scalar)
        ensures
            r@ == (self@ + other@) % field_order(),
    {
        proof {
            use_type_invariant(self);
            use_type_invariant(other);
        }
        Scalar { bytes: fr_add(&self.bytes, &other.bytes) }
    }

    /// Product modulo the field order.
    pub fn mul(&self, other: &Scalar) -> (r: Scalar)
        ensures
            r@ == (self@ * other@) % field_order(),
    {
        proof {
            use_type_invariant(self);
            use_type_invariant(other);
        }
        Scalar { bytes: fr_mul(&self.bytes, &other.bytes) }
    }

    /// The canonical 32-byte little-endian encoding.
    pub fn to_bytes(&self) -> (r: Vec<u8>)
        ensures
            r@ == self.encoding(),
            is_scalar_encoding(r@),
            le_nat(r@) == self@,
    {
        proof {
            use_type_invariant(self);
        }
        self.bytes.clone()
    }
}

/// Reads a scalar from the first `SCALAR_BYTES` bytes of `b`.
pub fn decode_scalar(b: &[u8]) -> (r: Result<Scalar, ProofError>)
    ensures
        match r {
            Ok(s) => decoded_scalar(b@) == Some(s@),
            Err(e) => decoded_scalar(b@) is None && e == ProofError::DeserializationError,
        },
{
    match fr_deserialize(b) {
        Ok(v) => {
            proof {
                lemma_le_nat_bound(v@);
            }
            Ok(Scalar { bytes: v })
        },
        Err(_) => Err(ProofError::DeserializationError),
    }
}

} // verus!
