//! The Fiat-Shamir step: a scalar challenge derived from two points.
use blake2::{Blake2b512, Digest};
use vstd::prelude::*;
use crate::point::{g1_encoding, Point};
use crate::scalar::{
    decode_scalar, decoded_scalar, field_order, le_nat, lemma_le_nat_bound,
    lemma_le_nat_push_zero, pow256, Scalar, SCALAR_BYTES,
};

verus! {

/// The BLAKE2b-512 digest of `data`.
pub uninterp spec fn blake2b512_of(data: Seq<u8>) -> Seq<u8>;

/// Relies on `Digest::digest` for `Blake2b512` of blake2: the 64-byte digest,
/// a function of the input alone.
#[verifier::external_body]
fn blake2b512(data: &[u8]) -> (r: Vec<u8>)
    ensures
        r@ == blake2b512_of(data@),
        r@.len() == 64,
{
    Blake2b512::digest(data).to_vec()
}

/// The bytes hashed for the challenge of `(p, q)`: the encoding of `p`, then
/// that of `q`.
pub open spec fn challenge_input(p: nat, q: nat) -> Seq<u8> {
    g1_encoding(p) + g1_encoding(q)
}

/// The first `SCALAR_BYTES` bytes of a digest, with the most significant of
/// them cleared.
pub open spec fn masked_prefix(h: Seq<u8>) -> Seq<u8> {
    h.subrange(0, SCALAR_BYTES as int).update(SCALAR_BYTES - 1, 0)
}

/// The challenge derived from the points whose discrete logarithms are `p`
/// and `q`, in that order.
pub open spec fn challenge(p: nat, q: nat) -> nat {
    le_nat(masked_prefix(blake2b512_of(challenge_input(p, q))))
}

/// A masked prefix always encodes a value below the field order.
proof fn lemma_masked_prefix_in_field(h: Seq<u8>)
    requires
        h.len() >= SCALAR_BYTES,
    ensures
        le_nat(masked_prefix(h)) < pow256(31),
        pow256(31) < field_order(),
        masked_prefix(h).len() == SCALAR_BYTES,
{
    let low = h.subrange(0, SCALAR_BYTES - 1);
    assert(masked_prefix(h) =~= low.push(0));
    lemma_le_nat_push_zero(low);
    lemma_le_nat_bound(low);
    assert(pow256(31) == 452312848583266388373324160190187140051835877600158453279131187530910662656nat)
        by {
        reveal_with_fuel(pow256, 32);
    }
}

/// The challenge carried by a digest: its first `SCALAR_BYTES` bytes, with the
/// most significant one cleared, read as a scalar.
pub fn challenge_from_digest(digest: &[u8]) -> (r: Scalar)
    requires
        digest@.len() >= SCALAR_BYTES,
    ensures
        r@ == le_nat(masked_prefix(digest@)),
        r@ < pow256(31),
{
    let mut h: Vec<u8> = Vec::new();
    let mut i: usize = 0;
    while i < SCALAR_BYTES
        invariant
            i <= SCALAR_BYTES <= digest@.len(),
            h@ =~= digest@.subrange(0, i as int),
        decreases SCALAR_BYTES - i,
    {
        h.push(digest[i]);
        i = i + 1;
    }
    h.set(SCALAR_BYTES - 1, 0);
    proof {
        lemma_masked_prefix_in_field(digest@);
        assert(h@.subrange(0, SCALAR_BYTES as int) =~= masked_prefix(digest@));
        assert(decoded_scalar(h@) == Some(le_nat(masked_prefix(digest@))));
    }
    decode_scalar(h.as_slice()).unwrap()
}

/// Derives the challenge scalar of the points `p` and `q`, in that order.
pub fn get_hash(p: &Point, q: &Point) -> (r: Scalar)
    ensures
        r@ == challenge(p@, q@),
        r@ < pow256(31),
        p@ != q@ ==> challenge_input(p@, q@) != challenge_input(q@, p@),
{
    let mut data = p.encode();
    let mut tail = q.encode();
    proof {
        if p@ != q@ {
            assert(q.encoding() == tail@);
            assert(p.encoding() == data@);
            assert(g1_encoding(p@) != g1_encoding(q@));
        }
    }
    data.append(&mut tail);
    let h = blake2b512(data.as_slice());
    proof {
        assert(data@ == challenge_input(p@, q@));
        if p@ != q@ {
            lemma_swapped_points_hash_other_bytes(p@, q@);
        }
    }
    challenge_from_digest(h.as_slice())
}

/// The challenge depends on the two encodings hashed, and on nothing else.
pub proof fn lemma_challenge_determined_by_encodings(p1: nat, q1: nat, p2: nat, q2: nat)
    requires
        g1_encoding(p1) == g1_encoding(p2),
        g1_encoding(q1) == g1_encoding(q2),
    ensures
        challenge(p1, q1) == challenge(p2, q2),
{
}

/// Swapping two points of distinct encodings of one length changes the bytes
/// that are hashed for the challenge.
pub proof fn lemma_swapped_points_hash_other_bytes(p: nat, q: nat)
    requires
        g1_encoding(p) != g1_encoding(q),
        g1_encoding(p).len() == g1_encoding(q).len(),
    ensures
        challenge_input(p, q) != challenge_input(q, p),
{
    let n = g1_encoding(p).len() as int;
    if challenge_input(p, q) == challenge_input(q, p) {
        assert(challenge_input(p, q).subrange(0, n) =~= g1_encoding(p));
        assert(challenge_input(q, p).subrange(0, n) =~= g1_encoding(q));
    }
}

} // verus!
