//! Points of the prime-order subgroup of G1, held in their canonical
//! compressed encoding. Such a subgroup is cyclic of order `field_order()` and
//! generated by its fixed generator, so every point is the generator taken
//! some number of times below that order: that number is the point's view.
use ark_bls12_377::{Fr, G1Affine};
use ark_ec::{AffineCurve, ProjectiveCurve};
use ark_serialize::{CanonicalDeserialize, CanonicalSerialize};
use ark_std::Zero;
use vstd::prelude::*;
use crate::scalar::{field_order, is_scalar_encoding, le_nat, Scalar};

verus! {

/// The canonical compressed encoding of the subgroup generator multiplied by
/// `k`, as `CanonicalSerialize` writes it for a `G1Affine`.
pub uninterp spec fn g1_encoding(k: nat) -> Seq<u8>;

/// Width in bytes of the compressed encoding of a point.
pub const POINT_BYTES: usize = 48;

/// `e` encodes the generator multiplied by `k`, and by no other multiplier
/// below the group order; like every encoding it is `POINT_BYTES` long.
pub open spec fn encodes_exactly(e: Seq<u8>, k: nat) -> bool {
    &&& e == g1_encoding(k)
    &&& e.len() == POINT_BYTES
    &&& forall|j: nat| j < field_order() && #[trigger] g1_encoding(j) == e ==> j == k
}

/// Whether `e` is the encoding of a point of the subgroup.
pub open spec fn is_point_encoding(e: Seq<u8>) -> bool {
    exists|k: nat| k < field_order() && #[trigger] g1_encoding(k) == e
}

/// Relies on `AffineCurve::prime_subgroup_generator` and `AffineCurve::mul` of
/// ark-ec (then `into_affine` and `serialize`): the generator multiplied by the
/// scalar. The generator has the prime order `field_order()` and the
/// compressed encoding is injective, so no other multiplier below that order
/// gives the same encoding. The compressed encoding of a G1 point always takes
/// 48 bytes: the 377-bit x coordinate and two flag bits.
#[verifier::external_body]
fn g1_generator_mul(s: &Vec<u8>) -> (r: Vec<u8>)
    requires
        is_scalar_encoding(s@),
    ensures
        encodes_exactly(r@, le_nat(s@)),
{
    let k = Fr::deserialize(&s[..]).unwrap();
    let mut out: Vec<u8> = Vec::new();
    G1Affine::prime_subgroup_generator().mul(k).into_affine().serialize(&mut out).unwrap();
    out
}

/// Relies on `AffineCurve::mul` of ark-ec (then `into_affine` and
/// `serialize`): scalar multiplication of a subgroup point, which multiplies
/// its discrete logarithm modulo the group order.
#[verifier::external_body]
fn g1_mul(p: &Vec<u8>, s: &Vec<u8>) -> (r: Vec<u8>)
    requires
        is_point_encoding(p@),
        is_scalar_encoding(s@),
    ensures
        forall|k: nat|
            k < field_order() && #[trigger] g1_encoding(k) == p@ ==> encodes_exactly(
                r@,
                (k * le_nat(s@)) % field_order(),
            ),
{
    let a = G1Affine::deserialize(&p[..]).unwrap();
    let k = Fr::deserialize(&s[..]).unwrap();
    let mut out: Vec<u8> = Vec::new();
    a.mul(k).into_affine().serialize(&mut out).unwrap();
    out
}

/// Relies on `G1Affine`'s `Add` of ark-ec (then `serialize`): the group
/// operation, which adds discrete logarithms modulo the group order.
#[verifier::external_body]
fn g1_add(p: &Vec<u8>, q: &Vec<u8>) -> (r: Vec<u8>)
    requires
        is_point_encoding(p@),
        is_point_encoding(q@),
    ensures
        forall|a: nat, b: nat|
            a < field_order() && b < field_order() && #[trigger] g1_encoding(a) == p@
                && #[trigger] g1_encoding(b) == q@ ==> encodes_exactly(
                r@,
                (a + b) % field_order(),
            ),
{
    let a = G1Affine::deserialize(&p[..]).unwrap();
    let b = G1Affine::deserialize(&q[..]).unwrap();
    let mut out: Vec<u8> = Vec::new();
    (a + b).serialize(&mut out).unwrap();
    out
}

/// Relies on `Zero::zero` for `G1Affine` of ark-ec (the `num_traits` trait) (then `serialize`): the
/// identity, which is the generator taken zero times and no other multiple
/// below the group order.
#[verifier::external_body]
fn g1_identity() -> (r: Vec<u8>)
    ensures
        encodes_exactly(r@, 0),
{
    let mut out: Vec<u8> = Vec::new();
    G1Affine::zero().serialize(&mut out).unwrap();
    out
}

/// A point of the prime-order subgroup of G1.
#[derive(Debug, PartialEq, Eq)]
pub struct Point {
    bytes: Vec<u8>,
}

impl View for Point {
    type V = nat;

    /// The discrete logarithm of the point to the generator.
    closed spec fn view(&self) -> nat {
        choose|k: nat| k < field_order() && #[trigger] g1_encoding(k) == self.bytes@
    }
}

impl Clone for Point {
    fn clone(&self) -> (r: Point)
        ensures
            r@ == self@,
            r.encoding() == self.encoding(),
    {
        proof {
            use_type_invariant(self);
        }
        Point { bytes: self.bytes.clone() }
    }
}

impl Point {
    #[verifier::type_invariant]
    spec fn inv(self) -> bool {
        &&& is_point_encoding(self.bytes@)
        &&& self.bytes@.len() == POINT_BYTES
    }

    /// The canonical encoding of this point.
    pub closed spec fn encoding(&self) -> Seq<u8> {
        self.bytes@
    }

    proof fn lemma_view(&self, k: nat)
        requires
            k < field_order(),
            encodes_exactly(self.bytes@, k),
        ensures
            self@ == k,
            self.encoding() == g1_encoding(self@),
    {
    }

    /// The generator multiplied by `s`.
    pub fn generator_mul(s: &Scalar) -> (r: Point)
        ensures
            r@ == s@,
            r@ < field_order(),
            r.encoding() == g1_encoding(r@),
    {
        let b = s.to_bytes();
        let bytes = g1_generator_mul(&b);
        proof {
            assert(g1_encoding(s@) == bytes@);
        }
        let r = Point { bytes };
        proof {
            r.lemma_view(s@);
        }
        r
    }

    /// The identity element.
    pub fn identity() -> (r: Point)
        ensures
            r@ == 0,
            r.encoding() == g1_encoding(r@),
    {
        let bytes = g1_identity();
        proof {
            assert(g1_encoding(0) == bytes@);
        }
        let r = Point { bytes };
        proof {
            r.lemma_view(0);
        }
        r
    }

    /// This point multiplied by `s`.
    pub fn mul(&self, s: &Scalar) -> (r: Point)
        ensures
            r@ == (self@ * s@) % field_order(),
            r.encoding() == g1_encoding(r@),
    {
        proof {
            use_type_invariant(self);
        }
        let b = s.to_bytes();
        let bytes = g1_mul(&self.bytes, &b);
        proof {
            assert(g1_encoding(self@) == self.bytes@);
            assert(g1_encoding((self@ * s@) % field_order()) == bytes@);
        }
        let r = Point { bytes };
        proof {
            r.lemma_view((self@ * s@) % field_order());
        }
        r
    }

    /// The group operation.
    pub fn add(&self, other: &Point) -> (r: Point)
        ensures
            r@ == (self@ + other@) % field_order(),
            r.encoding() == g1_encoding(r@),
    {
        proof {
            use_type_invariant(self);
            use_type_invariant(other);
        }
        let bytes = g1_add(&self.bytes, &other.bytes);
        proof {
            assert(g1_encoding(self@) == self.bytes@);
            assert(g1_encoding(other@) == other.bytes@);
            assert(g1_encoding((self@ + other@) % field_order()) == bytes@);
        }
        let r = Point { bytes };
        proof {
            r.lemma_view((self@ + other@) % field_order());
        }
        r
    }

    /// Whether the two points are the same element of the group.
    pub fn equals(&self, other: &Point) -> (r: bool)
        ensures
            r == (self@ == other@),
    {
        proof {
            use_type_invariant(self);
            use_type_invariant(other);
            assert(self.bytes@ == g1_encoding(self@));
            assert(other.bytes@ == g1_encoding(other@));
        }
        if self.bytes.len() != other.bytes.len() {
            return false;
        }
        let mut i: usize = 0;
        while i < self.bytes.len()
            invariant
                self.bytes@.len() == other.bytes@.len(),
                self.bytes@ == g1_encoding(self@),
                other.bytes@ == g1_encoding(other@),
                i <= self.bytes@.len(),
                forall|j: int| 0 <= j < i ==> self.bytes@[j] == other.bytes@[j],
            decreases self.bytes@.len() - i,
        {
            if self.bytes[i] != other.bytes[i] {
                proof {
                    assert(self.bytes@ != other.bytes@);
                }
                return false;
            }
            i = i + 1;
        }
        proof {
            assert(self.bytes@ =~= other.bytes@);
        }
        true
    }

    /// The canonical encoding of this point.
    pub fn encode(&self) -> (r: Vec<u8>)
        ensures
            r@ == self.encoding(),
            r@ == g1_encoding(self@),
            r@.len() == POINT_BYTES,
            forall|q: Point| #[trigger] q.encoding() == r@ ==> q@ == self@,
    {
        proof {
            use_type_invariant(self);
        }
        self.bytes.clone()
    }
}

} // verus!
