//! The prover and the verifier.
use vstd::prelude::*;
use vstd::arithmetic::div_mod::{lemma_add_mod_noop, lemma_add_mod_noop_right, lemma_small_mod};
use crate::challenge::{challenge, get_hash};
use crate::point::Point;
use crate::scalar::{field_order, ProofError, Scalar};

verus! {

/// The verification equation: the generator taken `pi` times equals the
/// point of discrete logarithm `v` plus the point of discrete logarithm `r`
/// taken `challenge(r, v)` times.
pub open spec fn accepts(v: nat, r: nat, pi: nat) -> bool {
    pi % field_order() == (v + challenge(r, v) * r) % field_order()
}

/// The response for the secret `x` under the blinding `r`.
pub open spec fn response(x: nat, r: nat) -> nat {
    (x + challenge(r, x) * r) % field_order()
}

/// A proof of knowledge of the discrete logarithm of `v_com`.
#[derive(Debug)]
pub struct Proof {
    /// Commitment to the secret: the generator taken `secret` times.
    pub v_com: Point,
    /// Commitment to the blinding scalar.
    pub r_com: Point,
    /// The response.
    pub pi: Scalar,
}

impl Default for Proof {
    /// The proof whose three parts are the identity and zero.
    fn default() -> (r: Proof)
        ensures
            r.v_com@ == 0,
            r.r_com@ == 0,
            r.pi@ == 0,
    {
        Proof { v_com: Point::identity(), r_com: Point::identity(), pi: Scalar::zero() }
    }
}

impl Proof {
    /// The proof made of the given parts.
    pub fn new(v_com: Point, r_com: Point, pi: Scalar) -> (r: Proof)
        ensures
            r.v_com@ == v_com@,
            r.r_com@ == r_com@,
            r.pi@ == pi@,
    {
        Proof { v_com, r_com, pi }
    }
}

/// Proves knowledge of `secret` with the blinding scalar `r`, which must be
/// drawn afresh and uniformly for each proof.
pub fn prove_with_blinding(secret: &Scalar, r: &Scalar) -> (p: Proof)
    ensures
        p.v_com@ == secret@,
        p.r_com@ == r@,
        p.pi@ == response(secret@, r@),
        accepts(p.v_com@, p.r_com@, p.pi@),
{
    let r_com = Point::generator_mul(r);
    let v_com = Point::generator_mul(secret);
    let alpha = get_hash(&r_com, &v_com);
    let pi = secret.add(&alpha.mul(r));
    proof {
        lemma_response_accepted(secret@, r@);
        lemma_add_mod_noop_right(secret@ as int, (alpha@ * r@) as int, field_order() as int);
        assert(alpha@ * r@ == challenge(r@, secret@) * r@);
    }
    Proof { v_com, r_com, pi }
}

/// Proves knowledge of `secret`, with a blinding scalar drawn from the
/// operating system's generator; fails only where that generator fails.
pub fn prove(secret: &Scalar) -> (r: Result<Proof, ProofError>)
    ensures
        match r {
            Ok(p) => {
                &&& p.v_com@ == secret@
                &&& p.pi@ == response(secret@, p.r_com@)
                &&& accepts(p.v_com@, p.r_com@, p.pi@)
            },
            Err(e) => e == ProofError::RandomSourceError,
        },
{
    let blinding = Scalar::random()?;
    Ok(prove_with_blinding(secret, &blinding))
}

/// Checks the verification equation of `proof`.
pub fn verify(proof: Proof) -> (r: bool)
    ensures
        r == accepts(proof.v_com@, proof.r_com@, proof.pi@),
{
    let actual = Point::generator_mul(&proof.pi);
    let alpha = get_hash(&proof.r_com, &proof.v_com);
    let mult = proof.r_com.mul(&alpha);
    let expected = proof.v_com.add(&mult);
    proof {
        let m = field_order() as int;
        lemma_add_mod_noop_right(proof.v_com@ as int, (proof.r_com@ * alpha@) as int, m);
        assert(proof.r_com@ * alpha@ == challenge(proof.r_com@, proof.v_com@) * proof.r_com@)
            by (nonlinear_arith)
            requires
                alpha@ == challenge(proof.r_com@, proof.v_com@),
        ;
        lemma_small_mod(proof.pi@, field_order());
    }
    actual.equals(&expected)
}

/// Completeness: an honestly made proof is accepted, whatever the secret and
/// the blinding scalar.
pub proof fn lemma_response_accepted(x: nat, r: nat)
    ensures
        accepts(x, r, response(x, r)),
{
    lemma_small_mod(0, field_order());
    assert(response(x, r) % field_order() == response(x, r)) by {
        lemma_small_mod(response(x, r), field_order());
    }
}

/// An accepted response, shifted by anything that is not a multiple of the
/// field order, is rejected.
pub proof fn lemma_shifted_response_rejected(v: nat, r: nat, pi: nat, d: nat)
    requires
        accepts(v, r, pi),
        d % field_order() != 0,
    ensures
        !accepts(v, r, pi + d),
{
    let m = field_order() as int;
    lemma_add_mod_noop(pi as int, d as int, m);
    let x = pi as int % m;
    let y = d as int % m;
    assert(0 <= x < m && 0 < y < m);
    if x + y < m {
        lemma_small_mod((x + y) as nat, m as nat);
    } else {
        assert((x + y) % m == x + y - m) by {
            vstd::arithmetic::div_mod::lemma_mod_add_multiples_vanish(x + y - m, m);
            lemma_small_mod((x + y - m) as nat, m as nat);
        }
    }
}

/// With the identity as blinding commitment, at most one commitment to a
/// secret is accepted for a given response.
pub proof fn lemma_identity_blinding_binds_commitment(v: nat, w: nat, pi: nat)
    requires
        v < field_order(),
        w < field_order(),
        v != w,
        accepts(v, 0, pi),
    ensures
        !accepts(w, 0, pi),
{
    lemma_small_mod(v, field_order());
    lemma_small_mod(w, field_order());
    assert(challenge(0, v) * 0 == 0);
    assert(challenge(0, w) * 0 == 0);
}

} // verus!
