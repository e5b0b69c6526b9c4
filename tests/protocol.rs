use blake2::{Blake2b512, Digest};
use dlog_proof::challenge::get_hash;
use dlog_proof::point::{Point, POINT_BYTES};
use dlog_proof::protocol::{prove, prove_with_blinding, verify, Proof};
use dlog_proof::scalar::{decode_scalar, ProofError, Scalar};

const ORDER_LE: [u8; 32] = [
    0x01, 0x00, 0x00, 0x00, 0x00, 0x80, 0x11, 0x0a, 0x01, 0x00, 0x00, 0xd0, 0xfe, 0x76, 0xaa, 0x59,
    0x01, 0xb0, 0x37, 0x5c, 0x1e, 0x4d, 0xb4, 0x60, 0x56, 0xa5, 0x2c, 0x9a, 0x5e, 0x65, 0xab, 0x12,
];

fn order_minus_one() -> Scalar {
    let mut b = ORDER_LE;
    b[0] = 0;
    decode_scalar(&b).unwrap()
}

fn s(n: u64) -> Scalar {
    Scalar::from_u64(n)
}

#[test]
fn honest_proofs_verify() {
    for n in [0u64, 1, 2, 12345, u64::MAX] {
        assert!(verify(prove(&s(n)).unwrap()));
    }
    assert!(verify(prove(&order_minus_one()).unwrap()));
    assert!(verify(prove(&Scalar::random().unwrap()).unwrap()));
}

#[test]
fn proof_of_zero_commits_to_identity() {
    let p = prove(&Scalar::zero()).unwrap();
    assert_eq!(p.v_com, Point::identity());
    assert!(verify(p));
}

#[test]
fn blinding_is_fresh_per_proof() {
    let secret = s(42);
    let p1 = prove(&secret).unwrap();
    let p2 = prove(&secret).unwrap();
    assert_eq!(p1.v_com, p2.v_com);
    assert_ne!(p1.r_com, p2.r_com);
    assert_ne!(p1.pi, p2.pi);
    assert!(verify(p1));
    assert!(verify(p2));
}

#[test]
fn fixed_blinding_gives_the_same_proof() {
    let p1 = prove_with_blinding(&s(9), &s(77));
    let p2 = prove_with_blinding(&s(9), &s(77));
    assert_eq!(p1.r_com, Point::generator_mul(&s(77)));
    assert_eq!(p1.v_com, Point::generator_mul(&s(9)));
    let alpha = get_hash(&p1.r_com, &p1.v_com);
    assert_eq!(p1.pi, s(9).add(&alpha.mul(&s(77))));
    assert_eq!(p1.pi, p2.pi);
    assert!(verify(p1));
}

#[test]
fn shifted_response_is_rejected() {
    for d in [1u64, 2, 1000] {
        let p = prove(&s(5)).unwrap();
        let pi = p.pi.add(&s(d));
        assert!(!verify(Proof::new(p.v_com, p.r_com, pi)));
    }
    let p = prove(&s(5)).unwrap();
    let pi = p.pi.add(&order_minus_one());
    assert!(!verify(Proof::new(p.v_com, p.r_com, pi)));
}

#[test]
fn tampered_commitments_are_rejected() {
    let p = prove(&s(31)).unwrap();
    let other = Point::generator_mul(&s(32));
    assert!(!verify(Proof::new(other, p.r_com.clone(), p.pi.clone())));
    let other = Point::generator_mul(&s(7));
    assert!(!verify(Proof::new(p.v_com.clone(), other, p.pi.clone())));
    assert!(verify(p));
}

#[test]
fn challenge_is_deterministic() {
    let p = Point::generator_mul(&s(3));
    let q = Point::generator_mul(&s(4));
    assert_eq!(get_hash(&p, &q), get_hash(&p, &q));
    assert_eq!(get_hash(&p, &q), get_hash(&p.clone(), &Point::generator_mul(&s(4))));
}

#[test]
fn challenge_depends_on_order() {
    let p = Point::generator_mul(&s(3));
    let q = Point::generator_mul(&s(4));
    assert_ne!(get_hash(&p, &q), get_hash(&q, &p));
}

#[test]
fn challenge_is_masked_digest_prefix() {
    let p = Point::generator_mul(&s(11));
    let q = Point::identity();
    let mut data = p.encode();
    data.extend_from_slice(&q.encode());
    let digest = Blake2b512::digest(&data);
    let mut expected = digest[..32].to_vec();
    expected[31] = 0;
    let alpha = get_hash(&p, &q).to_bytes();
    assert_eq!(alpha, expected);
    let mut unhashed = p.encode()[..32].to_vec();
    unhashed[31] = 0;
    assert_ne!(alpha, unhashed);
}

#[test]
fn scalar_codec_round_trip() {
    for v in [s(0), s(1), s(0xdead_beef), order_minus_one(), Scalar::random().unwrap()] {
        let b = v.to_bytes();
        assert_eq!(b.len(), 32);
        assert_eq!(decode_scalar(&b), Ok(v));
    }
}

#[test]
fn scalar_encoding_is_little_endian() {
    let mut expected = vec![0u8; 32];
    expected[0] = 0x02;
    expected[1] = 0x01;
    assert_eq!(s(0x0102).to_bytes(), expected);
    assert_eq!(Scalar::zero().to_bytes(), vec![0u8; 32]);
}

#[test]
fn decode_reads_the_first_32_bytes() {
    let mut b = vec![0u8; 40];
    b[0] = 7;
    b[35] = 9;
    assert_eq!(decode_scalar(&b), Ok(s(7)));
}

#[test]
fn decode_refuses_short_buffer() {
    assert_eq!(decode_scalar(&[0u8; 31]), Err(ProofError::DeserializationError));
    assert_eq!(decode_scalar(&[]), Err(ProofError::DeserializationError));
}

#[test]
fn decode_refuses_values_not_below_the_order() {
    assert_eq!(decode_scalar(&ORDER_LE), Err(ProofError::DeserializationError));
    assert_eq!(decode_scalar(&[0xffu8; 32]), Err(ProofError::DeserializationError));
    let mut b = ORDER_LE;
    b[0] = 0;
    assert!(decode_scalar(&b).is_ok());
}

#[test]
fn scalar_arithmetic_is_modular() {
    assert_eq!(s(3).add(&s(4)), s(7));
    assert_eq!(s(3).mul(&s(4)), s(12));
    assert_eq!(order_minus_one().add(&s(1)), Scalar::zero());
    assert_eq!(order_minus_one().mul(&order_minus_one()), s(1));
    assert_eq!(s(u64::MAX).add(&s(1)).to_bytes()[8], 1);
}

#[test]
fn random_scalars_differ() {
    assert_ne!(Scalar::random().unwrap(), Scalar::random().unwrap());
}

#[test]
fn group_operations_follow_exponents() {
    let a = Point::generator_mul(&s(6));
    let b = Point::generator_mul(&s(8));
    assert_eq!(a.add(&b), Point::generator_mul(&s(14)));
    assert_eq!(a.mul(&s(5)), Point::generator_mul(&s(30)));
    assert_eq!(Point::generator_mul(&Scalar::zero()), Point::identity());
    assert_eq!(a.add(&Point::identity()), a);
    assert!(a.equals(&Point::generator_mul(&s(6))));
    assert!(!a.equals(&b));
    let neg = Point::generator_mul(&order_minus_one());
    assert_eq!(neg.add(&Point::generator_mul(&s(1))), Point::identity());
    assert_eq!(a.encode().len(), 48);
    assert_eq!(POINT_BYTES, 48);
    assert_eq!(Point::identity().encode().len(), 48);
    assert_ne!(a.encode(), b.encode());
}

#[test]
fn digest_prefix_is_masked_and_decoded() {
    let mut digest = vec![0xffu8; 64];
    digest[0] = 5;
    let mut expected = vec![0xffu8; 32];
    expected[0] = 5;
    expected[31] = 0;
    let c = dlog_proof::challenge::challenge_from_digest(&digest);
    assert_eq!(c.to_bytes(), expected);
    let mut zero = vec![0u8; 32];
    zero[31] = 0xff;
    assert_eq!(dlog_proof::challenge::challenge_from_digest(&zero), Scalar::zero());
}

#[test]
fn default_proof_is_identity_and_zero() {
    let p = Proof::default();
    assert_eq!(p.v_com, Point::identity());
    assert_eq!(p.r_com, Point::identity());
    assert_eq!(p.pi, Scalar::zero());
    assert!(verify(p));
}

#[test]
fn reduction_of_bytes_is_modular() {
    let mut b = ORDER_LE.to_vec();
    b[0] = 4;
    assert_eq!(Scalar::from_le_bytes_mod_order(&b), s(3));
    let mut wide = vec![0u8; 64];
    wide[0] = 9;
    assert_eq!(Scalar::from_le_bytes_mod_order(&wide), s(9));
    wide[32] = 1;
    assert_ne!(Scalar::from_le_bytes_mod_order(&wide), s(9));
}

#[test]
fn challenge_fits_in_248_bits() {
    let p = Point::generator_mul(&s(21));
    let q = Point::generator_mul(&s(22));
    assert_eq!(get_hash(&p, &q).to_bytes()[31], 0);
    assert_eq!(get_hash(&q, &p).to_bytes()[31], 0);
}

#[test]
fn identity_blinding_binds_commitment() {
    let v = Point::generator_mul(&s(5));
    let r = Point::identity();
    let alpha = get_hash(&r, &v);
    let pi = s(5).add(&alpha.mul(&Scalar::zero()));
    assert!(verify(Proof::new(v.clone(), r.clone(), pi.clone())));
    assert!(!verify(Proof::new(Point::generator_mul(&s(6)), r, pi)));
}
