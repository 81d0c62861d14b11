//! Tests of the affine backend against `curve25519-dalek` as the
//! independent reference implementation of the same curve group.

use curve25519_dalek::constants::ED25519_BASEPOINT_POINT;
use curve25519_dalek::edwards::EdwardsPoint as DalekPoint;
use curve25519_dalek::scalar::Scalar as DalekScalar;
use num_bigint::BigUint;
use rand::{Rng, RngExt};

use zkvm_edwards::constants::ed25519_basepoint;
use zkvm_edwards::edwards::{normalize, AffinePoint, EdwardsPoint};
use zkvm_edwards::field::{FieldElemetLimbs32, FieldElement};
use zkvm_edwards::scalar::Scalar;
use zkvm_edwards::scalar_mul::{variable_base, vartime_double_base};

/// The Edwards curve constant d as base-2^32 digits.
const D_LIMBS: [u32; 8] = [
    0x135978a3, 0x75eb4dca, 0x4141d8ab, 0x00700a4d,
    0x7779e898, 0x8cc74079, 0x2b6ffe73, 0x52036cee,
];

fn to_limbs(b: &BigUint) -> [u32; 8] {
    let mut out = [0u32; 8];
    for (i, digit) in b.to_u32_digits().into_iter().enumerate() {
        out[i] = digit;
    }
    out
}

/// Recovers the affine coordinates of a compressed point: the reference
/// decompression (square root of (y^2-1)/(d*y^2+1), sign from the top bit).
fn decompress_coords(bytes: [u8; 32]) -> ([u32; 8], [u32; 8]) {
    let p = (BigUint::from(1u32) << 255u32) - BigUint::from(19u32);
    let sign = (bytes[31] >> 7) & 1;
    let mut yb = bytes;
    yb[31] &= 0x7f;
    let y = BigUint::from_bytes_le(&yb);
    let d = BigUint::from_slice(&D_LIMBS);
    let yy = &y * &y % &p;
    let u = (&yy + &p - BigUint::from(1u32)) % &p;
    let v = (&yy * &d + BigUint::from(1u32)) % &p;
    let x2 = &u * v.modinv(&p).unwrap() % &p;
    let mut x = x2.modpow(&((&p + BigUint::from(3u32)) >> 3u32), &p);
    if &x * &x % &p != x2 {
        let sqrt_m1 = BigUint::from(2u32).modpow(&((&p - BigUint::from(1u32)) >> 2u32), &p);
        x = x * sqrt_m1 % &p;
    }
    if x.bit(0) as u8 != sign {
        x = &p - &x;
    }
    (to_limbs(&x), to_limbs(&y))
}

/// Carries a reference point over into this backend's extended
/// representation.
fn point_from_reference(p: &DalekPoint) -> EdwardsPoint {
    let (x, y) = decompress_coords(p.compress().to_bytes());
    let xfe = FieldElemetLimbs32::from_words(x).to_field_element();
    let yfe = FieldElemetLimbs32::from_words(y).to_field_element();
    let t = xfe.mul(&yfe);
    EdwardsPoint { X: xfe, Y: yfe, Z: FieldElement::one(), T: t }
}

/// The 32 little-endian bytes of a reduced eight-limb field encoding.
fn limb_bytes(limbs: &[u32; 8]) -> [u8; 32] {
    let mut out = [0u8; 32];
    for (i, limb) in limbs.iter().enumerate() {
        out[i * 4..(i + 1) * 4].copy_from_slice(&limb.to_le_bytes());
    }
    out
}

/// The compressed encoding of a normalized extended point: the
/// y-coordinate bytes with the x-coordinate's parity in the top bit.
fn compress(p: &EdwardsPoint) -> [u8; 32] {
    let mut out = limb_bytes(&p.Y.limbs);
    out[31] |= ((p.X.limbs[0] & 1) as u8) << 7;
    out
}

/// A uniformly random scalar below the group order, as canonical bytes.
fn random_scalar_bytes(rng: &mut impl Rng) -> [u8; 32] {
    let mut wide = [0u8; 32];
    rng.fill(&mut wide[..]);
    DalekScalar::from_bytes_mod_order(wide).to_bytes()
}

#[test]
fn test_affine_edwards_conversion() {
    let mut rng = rand::rng();
    let num_iters = 100;

    // Test the identity conversion.
    let identity = EdwardsPoint::identity();
    let identity_affine = AffinePoint::from_extended(&identity);
    assert_eq!(identity_affine, AffinePoint::identity());

    let identity_affine = AffinePoint::identity();
    let identity_back = identity_affine.to_extended();
    assert_eq!(identity_back, EdwardsPoint::identity());

    // Test conversions are inverses of each other.
    let base = ed25519_basepoint().to_extended();
    let bas_affine = AffinePoint::from_extended(&base);
    let base_back = bas_affine.to_extended();
    assert_eq!(base, base_back);
    for _ in 0..num_iters {
        let bytes = random_scalar_bytes(&mut rng);
        let p_ref = ED25519_BASEPOINT_POINT * DalekScalar::from_bytes_mod_order(bytes);
        let p = point_from_reference(&p_ref);
        assert_eq!(compress(&p), p_ref.compress().to_bytes());
        let p_affine = AffinePoint::from_extended(&p);
        let p_back = p_affine.to_extended();
        assert_eq!(p, p_back);
        let p_back_affine = AffinePoint::from_extended(&p_back);
        assert_eq!(p_affine, p_back_affine);
    }
}

#[test]
fn test_zkvm_add_assign() {
    let mut rng = rand::rng();
    let num_iters = 100;

    // Test identity + identity = identity.
    let mut p = AffinePoint::identity();
    let q = AffinePoint::identity();
    p.ed_add_assign(&q);
    assert_eq!(p, AffinePoint::identity());

    // Test compatibility with the reference Edwards arithmetic.
    for _ in 0..num_iters {
        let scalar_p = random_scalar_bytes(&mut rng);
        let scalar_q = random_scalar_bytes(&mut rng);
        let p_ref = ED25519_BASEPOINT_POINT * DalekScalar::from_bytes_mod_order(scalar_p);
        let q_ref = ED25519_BASEPOINT_POINT * DalekScalar::from_bytes_mod_order(scalar_q);
        let p = point_from_reference(&p_ref);
        let q = point_from_reference(&q_ref);
        let mut p_affine = AffinePoint::from_extended(&p);
        let q_affine = AffinePoint::from_extended(&q);
        p_affine.ed_add_assign(&q_affine);

        let p_plus_q = p_affine.to_extended();
        let expected = p_ref + q_ref;
        assert_eq!(compress(&p_plus_q), expected.compress().to_bytes());
    }
}

#[test]
fn test_zkvm_variable_base_mul() {
    let mut rng = rand::rng();
    let num_iters = 100;

    let id = EdwardsPoint::identity();
    for _ in 0..num_iters {
        let scalar_bytes = random_scalar_bytes(&mut rng);
        let scalar = Scalar::from_bytes(scalar_bytes);
        let id_times_scalar = variable_base::mul(&id, &scalar);
        assert_eq!(id_times_scalar, id);

        let point_bytes = random_scalar_bytes(&mut rng);
        let point_ref = ED25519_BASEPOINT_POINT * DalekScalar::from_bytes_mod_order(point_bytes);
        let point = point_from_reference(&point_ref);
        let multiple = variable_base::mul(&point, &scalar);
        let expected = point_ref * DalekScalar::from_bytes_mod_order(scalar_bytes);
        assert_eq!(compress(&multiple), expected.compress().to_bytes());
    }
}

#[test]
#[allow(non_snake_case)]
fn test_zkvm_variable_double_base_mul() {
    let mut rng = rand::rng();
    let num_iters = 100;

    for _ in 0..num_iters {
        let A_bytes = random_scalar_bytes(&mut rng);
        let A_ref = ED25519_BASEPOINT_POINT * DalekScalar::from_bytes_mod_order(A_bytes);
        let A = point_from_reference(&A_ref);

        let a_bytes = random_scalar_bytes(&mut rng);
        let b_bytes = random_scalar_bytes(&mut rng);

        let a_A_plus_b_B = vartime_double_base::mul(
            &Scalar::from_bytes(a_bytes),
            &A,
            &Scalar::from_bytes(b_bytes),
        );
        let expected = A_ref * DalekScalar::from_bytes_mod_order(a_bytes)
            + ED25519_BASEPOINT_POINT * DalekScalar::from_bytes_mod_order(b_bytes);
        assert_eq!(compress(&a_A_plus_b_B), expected.compress().to_bytes());
    }
}

#[test]
fn test_basepoint_matches_reference() {
    let base = ed25519_basepoint().to_extended();
    assert_eq!(compress(&base), ED25519_BASEPOINT_POINT.compress().to_bytes());
    let n = normalize(&base);
    assert_eq!(n, base);
}
