//! Deterministic tests of the limb codec, the identity and base-case laws,
//! doubling consistency, the scalar bit view, and the multiscalar stub.

use zkvm_edwards::constants::ed25519_basepoint;
use zkvm_edwards::edwards::AffinePoint;
use zkvm_edwards::field::{FieldElemetLimbs32, FieldElement};
use zkvm_edwards::scalar::Scalar;
use zkvm_edwards::scalar_mul::pippenger::Pippenger;
use zkvm_edwards::scalar_mul::variable_base;

fn scalar_from_u64(n: u64) -> Scalar {
    let mut bytes = [0u8; 32];
    bytes[..8].copy_from_slice(&n.to_le_bytes());
    Scalar::from_bytes(bytes)
}

#[test]
fn identity_laws() {
    let id = AffinePoint::identity();
    let base = ed25519_basepoint();

    let mut p = AffinePoint::identity();
    p.ed_add_assign(&id);
    assert_eq!(p, id);

    let mut p = base;
    p.ed_add_assign(&id);
    assert_eq!(p, base);

    let mut p = AffinePoint::identity();
    p.ed_add_assign(&base);
    assert_eq!(p, base);
}

#[test]
fn doubling_consistency() {
    let base = ed25519_basepoint();
    let mut doubled = base;
    for k in 0..10u32 {
        assert_eq!(base.mul_by_pow_2(k), doubled);
        doubled.double();
    }
    // mul_by_pow_2 does not mutate its receiver.
    assert_eq!(base, ed25519_basepoint());
}

#[test]
fn doubling_matches_scalar_mul() {
    let base = ed25519_basepoint();
    let base_ext = base.to_extended();
    for k in 0..8u32 {
        let by_doubling = base.mul_by_pow_2(k).to_extended();
        let by_scalar = variable_base::mul(&base_ext, &scalar_from_u64(1u64 << k));
        assert_eq!(by_doubling, by_scalar);
    }
}

#[test]
fn scalar_mul_base_cases() {
    let base = ed25519_basepoint().to_extended();
    let id = zkvm_edwards::edwards::EdwardsPoint::identity();

    assert_eq!(variable_base::mul(&base, &scalar_from_u64(0)), id);
    assert_eq!(variable_base::mul(&base, &scalar_from_u64(1)), base);
    assert_eq!(variable_base::mul(&id, &scalar_from_u64(12345)), id);
}

#[test]
fn limb_codec_from_words_and_slices() {
    let words: [u32; 8] = [1, 2, 3, 4, 5, 6, 7, 8];
    let codec = FieldElemetLimbs32::from_words(words);
    assert_eq!(codec.0, words);

    let ok = FieldElemetLimbs32::try_from_slice(&words[..]);
    assert_eq!(ok, Ok(codec));

    let short = FieldElemetLimbs32::try_from_slice(&words[..7]);
    assert!(short.is_err());

    let long = [0u32; 9];
    let too_long = FieldElemetLimbs32::try_from_slice(&long[..]);
    assert!(too_long.is_err());
}

#[test]
fn limb_codec_decodes_with_reduction() {
    // The field order itself reduces to zero ...
    let p_words: [u32; 8] = [
        0xffffffed, 0xffffffff, 0xffffffff, 0xffffffff,
        0xffffffff, 0xffffffff, 0xffffffff, 0x7fffffff,
    ];
    let zero = FieldElemetLimbs32::from_words(p_words).to_field_element();
    assert_eq!(zero, FieldElement::zero());

    // ... and one more than the field order reduces to one.
    let mut p_plus_1 = p_words;
    p_plus_1[0] += 1;
    let one = FieldElemetLimbs32::from_words(p_plus_1).to_field_element();
    assert_eq!(one, FieldElement::one());

    // A reduced value decodes unchanged.
    let small: [u32; 8] = [42, 0, 0, 0, 0, 0, 0, 0];
    let fe = FieldElemetLimbs32::from_words(small).to_field_element();
    assert_eq!(fe.limbs, small);
}

#[test]
fn point_accessors_slice_the_buffer() {
    let mut limbs = [0u32; 16];
    for (i, limb) in limbs.iter_mut().enumerate() {
        *limb = i as u32;
    }
    let p = AffinePoint::from_limbs(limbs);
    assert_eq!(p.x().0, [0, 1, 2, 3, 4, 5, 6, 7]);
    assert_eq!(p.y().0, [8, 9, 10, 11, 12, 13, 14, 15]);
    assert_eq!(p.limbs, limbs);
}

#[test]
fn identity_limb_pattern() {
    let id = AffinePoint::identity();
    assert_eq!(id.limbs, [0, 0, 0, 0, 0, 0, 0, 0, 1, 0, 0, 0, 0, 0, 0, 0]);
    let ext = id.to_extended();
    assert_eq!(ext.X, FieldElement::zero());
    assert_eq!(ext.Y, FieldElement::one());
    assert_eq!(ext.Z, FieldElement::one());
    assert_eq!(ext.T, FieldElement::zero());
}

#[test]
fn scalar_bit_sequence() {
    let s = scalar_from_u64(0b1010_0101);
    let bits = s.bits();
    assert_eq!(bits.len(), 256);
    assert_eq!(&bits[..8], &[1, 0, 1, 0, 0, 1, 0, 1]);
    assert!(bits[8..].iter().all(|&b| b == 0));

    let top = Scalar::from_bytes([0x80; 32]);
    let top_bits = top.bits();
    assert_eq!(top_bits[255], 1);
    assert_eq!(top_bits[254], 0);
}

#[test]
fn multiscalar_stub_reports_unsupported() {
    let scalars = vec![scalar_from_u64(3)];
    let points = vec![Some(ed25519_basepoint().to_extended())];
    assert!(Pippenger::optional_multiscalar_mul(&scalars, &points).is_err());

    let no_scalars: Vec<Scalar> = Vec::new();
    let no_points: Vec<Option<zkvm_edwards::edwards::EdwardsPoint>> = Vec::new();
    assert!(Pippenger::optional_multiscalar_mul(&no_scalars, &no_points).is_err());
}

#[test]
fn double_base_with_zero_second_scalar_matches_single_base() {
    let base = ed25519_basepoint().to_extended();
    let a = scalar_from_u64(987654321);
    let single = variable_base::mul(&base, &a);
    let double_base =
        zkvm_edwards::scalar_mul::vartime_double_base::mul(&a, &base, &scalar_from_u64(0));
    assert_eq!(double_base, single);
}
