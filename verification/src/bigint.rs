//! Trusted boundary to outside big-integer arithmetic: the ring operations
//! of `num_bigint::BigUint` and the modular inversion of
//! `crypto_bigint::U256`.
//!
//! Every function here converts its arguments from base-2^32 digits, least
//! significant first, makes one arithmetic call, and converts the result
//! back to the same digit order (`BigUint::to_u32_digits` writes it with no
//! leading zero word).  The contracts state exactly the integer semantics
//! that the crates document for each operation.

use vstd::prelude::*;
use crate::curve::inverse_exists;
use crate::limbs::{limbs_val, no_leading_zero};
use crypto_bigint::{NonZero, U256};

verus! {

/// Relies on `num_bigint::BigUint`'s `+`: integer addition.
#[verifier::external_body]
pub(crate) fn big_add(a: &Vec<u32>, b: &Vec<u32>) -> (r: Vec<u32>)
    ensures
        limbs_val(r@) == limbs_val(a@) + limbs_val(b@),
        no_leading_zero(r@),
{
    let x = num_bigint::BigUint::from_slice(a.as_slice());
    let y = num_bigint::BigUint::from_slice(b.as_slice());
    (x + y).to_u32_digits()
}

/// Relies on `num_bigint::BigUint`'s `-`: integer subtraction, defined only
/// when it does not underflow (the crate panics otherwise).
#[verifier::external_body]
pub(crate) fn big_sub(a: &Vec<u32>, b: &Vec<u32>) -> (r: Vec<u32>)
    requires
        limbs_val(b@) <= limbs_val(a@),
    ensures
        limbs_val(r@) == limbs_val(a@) - limbs_val(b@),
        no_leading_zero(r@),
{
    let x = num_bigint::BigUint::from_slice(a.as_slice());
    let y = num_bigint::BigUint::from_slice(b.as_slice());
    (x - y).to_u32_digits()
}

/// Relies on `num_bigint::BigUint`'s `*`: integer multiplication.
#[verifier::external_body]
pub(crate) fn big_mul(a: &Vec<u32>, b: &Vec<u32>) -> (r: Vec<u32>)
    ensures
        limbs_val(r@) == limbs_val(a@) * limbs_val(b@),
        no_leading_zero(r@),
{
    let x = num_bigint::BigUint::from_slice(a.as_slice());
    let y = num_bigint::BigUint::from_slice(b.as_slice());
    (x * y).to_u32_digits()
}

/// Relies on `num_bigint::BigUint`'s `%`: the Euclidean remainder, defined
/// for a non-zero modulus (the crate panics on division by zero).
#[verifier::external_body]
pub(crate) fn big_rem(a: &Vec<u32>, m: &Vec<u32>) -> (r: Vec<u32>)
    requires
        limbs_val(m@) > 0,
    ensures
        limbs_val(r@) == limbs_val(a@) % limbs_val(m@),
        no_leading_zero(r@),
{
    let x = num_bigint::BigUint::from_slice(a.as_slice());
    let y = num_bigint::BigUint::from_slice(m.as_slice());
    (x % y).to_u32_digits()
}

/// Relies on `crypto_bigint::U256::invert_mod`: the multiplicative inverse
/// of `self` modulo a modulus greater than one, reduced into `[0, modulus)`;
/// the outcome is some exactly when an inverse exists.  A modulus of one is
/// excluded: modulo one the call returns some with value zero, whose product
/// with anything is zero, never one.  Both arguments enter as exactly eight
/// base-2^32 digits and the result leaves the same way.
#[verifier::external_body]
pub(crate) fn big_modinv(a: &Vec<u32>, m: &Vec<u32>) -> (r: Option<Vec<u32>>)
    requires
        a@.len() == 8,
        m@.len() == 8,
        limbs_val(m@) > 1,
    ensures
        r matches Some(u) ==> {
            &&& limbs_val(u@) < limbs_val(m@)
            &&& (limbs_val(a@) * limbs_val(u@)) as int % (limbs_val(m@) as int) == 1
            &&& u@.len() == 8
        },
        r is None ==> !inverse_exists(limbs_val(a@) as int, limbs_val(m@) as int),
{
    let (mut ab, mut mb) = ([0u8; 32], [0u8; 32]);
    for i in 0..8 {
        ab[i * 4..i * 4 + 4].copy_from_slice(&a[i].to_le_bytes());
        mb[i * 4..i * 4 + 4].copy_from_slice(&m[i].to_le_bytes());
    }
    let md = NonZero::new(U256::from_le_slice(&mb)).unwrap();
    U256::from_le_slice(&ab).invert_mod(&md).into_option().map(|u| {
        let b = u.to_le_bytes();
        b.as_ref().chunks(4).map(|c| u32::from_le_bytes([c[0], c[1], c[2], c[3]])).collect()
    })
}

} // verus!
