//! Field elements of the prime field of order 2^255 - 19, and the eight-word
//! little-endian limb codec through which they are encoded.

use vstd::prelude::*;
use crate::bigint::{big_add, big_modinv, big_mul, big_rem, big_sub};
use crate::curve::{fadd, finv, fmul, lemma_finv_witness, prime};
use crate::limbs::{lemma_fits_in_8, lemma_limbs_val8, lemma_limbs_val_zero_suffix, limbs_val};
use vstd::arithmetic::div_mod::lemma_mod_add_multiples_vanish;

verus! {

/// A word sequence of the wrong size was offered to the limb codec.
#[derive(Debug, Clone, Copy, PartialEq, Eq)]
pub struct LengthError;

/// A field element encoded as eight 32-bit words in radix 2^32, least
/// significant word first.  Pure data: the encoded integer need not be
/// reduced; reduction happens on decoding to a `FieldElement`.
#[derive(Debug, Clone, Copy, PartialEq, Eq)]
pub struct FieldElemetLimbs32(pub [u32; 8]);

/// An element of the field, held as its unique reduced eight-word encoding.
#[derive(Debug, Clone, Copy, PartialEq, Eq)]
pub struct FieldElement {
    pub limbs: [u32; 8],
}

impl FieldElemetLimbs32 {
    /// The integer the eight words encode.
    pub open spec fn val(self) -> nat {
        limbs_val(self.0@)
    }

    /// Wraps eight words as they stand; no validation, no reduction.
    pub fn from_words(words: [u32; 8]) -> (r: Self)
        ensures
            r.0 == words,
    {
        FieldElemetLimbs32(words)
    }

    /// Accepts exactly eight words; any other length is a recoverable
    /// length-mismatch error.
    pub fn try_from_slice(words: &[u32]) -> (r: Result<Self, LengthError>)
        ensures
            r is Ok <==> words@.len() == 8,
            r matches Ok(c) ==> c.0@ =~= words@,
    {
        if words.len() == 8 {
            let mut a: [u32; 8] = [0; 8];
            for i in 0..8
                invariant
                    words@.len() == 8,
                    forall|j: int| 0 <= j < i ==> a@[j] == words@[j],
            {
                a[i] = words[i];
            }
            assert(a@ =~= words@);
            Ok(FieldElemetLimbs32(a))
        } else {
            Err(LengthError)
        }
    }

    /// Decodes the words into a field element, reducing modulo the field
    /// order.
    pub fn to_field_element(&self) -> (r: FieldElement)
        ensures
            r.val() == self.val() as int % prime(),
            r.wf(),
    {
        let v = limbs8_to_vec(&self.0);
        let red = fe_reduce(&v);
        FieldElement { limbs: vec_to_limbs8(red) }
    }
}

impl FieldElement {
    /// The integer the reduced encoding holds.
    pub open spec fn val(self) -> nat {
        limbs_val(self.limbs@)
    }

    /// The encoding is reduced: its value lies below the field order.
    pub open spec fn wf(self) -> bool {
        self.val() < prime()
    }

    /// The additive identity of the field.
    pub fn zero() -> (r: Self)
        ensures
            r.val() == 0,
            r.wf(),
    {
        let limbs: [u32; 8] = [0, 0, 0, 0, 0, 0, 0, 0];
        proof {
            crate::limbs::lemma_limbs_val_all_zero(limbs@);
        }
        FieldElement { limbs }
    }

    /// The multiplicative identity of the field.
    pub fn one() -> (r: Self)
        ensures
            r.val() == 1,
            r.wf(),
    {
        let limbs: [u32; 8] = [1, 0, 0, 0, 0, 0, 0, 0];
        proof {
            lemma_limbs_val8(limbs@);
        }
        FieldElement { limbs }
    }

    /// The field product of two elements.
    pub fn mul(&self, rhs: &FieldElement) -> (r: FieldElement)
        ensures
            r.val() == fmul(self.val() as int, rhs.val() as int),
            r.wf(),
    {
        let a = limbs8_to_vec(&self.limbs);
        let b = limbs8_to_vec(&rhs.limbs);
        let prod = big_mul(&a, &b);
        let red = fe_reduce(&prod);
        FieldElement { limbs: vec_to_limbs8(red) }
    }

    /// The multiplicative inverse; zero, which has none, maps to zero.
    pub fn invert(&self) -> (r: FieldElement)
        ensures
            r.val() == finv(self.val() as int),
            r.wf(),
    {
        let b = limbs8_to_vec(&self.limbs);
        let out = fe_invm(&b);
        FieldElement { limbs: vec_to_limbs8(out) }
    }
}

/// The field order as a digit vector.
pub(crate) fn prime_vec() -> (r: Vec<u32>)
    ensures
        limbs_val(r@) == prime(),
        r@.len() == 8,
{
    let mut v: Vec<u32> = Vec::new();
    v.push(0xffffffed);
    v.push(0xffffffff);
    v.push(0xffffffff);
    v.push(0xffffffff);
    v.push(0xffffffff);
    v.push(0xffffffff);
    v.push(0xffffffff);
    v.push(0x7fffffff);
    proof {
        lemma_limbs_val8(v@);
    }
    v
}

/// The digit vector holding one.
pub(crate) fn one_vec() -> (r: Vec<u32>)
    ensures
        limbs_val(r@) == 1,
{
    let mut v: Vec<u32> = Vec::new();
    v.push(1);
    proof {
        assert(limbs_val(v@.drop_first()) == 0);
        assert(limbs_val(v@) == 1);
    }
    v
}

/// Pads a digit vector with zero words to exactly eight, keeping its value.
pub(crate) fn pad8(a: &Vec<u32>) -> (r: Vec<u32>)
    requires
        a@.len() <= 8,
    ensures
        r@.len() == 8,
        limbs_val(r@) == limbs_val(a@),
{
    let mut v: Vec<u32> = Vec::new();
    let n = a.len();
    for i in 0..8
        invariant
            n == a@.len() <= 8,
            v@.len() == i,
            forall|j: int| 0 <= j < i && j < n ==> v@[j] == a@[j],
            forall|j: int| n <= j < i ==> v@[j] == 0,
    {
        if i < n {
            v.push(a[i]);
        } else {
            v.push(0);
        }
    }
    proof {
        crate::limbs::lemma_limbs_val_zero_suffix(v@, n as int);
        assert(v@.take(n as int) =~= a@);
    }
    v
}

/// Copies an eight-word array into a digit vector.
pub(crate) fn limbs8_to_vec(a: &[u32; 8]) -> (r: Vec<u32>)
    ensures
        r@ =~= a@,
{
    let mut v: Vec<u32> = Vec::new();
    for i in 0..8
        invariant
            v@.len() == i,
            forall|j: int| 0 <= j < i ==> v@[j] == a@[j],
    {
        v.push(a[i]);
    }
    v
}

/// Pads a digit vector of at most eight words back into an eight-word
/// array; the appended zero words do not change the value.
pub(crate) fn vec_to_limbs8(v: Vec<u32>) -> (r: [u32; 8])
    requires
        v@.len() <= 8,
    ensures
        limbs_val(r@) == limbs_val(v@),
{
    let mut a: [u32; 8] = [0; 8];
    let n = v.len();
    for i in 0..n
        invariant
            n == v@.len() <= 8,
            a@.len() == 8,
            forall|j: int| 0 <= j < i ==> a@[j] == v@[j],
            forall|j: int| i <= j < 8 ==> a@[j] == 0,
    {
        a[i] = v[i];
    }
    proof {
        lemma_limbs_val_zero_suffix(a@, n as int);
        assert(a@.take(n as int) =~= v@);
    }
    a
}

/// Reduces a digit vector modulo the field order.
pub(crate) fn fe_reduce(a: &Vec<u32>) -> (r: Vec<u32>)
    ensures
        limbs_val(r@) == limbs_val(a@) as int % prime(),
        limbs_val(r@) < prime(),
        r@.len() <= 8,
{
    let m = prime_vec();
    let r = big_rem(a, &m);
    proof {
        lemma_fits_in_8(r@);
    }
    r
}

/// The field sum of two digit vectors.
pub(crate) fn fe_addm(a: &Vec<u32>, b: &Vec<u32>) -> (r: Vec<u32>)
    ensures
        limbs_val(r@) == fadd(limbs_val(a@) as int, limbs_val(b@) as int),
        limbs_val(r@) < prime(),
        r@.len() <= 8,
{
    let s = big_add(a, b);
    fe_reduce(&s)
}

/// The field difference of two digit vectors; the subtrahend must be
/// reduced so that adding one field order before subtracting cannot
/// underflow.
pub(crate) fn fe_subm(a: &Vec<u32>, b: &Vec<u32>) -> (r: Vec<u32>)
    requires
        limbs_val(b@) < prime(),
    ensures
        limbs_val(r@) == crate::curve::fsub(limbs_val(a@) as int, limbs_val(b@) as int),
        limbs_val(r@) < prime(),
        r@.len() <= 8,
{
    let m = prime_vec();
    let lifted = big_add(a, &m);
    let diff = big_sub(&lifted, b);
    let r = fe_reduce(&diff);
    proof {
        lemma_mod_add_multiples_vanish(limbs_val(a@) - limbs_val(b@), prime());
    }
    r
}

/// The field product of two digit vectors.
pub(crate) fn fe_mulm(a: &Vec<u32>, b: &Vec<u32>) -> (r: Vec<u32>)
    ensures
        limbs_val(r@) == fmul(limbs_val(a@) as int, limbs_val(b@) as int),
        limbs_val(r@) < prime(),
        r@.len() <= 8,
{
    let p = big_mul(a, b);
    fe_reduce(&p)
}

/// The field inverse of a digit vector; a value with no inverse — zero, in
/// this prime field — yields zero.
pub(crate) fn fe_invm(a: &Vec<u32>) -> (r: Vec<u32>)
    requires
        a@.len() <= 8,
    ensures
        limbs_val(r@) == finv(limbs_val(a@) as int),
        limbs_val(r@) < prime(),
        r@.len() <= 8,
{
    let m = prime_vec();
    let a8 = pad8(a);
    match big_modinv(&a8, &m) {
        Some(u) => {
            proof {
                lemma_finv_witness(limbs_val(a@) as int, limbs_val(u@) as int);
            }
            u
        },
        None => {
            let r: Vec<u32> = Vec::new();
            proof {
                assert(!crate::curve::has_inverse(limbs_val(a@) as int));
                assert(limbs_val(r@) == 0);
            }
            r
        },
    }
}

} // verus!
