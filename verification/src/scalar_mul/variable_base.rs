//! Single-base scalar multiplication by double-and-add over an affine
//! point, driven by the scalar's bit sequence.

use vstd::prelude::*;
use crate::curve::{
    dbl_add, edwards_add, edwards_double, fmul, identity_pt, lemma_identity_add,
    lemma_identity_double, prime, reduced_pt,
};
use crate::edwards::{AffinePoint, EdwardsPoint};
use crate::scalar::{lemma_one_scalar_bits, lemma_zero_scalar_bits, Scalar};

verus! {

/// Base case: multiplying the identity point by any bit sequence yields
/// the identity.  The accumulator starts at the identity, every addition
/// adds the identity to it, and the running value stays the identity under
/// doubling.
pub proof fn lemma_mul_identity_point(bits: Seq<bool>)
    ensures
        dbl_add(identity_pt(), bits, identity_pt()) == identity_pt(),
    decreases bits.len(),
{
    if bits.len() > 0 {
        lemma_identity_add(identity_pt());
        lemma_identity_double();
        lemma_mul_identity_point(bits.drop_first());
    }
}

/// Base case: a pass over bits none of which is set never touches the
/// accumulator.
pub proof fn lemma_mul_no_bits(p: (int, int), bits: Seq<bool>, acc: (int, int))
    requires
        forall|i: int| 0 <= i < bits.len() ==> !bits[i],
    ensures
        dbl_add(p, bits, acc) == acc,
    decreases bits.len(),
{
    if bits.len() > 0 {
        assert(!bits[0]);
        lemma_mul_no_bits(edwards_double(p), bits.drop_first(), acc);
    }
}

/// Base case: multiplying any reduced point by the scalar zero yields the
/// identity.
pub proof fn lemma_mul_zero_scalar(p: (int, int), s: Scalar)
    requires
        s.val() == 0,
    ensures
        dbl_add(p, s.bits_model(), identity_pt()) == identity_pt(),
{
    lemma_zero_scalar_bits(s);
    lemma_mul_no_bits(p, s.bits_model(), identity_pt());
}

/// Base case: multiplying a reduced point by the scalar one yields the
/// point itself.
pub proof fn lemma_mul_one_scalar(p: (int, int), s: Scalar)
    requires
        s.val() == 1,
        reduced_pt(p),
    ensures
        dbl_add(p, s.bits_model(), identity_pt()) == p,
{
    lemma_one_scalar_bits(s);
    let bits = s.bits_model();
    lemma_identity_add(p);
    assert(dbl_add(p, bits, identity_pt()) == dbl_add(
        edwards_double(p),
        bits.drop_first(),
        edwards_add(identity_pt(), p),
    ));
    lemma_mul_no_bits(edwards_double(p), bits.drop_first(), p);
}

/// Multiply a normalized extended point by a scalar: convert to the affine
/// representation, run double-and-add over the scalar's 256 bits, and
/// convert the accumulator back to (already normalized) extended
/// coordinates.
pub fn mul(point: &EdwardsPoint, scalar: &Scalar) -> (r: EdwardsPoint)
    requires
        point.wf(),
        point.is_normalized(),
    ensures
        r.affine_model() == dbl_add(point.affine_model(), scalar.bits_model(), identity_pt()),
        r.Z.val() == 1,
        r.T.val() == fmul(r.X.val() as int, r.Y.val() as int),
        r.wf(),
        r.is_normalized(),
{
    let point = AffinePoint::from_extended(point);
    let acc = double_and_add(&point, scalar);
    acc.to_extended()
}

/// The double-and-add pass itself: scan the bits from least to most
/// significant, accumulating the running doubling value at every set bit
/// and doubling it after every bit.
pub fn double_and_add(point: &AffinePoint, scalar: &Scalar) -> (r: AffinePoint)
    requires
        point.wf(),
    ensures
        r.model() == dbl_add(point.model(), scalar.bits_model(), identity_pt()),
        r.wf(),
{
    let mut res = AffinePoint::identity();
    let mut temp: AffinePoint = *point;
    let bits = scalar.bits();
    proof {
        assert(scalar.bits_model().skip(0) =~= scalar.bits_model());
    }
    for i in 0..256usize
        invariant
            bits@.len() == 256,
            forall|j: int| 0 <= j < 256 ==> bits@[j] == (if scalar.bit(j) { 1u8 } else { 0u8 }),
            res.wf(),
            temp.wf(),
            dbl_add(point.model(), scalar.bits_model(), identity_pt()) == dbl_add(
                temp.model(),
                scalar.bits_model().skip(i as int),
                res.model(),
            ),
    {
        let ghost t0 = temp;
        let ghost r0 = res;
        if bits[i] == 1 {
            res.ed_add_assign(&temp);
        }
        temp.double();
        proof {
            let bs = scalar.bits_model().skip(i as int);
            assert(bs.len() == 256 - i);
            assert(bs[0] == scalar.bit(i as int));
            assert(bs.drop_first() =~= scalar.bits_model().skip(i as int + 1));
            assert(dbl_add(t0.model(), bs, r0.model()) == dbl_add(
                edwards_double(t0.model()),
                bs.drop_first(),
                if bs[0] {
                    edwards_add(r0.model(), t0.model())
                } else {
                    r0.model()
                },
            ));
        }
    }
    proof {
        assert(scalar.bits_model().skip(256).len() == 0);
        assert(dbl_add(temp.model(), scalar.bits_model().skip(256), res.model())
            == res.model());
    }
    res
}

} // verus!
