//! Double-base scalar multiplication `a*A + b*B` in variable time, where
//! `B` is the fixed Ed25519 generator: one synchronized double-and-add pass
//! over both scalars' bit sequences.

use vstd::prelude::*;
use crate::constants::{basepoint_pt, ed25519_basepoint};
use crate::curve::{dbl_add, dbl_add2, edwards_add, edwards_double, fmul, identity_pt, prime};
use crate::edwards::{AffinePoint, EdwardsPoint};
use crate::scalar::Scalar;

verus! {

/// With no set bit on the second base, the lock-step pass degenerates to the
/// single-base pass over the first: `a*A + 0*B` is computed exactly as
/// `a*A`.
pub proof fn lemma_double_base_zero_second(
    pa: (int, int),
    pb: (int, int),
    abits: Seq<bool>,
    bbits: Seq<bool>,
    acc: (int, int),
)
    requires
        abits.len() == bbits.len(),
        forall|i: int| 0 <= i < bbits.len() ==> !bbits[i],
    ensures
        dbl_add2(pa, pb, abits, bbits, acc) == dbl_add(pa, abits, acc),
    decreases abits.len(),
{
    if abits.len() > 0 {
        assert(!bbits[0]);
        let acc_a = if abits[0] { edwards_add(acc, pa) } else { acc };
        lemma_double_base_zero_second(
            edwards_double(pa),
            edwards_double(pb),
            abits.drop_first(),
            bbits.drop_first(),
            acc_a,
        );
    }
}

/// Compute `a*A + b*B` in variable time, where `B` is the Ed25519
/// generator and `A` a normalized extended point.
#[allow(non_snake_case)]
pub fn mul(a: &Scalar, A: &EdwardsPoint, b: &Scalar) -> (r: EdwardsPoint)
    requires
        A.wf(),
        A.is_normalized(),
    ensures
        r.affine_model() == dbl_add2(
            A.affine_model(),
            basepoint_pt(),
            a.bits_model(),
            b.bits_model(),
            identity_pt(),
        ),
        r.Z.val() == 1,
        r.T.val() == fmul(r.X.val() as int, r.Y.val() as int),
        r.wf(),
        r.is_normalized(),
{
    let A = AffinePoint::from_extended(A);
    let acc = double_and_add_base(a, &A, b);
    acc.to_extended()
}

/// The lock-step pass: both bit sequences are scanned together from least
/// to most significant bit; each running doubling value is accumulated at
/// its scalar's set bits, and both are doubled after every position.  The
/// two sequences here are always 256 bits long; were they of unequal
/// length, the pass would stop at the shorter one.
#[allow(non_snake_case)]
pub fn double_and_add_base(a: &Scalar, A: &AffinePoint, b: &Scalar) -> (r: AffinePoint)
    requires
        A.wf(),
    ensures
        r.model() == dbl_add2(
            A.model(),
            basepoint_pt(),
            a.bits_model(),
            b.bits_model(),
            identity_pt(),
        ),
        r.wf(),
{
    let mut res = AffinePoint::identity();
    let mut temp_A: AffinePoint = *A;
    let mut temp_B = ed25519_basepoint();
    let a_bits = a.bits();
    let b_bits = b.bits();
    proof {
        assert(a.bits_model().skip(0) =~= a.bits_model());
        assert(b.bits_model().skip(0) =~= b.bits_model());
    }
    for i in 0..256usize
        invariant
            a_bits@.len() == 256,
            b_bits@.len() == 256,
            forall|j: int| 0 <= j < 256 ==> a_bits@[j] == (if a.bit(j) { 1u8 } else { 0u8 }),
            forall|j: int| 0 <= j < 256 ==> b_bits@[j] == (if b.bit(j) { 1u8 } else { 0u8 }),
            res.wf(),
            temp_A.wf(),
            temp_B.wf(),
            dbl_add2(A.model(), basepoint_pt(), a.bits_model(), b.bits_model(), identity_pt())
                == dbl_add2(
                temp_A.model(),
                temp_B.model(),
                a.bits_model().skip(i as int),
                b.bits_model().skip(i as int),
                res.model(),
            ),
    {
        let ghost ta0 = temp_A;
        let ghost tb0 = temp_B;
        let ghost r0 = res;
        if a_bits[i] == 1 {
            res.ed_add_assign(&temp_A);
        }
        if b_bits[i] == 1 {
            res.ed_add_assign(&temp_B);
        }
        temp_A.double();
        temp_B.double();
        proof {
            let abs = a.bits_model().skip(i as int);
            let bbs = b.bits_model().skip(i as int);
            assert(abs[0] == a.bit(i as int));
            assert(bbs[0] == b.bit(i as int));
            assert(abs.drop_first() =~= a.bits_model().skip(i as int + 1));
            assert(bbs.drop_first() =~= b.bits_model().skip(i as int + 1));
            let acc_a = if abs[0] {
                edwards_add(r0.model(), ta0.model())
            } else {
                r0.model()
            };
            let acc_ab = if bbs[0] {
                edwards_add(acc_a, tb0.model())
            } else {
                acc_a
            };
            assert(dbl_add2(ta0.model(), tb0.model(), abs, bbs, r0.model()) == dbl_add2(
                edwards_double(ta0.model()),
                edwards_double(tb0.model()),
                abs.drop_first(),
                bbs.drop_first(),
                acc_ab,
            ));
        }
    }
    proof {
        assert(a.bits_model().skip(256).len() == 0);
        assert(dbl_add2(
            temp_A.model(),
            temp_B.model(),
            a.bits_model().skip(256),
            b.bits_model().skip(256),
            res.model(),
        ) == res.model());
    }
    res
}

} // verus!
