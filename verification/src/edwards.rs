//! Edwards arithmetic that delegates the elliptic-curve group operation to a
//! host-environment primitive.  This lets different execution environments
//! choose the course of action that best suits their needs, e.g. a dedicated
//! circuit for the curve operations or a native implementation of the curve.
//!
//! # Point representation
//! As inversion is considered inexpensive in the context this backend runs
//! in, points are represented in affine coordinates, i.e. as a pair of field
//! elements `(x, y)`, packed into one contiguous 16-word buffer.

use vstd::prelude::*;
use crate::curve::{
    doubled, edwards_add, edwards_double, finv, fmul, identity_pt, prime,
};
use crate::field::{FieldElement, FieldElemetLimbs32};
use crate::limbs::limbs_val;
use vstd::arithmetic::div_mod::lemma_small_mod;
use crate::limbs::lemma_limbs_val_injective;

verus! {

broadcast use vstd::array::axiom_array_ext_equal;

/// The x-coordinate value of a 16-word point buffer: its first eight words.
pub open spec fn buf_x(s: Seq<u32>) -> nat {
    limbs_val(s.subrange(0, 8))
}

/// The y-coordinate value of a 16-word point buffer: its last eight words.
pub open spec fn buf_y(s: Seq<u32>) -> nat {
    limbs_val(s.subrange(8, 16))
}

/// The point a 16-word buffer encodes, as a model pair.
pub open spec fn buf_model(s: Seq<u32>) -> (int, int) {
    (buf_x(s) as int, buf_y(s) as int)
}

/// Both coordinate encodings are reduced below the field order.
pub open spec fn buf_wf(s: Seq<u32>) -> bool {
    buf_x(s) < prime() && buf_y(s) < prime()
}

/// An affine point on the Edwards curve.
///
/// The point is represented as sixteen 32-bit words in order to ensure a
/// contiguous memory layout: words 0-7 are the x-coordinate's limb encoding,
/// words 8-15 the y-coordinate's.  Whether the pair actually lies on the
/// curve is a precondition of normal use, not something the representation
/// checks.
#[derive(Copy, Clone, Debug, PartialEq, Eq)]
pub struct AffinePoint {
    pub limbs: [u32; 16],
}

impl AffinePoint {
    /// The x-coordinate value.
    pub open spec fn x_val(self) -> nat {
        buf_x(self.limbs@)
    }

    /// The y-coordinate value.
    pub open spec fn y_val(self) -> nat {
        buf_y(self.limbs@)
    }

    /// The point as a model pair.
    pub open spec fn model(self) -> (int, int) {
        buf_model(self.limbs@)
    }

    /// Both coordinate encodings are reduced.
    pub open spec fn wf(self) -> bool {
        buf_wf(self.limbs@)
    }

    /// Wraps a 16-word buffer as a point; pure construction, no validation.
    pub fn from_limbs(limbs: [u32; 16]) -> (r: Self)
        ensures
            r.limbs == limbs,
    {
        Self { limbs }
    }

    /// The group identity: x = 0, y = 1.
    pub fn identity() -> (r: Self)
        ensures
            r.model() == identity_pt(),
            r.wf(),
    {
        crate::constants::identity_point()
    }

    /// Get the x-coordinate of the point.
    pub fn x(&self) -> (r: FieldElemetLimbs32)
        ensures
            r.0@ =~= self.limbs@.subrange(0, 8),
            r.val() == self.x_val(),
    {
        let l = &self.limbs;
        FieldElemetLimbs32([l[0], l[1], l[2], l[3], l[4], l[5], l[6], l[7]])
    }

    /// Get the y-coordinate of the point.
    pub fn y(&self) -> (r: FieldElemetLimbs32)
        ensures
            r.0@ =~= self.limbs@.subrange(8, 16),
            r.val() == self.y_val(),
    {
        let l = &self.limbs;
        FieldElemetLimbs32([l[8], l[9], l[10], l[11], l[12], l[13], l[14], l[15]])
    }

    /// Accumulate `other` into `self` through the host addition primitive.
    /// `other` may hold the same value as `self`; that is the doubling case
    /// of the complete addition law.
    pub fn ed_add_assign(&mut self, other: &AffinePoint)
        requires
            old(self).wf(),
            other.wf(),
        ensures
            final(self).model() == edwards_add(old(self).model(), other.model()),
            final(self).wf(),
    {
        crate::host::ed_add(&mut self.limbs, &other.limbs);
    }

    /// Double the point in place, as self-addition under the complete law.
    pub fn double(&mut self)
        requires
            old(self).wf(),
        ensures
            final(self).model() == edwards_double(old(self).model()),
            final(self).wf(),
    {
        let q: [u32; 16] = self.limbs;
        crate::host::ed_add(&mut self.limbs, &q);
    }

    /// A copy of the point doubled `k` times; `k == 0` returns the point
    /// unchanged.
    pub fn mul_by_pow_2(&self, k: u32) -> (r: Self)
        requires
            self.wf(),
        ensures
            r.model() == doubled(self.model(), k as nat),
            r.wf(),
    {
        let mut tmp: AffinePoint = *self;
        for i in 0..k
            invariant
                tmp.wf(),
                tmp.model() == doubled(self.model(), i as nat),
        {
            tmp.double();
            proof {
                assert(doubled(self.model(), (i + 1) as nat)
                    == edwards_double(doubled(self.model(), i as nat)));
            }
        }
        tmp
    }

    /// Repack a normalized extended point into the 16-word affine buffer.
    /// The projective denominator must already be the field's one; callers
    /// normalize first.
    pub fn from_extended(value: &EdwardsPoint) -> (r: Self)
        requires
            value.wf(),
            value.is_normalized(),
        ensures
            r.limbs@.subrange(0, 8) =~= value.X.limbs@,
            r.limbs@.subrange(8, 16) =~= value.Y.limbs@,
            r.x_val() == value.X.val(),
            r.y_val() == value.Y.val(),
            r.wf(),
    {
        let x = &value.X.limbs;
        let y = &value.Y.limbs;
        let limbs: [u32; 16] = [
            x[0], x[1], x[2], x[3], x[4], x[5], x[6], x[7],
            y[0], y[1], y[2], y[3], y[4], y[5], y[6], y[7],
        ];
        proof {
            assert(limbs@.subrange(0, 8) =~= value.X.limbs@);
            assert(limbs@.subrange(8, 16) =~= value.Y.limbs@);
        }
        Self { limbs }
    }

    /// Rebuild an extended point from the two limb codecs: the projective
    /// denominator is set to one and the fourth coordinate to x*y, so the
    /// result is always already normalized.
    pub fn to_extended(&self) -> (r: EdwardsPoint)
        ensures
            r.X.val() == self.x_val() as int % prime(),
            r.Y.val() == self.y_val() as int % prime(),
            r.Z.val() == 1,
            r.T.val() == fmul(r.X.val() as int, r.Y.val() as int),
            r.wf(),
            r.is_normalized(),
            self.wf() ==> r.X.val() == self.x_val() && r.Y.val() == self.y_val(),
    {
        let x = self.x().to_field_element();
        let y = self.y().to_field_element();
        let t = x.mul(&y);
        proof {
            if self.wf() {
                lemma_small_mod(self.x_val(), prime() as nat);
                lemma_small_mod(self.y_val(), prime() as nat);
            }
        }
        EdwardsPoint { X: x, Y: y, Z: FieldElement::one(), T: t }
    }
}

/// A point on the curve in projective extended coordinates (X, Y, Z, T),
/// representing the affine point (X/Z, Y/Z) and satisfying X*Y = Z*T.
#[allow(non_snake_case)]
#[derive(Copy, Clone, Debug, PartialEq, Eq)]
pub struct EdwardsPoint {
    pub X: FieldElement,
    pub Y: FieldElement,
    pub Z: FieldElement,
    pub T: FieldElement,
}

impl EdwardsPoint {
    /// The affine point a normalized extended point stands for, as a model
    /// pair (X, Y).
    pub open spec fn affine_model(self) -> (int, int) {
        (self.X.val() as int, self.Y.val() as int)
    }

    /// Every coordinate encoding is reduced.
    pub open spec fn wf(self) -> bool {
        self.X.wf() && self.Y.wf() && self.Z.wf() && self.T.wf()
    }

    /// The projective denominator is the field's one.
    pub open spec fn is_normalized(self) -> bool {
        self.Z.val() == 1
    }

    /// The extended-coordinate invariant X*Y = Z*T over the field.
    pub open spec fn t_consistent(self) -> bool {
        fmul(self.X.val() as int, self.Y.val() as int)
            == fmul(self.Z.val() as int, self.T.val() as int)
    }

    /// The identity in extended coordinates: (0, 1, 1, 0).
    pub fn identity() -> (r: Self)
        ensures
            r.X.val() == 0,
            r.Y.val() == 1,
            r.Z.val() == 1,
            r.T.val() == 0,
            r.wf(),
            r.is_normalized(),
    {
        EdwardsPoint {
            X: FieldElement::zero(),
            Y: FieldElement::one(),
            Z: FieldElement::one(),
            T: FieldElement::zero(),
        }
    }
}

/// Round trip, affine side: a reduced affine point taken to extended
/// coordinates and repacked comes back exactly.  The hypotheses are what
/// `to_extended` ensures of `e` on a reduced point and what
/// `from_extended` ensures of `q2`; the conclusion is equality word for
/// word.
pub proof fn lemma_affine_round_trip(q: AffinePoint, e: EdwardsPoint, q2: AffinePoint)
    requires
        q.wf(),
        e.X.val() == q.x_val(),
        e.Y.val() == q.y_val(),
        q2.limbs@.subrange(0, 8) == e.X.limbs@,
        q2.limbs@.subrange(8, 16) == e.Y.limbs@,
    ensures
        q2 == q,
{
    lemma_limbs_val_injective(e.X.limbs@, q.limbs@.subrange(0, 8));
    lemma_limbs_val_injective(e.Y.limbs@, q.limbs@.subrange(8, 16));
    assert(q2.limbs@ =~= q.limbs@) by {
        assert forall|i: int| 0 <= i < 16 implies q2.limbs@[i] == q.limbs@[i] by {
            if i < 8 {
                assert(q2.limbs@.subrange(0, 8)[i] == q2.limbs@[i]);
                assert(q.limbs@.subrange(0, 8)[i] == q.limbs@[i]);
            } else {
                assert(q2.limbs@.subrange(8, 16)[i - 8] == q2.limbs@[i]);
                assert(q.limbs@.subrange(8, 16)[i - 8] == q.limbs@[i]);
            }
        }
    }
    assert(q2.limbs == q.limbs);
}

/// Round trip, extended side: a well-formed, normalized extended point
/// whose fourth coordinate satisfies the X*Y = Z*T invariant, converted to
/// the affine buffer and rebuilt, comes back exactly.  The hypotheses are
/// what `from_extended` ensures of `q` and what `to_extended` ensures of
/// `e2`.
pub proof fn lemma_extended_round_trip(e: EdwardsPoint, q: AffinePoint, e2: EdwardsPoint)
    requires
        e.wf(),
        e.is_normalized(),
        e.t_consistent(),
        q.x_val() == e.X.val(),
        q.y_val() == e.Y.val(),
        e2.X.val() == q.x_val() as int % prime(),
        e2.Y.val() == q.y_val() as int % prime(),
        e2.Z.val() == 1,
        e2.T.val() == fmul(e2.X.val() as int, e2.Y.val() as int),
        e2.wf(),
    ensures
        e2 == e,
{
    lemma_small_mod(e.X.val(), prime() as nat);
    lemma_small_mod(e.Y.val(), prime() as nat);
    lemma_small_mod(e.T.val(), prime() as nat);
    assert(fmul(e.Z.val() as int, e.T.val() as int) == e.T.val() as int % prime());
    assert(e2.T.val() == e.T.val());
    lemma_limbs_val_injective(e2.X.limbs@, e.X.limbs@);
    lemma_limbs_val_injective(e2.Y.limbs@, e.Y.limbs@);
    lemma_limbs_val_injective(e2.Z.limbs@, e.Z.limbs@);
    lemma_limbs_val_injective(e2.T.limbs@, e.T.limbs@);
    assert(e2.X.limbs == e.X.limbs);
    assert(e2.Y.limbs == e.Y.limbs);
    assert(e2.Z.limbs == e.Z.limbs);
    assert(e2.T.limbs == e.T.limbs);
}

/// Scale every coordinate by the inverse of the projective denominator, so
/// that the denominator becomes the field's one.
#[allow(non_snake_case)]
pub fn normalize(p: &EdwardsPoint) -> (r: EdwardsPoint)
    ensures
        r.X.val() == fmul(p.X.val() as int, finv(p.Z.val() as int)),
        r.Y.val() == fmul(p.Y.val() as int, finv(p.Z.val() as int)),
        r.Z.val() == 1,
        r.T.val() == fmul(p.T.val() as int, finv(p.Z.val() as int)),
        r.wf(),
        r.is_normalized(),
{
    let Z_inv = p.Z.invert();
    EdwardsPoint {
        X: p.X.mul(&Z_inv),
        Y: p.Y.mul(&Z_inv),
        Z: FieldElement::one(),
        T: p.T.mul(&Z_inv),
    }
}

} // verus!
