//! The fixed points and field constants of the backend: the group identity
//! in its 16-word layout, the well-known Ed25519 generator, and the curve
//! constant d as a digit vector.

use vstd::prelude::*;
use crate::curve::{curve_d, fadd, fmul, fsub, identity_pt, on_curve, prime};
use crate::edwards::AffinePoint;
use crate::limbs::{lemma_limbs_val8, lemma_limbs_val_all_zero, limbs_val};
use vstd::arithmetic::div_mod::lemma_small_mod;

verus! {

/// The x-coordinate of the Ed25519 generator.
pub open spec fn basepoint_x() -> int {
    0x216936d3cd6e53fec0a4e231fdd6dc5c692cc7609525a7b2c9562d608f25d51aint
}

/// The y-coordinate of the Ed25519 generator, 4/5 in the field.
pub open spec fn basepoint_y() -> int {
    0x6666666666666666666666666666666666666666666666666666666666666658int
}

/// The Ed25519 generator as a model pair.
pub open spec fn basepoint_pt() -> (int, int) {
    (basepoint_x(), basepoint_y())
}

/// The identity's fixed limb pattern: x = 0, y = 1.
pub fn identity_point() -> (r: AffinePoint)
    ensures
        r.model() == identity_pt(),
        r.wf(),
{
    let limbs: [u32; 16] = [0, 0, 0, 0, 0, 0, 0, 0, 1, 0, 0, 0, 0, 0, 0, 0];
    proof {
        lemma_limbs_val_all_zero(limbs@.subrange(0, 8));
        lemma_limbs_val8(limbs@.subrange(8, 16));
    }
    AffinePoint::from_limbs(limbs)
}

/// The Ed25519 generator in the 16-word affine layout.
pub fn ed25519_basepoint() -> (r: AffinePoint)
    ensures
        r.model() == basepoint_pt(),
        r.wf(),
{
    let limbs: [u32; 16] = [
        0x8f25d51a, 0xc9562d60, 0x9525a7b2, 0x692cc760,
        0xfdd6dc5c, 0xc0a4e231, 0xcd6e53fe, 0x216936d3,
        0x66666658, 0x66666666, 0x66666666, 0x66666666,
        0x66666666, 0x66666666, 0x66666666, 0x66666666,
    ];
    proof {
        lemma_limbs_val8(limbs@.subrange(0, 8));
        lemma_limbs_val8(limbs@.subrange(8, 16));
    }
    AffinePoint::from_limbs(limbs)
}

/// Both fixed points of the backend satisfy the curve equation: the
/// identity trivially, the generator by evaluation of the field formula on
/// its coordinates.
pub proof fn lemma_fixed_points_on_curve()
    ensures
        on_curve(identity_pt()),
        on_curve(basepoint_pt()),
{
    lemma_small_mod(1, prime() as nat);
    assert(on_curve(identity_pt())) by {
        assert(fmul(1, 1) == 1);
        assert(fmul(0, 0) == 0);
        assert(fsub(1, 0) == 1);
        assert(fmul(curve_d(), fmul(0, 1)) == 0);
        assert(fadd(1, 0) == 1);
    }
    assert(on_curve(basepoint_pt())) by {
        let xx = fmul(basepoint_x(), basepoint_x());
        let yy = fmul(basepoint_y(), basepoint_y());
        assert(xx == 0x39e5a76b6f33fadbc92a232fdb1c32f2ebe39c555ccb6a7d690b8a0f82e81c67int);
        assert(yy == 0x51eb851eb851eb851eb851eb851eb851eb851eb851eb851eb851eb851eb851e0int);
        assert(fmul(xx, yy) == 0x43c62db565e3d3bfdce7c49981fd913f4f49fda745a0e7fe57b577142ad1fdaeint);
        assert(fmul(curve_d(), fmul(xx, yy))
            == 0x1805ddb3491df0a9558e2ebbaa02855effa18262f5201aa14f4661759bd03578int);
        assert(fsub(yy, xx) == 0x1805ddb3491df0a9558e2ebbaa02855effa18262f5201aa14f4661759bd03579int);
        assert(fadd(1, 0x1805ddb3491df0a9558e2ebbaa02855effa18262f5201aa14f4661759bd03578int)
            == 0x1805ddb3491df0a9558e2ebbaa02855effa18262f5201aa14f4661759bd03579int);
    }
}

/// The curve constant d as a digit vector.
pub(crate) fn curve_d_vec() -> (r: Vec<u32>)
    ensures
        limbs_val(r@) == curve_d(),
{
    let mut v: Vec<u32> = Vec::new();
    v.push(0x135978a3);
    v.push(0x75eb4dca);
    v.push(0x4141d8ab);
    v.push(0x00700a4d);
    v.push(0x7779e898);
    v.push(0x8cc74079);
    v.push(0x2b6ffe73);
    v.push(0x52036cee);
    proof {
        lemma_limbs_val8(v@);
    }
    v
}

} // verus!
