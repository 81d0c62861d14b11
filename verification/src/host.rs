//! The host acceleration interface: accumulate one 16-word affine point
//! buffer into another under the curve's complete addition law.
//!
//! This function is the single substitution point between the algorithms of
//! this backend and the execution environment.  Its contract — the complete
//! addition law on reduced coordinate pairs — is what every algorithm above
//! it is proved against; an environment with a dedicated circuit or native
//! instruction for the curve may stand in for this reference implementation
//! as long as it meets the same contract.  Real hosts are only ever handed
//! buffers that encode points genuinely on the curve.

use vstd::prelude::*;
use crate::bigint::big_modinv;
use crate::curve::{edwards_add, lemma_batch_inverse};
use crate::edwards::{buf_model, buf_wf, buf_x, buf_y};
use crate::field::{fe_addm, fe_invm, fe_mulm, fe_subm, one_vec, pad8, prime_vec, vec_to_limbs8};
use crate::limbs::limbs_val;

verus! {

/// The first eight words of a point buffer as a digit vector.
fn buf_x_vec(a: &[u32; 16]) -> (r: Vec<u32>)
    ensures
        r@ =~= a@.subrange(0, 8),
{
    let mut v: Vec<u32> = Vec::new();
    for i in 0..8
        invariant
            v@.len() == i,
            forall|j: int| 0 <= j < i ==> v@[j] == a@[j],
    {
        v.push(a[i]);
    }
    v
}

/// The last eight words of a point buffer as a digit vector.
fn buf_y_vec(a: &[u32; 16]) -> (r: Vec<u32>)
    ensures
        r@ =~= a@.subrange(8, 16),
{
    let mut v: Vec<u32> = Vec::new();
    for i in 0..8
        invariant
            v@.len() == i,
            forall|j: int| 0 <= j < i ==> v@[j] == a@[j + 8],
    {
        v.push(a[i + 8]);
    }
    v
}

/// Overwrite `p` with the curve-group sum of the points encoded by `p` and
/// `q`, under the complete Edwards addition law.  The law is complete: it
/// needs no branch for the identity or for equal operands, so `q` may hold
/// the same words as `p` (doubling).
pub fn ed_add(p: &mut [u32; 16], q: &[u32; 16])
    requires
        buf_wf(old(p)@),
        buf_wf(q@),
    ensures
        buf_model(final(p)@) == edwards_add(buf_model(old(p)@), buf_model(q@)),
        buf_wf(final(p)@),
{
    let cur: [u32; 16] = *p;
    let x1 = buf_x_vec(&cur);
    let y1 = buf_y_vec(&cur);
    let x2 = buf_x_vec(q);
    let y2 = buf_y_vec(q);

    let x1y2 = fe_mulm(&x1, &y2);
    let x2y1 = fe_mulm(&x2, &y1);
    let xn = fe_addm(&x1y2, &x2y1);

    let x1x2 = fe_mulm(&x1, &x2);
    let y1y2 = fe_mulm(&y1, &y2);
    let yn = fe_addm(&y1y2, &x1x2);

    let t = fe_mulm(&x1x2, &y1y2);
    let d = crate::constants::curve_d_vec();
    let dt = fe_mulm(&d, &t);

    let one = one_vec();
    let den_x = fe_addm(&one, &dt);
    let den_y = fe_subm(&one, &dt);

    // One inversion serves both denominators: an inverse witness for their
    // product gives each one's inverse after one more multiplication.  Only
    // when the product has no inverse (a denominator is zero, which cannot
    // happen for curve points) does each denominator get its own inversion.
    let dxdy = pad8(&fe_mulm(&den_x, &den_y));
    let m = prime_vec();
    let (inv_x, inv_y): (Vec<u32>, Vec<u32>) = match big_modinv(&dxdy, &m) {
        Some(z) => {
            proof {
                lemma_batch_inverse(
                    limbs_val(den_x@) as int,
                    limbs_val(den_y@) as int,
                    limbs_val(z@) as int,
                );
            }
            (fe_mulm(&z, &den_y), fe_mulm(&z, &den_x))
        },
        None => (fe_invm(&den_x), fe_invm(&den_y)),
    };
    let x3 = fe_mulm(&xn, &inv_x);
    let y3 = fe_mulm(&yn, &inv_y);

    let xa = vec_to_limbs8(x3);
    let ya = vec_to_limbs8(y3);
    let out: [u32; 16] = [
        xa[0], xa[1], xa[2], xa[3], xa[4], xa[5], xa[6], xa[7],
        ya[0], ya[1], ya[2], ya[3], ya[4], ya[5], ya[6], ya[7],
    ];
    proof {
        assert(out@.subrange(0, 8) =~= xa@);
        assert(out@.subrange(8, 16) =~= ya@);
    }
    *p = out;
}

} // verus!
