//! Mathematical model of the curve: the prime field of order 2^255 - 19, the
//! complete twisted-Edwards addition law, and the double-and-add recurrences
//! that the scalar-multiplication algorithms are proved against.
//!
//! A point is modelled as a pair of field values `(x, y)`.  The addition law
//! is the complete formula
//! `x3 = (x1*y2 + x2*y1) / (1 + d*x1*x2*y1*y2)`,
//! `y3 = (y1*y2 + x1*x2) / (1 - d*x1*x2*y1*y2)`,
//! with division taken as multiplication by the modular inverse.

use vstd::prelude::*;
use vstd::arithmetic::div_mod::{
    lemma_mul_mod_noop_left, lemma_mul_mod_noop_right, lemma_small_mod,
};
use vstd::arithmetic::mul::lemma_mul_is_associative;

verus! {

/// The order of the base field, 2^255 - 19.
pub open spec fn prime() -> int {
    0x7fffffffffffffffffffffffffffffffffffffffffffffffffffffffffffffedint
}

/// The Edwards curve constant d = -121665/121666 in the base field.
pub open spec fn curve_d() -> int {
    0x52036cee2b6ffe738cc740797779e89800700a4d4141d8ab75eb4dca135978a3int
}

/// Field addition: the sum reduced into `[0, p)`.
pub open spec fn fadd(a: int, b: int) -> int {
    (a + b) % prime()
}

/// Field subtraction: the difference reduced into `[0, p)`.
pub open spec fn fsub(a: int, b: int) -> int {
    (a - b) % prime()
}

/// Field multiplication: the product reduced into `[0, p)`.
pub open spec fn fmul(a: int, b: int) -> int {
    (a * b) % prime()
}

/// The product of `a` and `x` reduced modulo `m`: the shape in which the
/// existence of modular inverses is quantified.
pub open spec fn mul_mod(a: int, x: int, m: int) -> int {
    (a * x) % m
}

/// Some value in `[0, m)` multiplies with `a` to one modulo `m`.
pub open spec fn inverse_exists(a: int, m: int) -> bool {
    exists|x: int| 0 <= x < m && #[trigger] mul_mod(a, x, m) == 1
}

/// Some field value multiplies with `a` to one.
pub open spec fn has_inverse(a: int) -> bool {
    inverse_exists(a, prime())
}

/// The modular inverse of `a`: the unique field value whose product with `a`
/// is one.  A value with no inverse — zero, in a prime field — is mapped to
/// zero.
pub open spec fn finv(a: int) -> int {
    if has_inverse(a) {
        choose|x: int| 0 <= x < prime() && #[trigger] mul_mod(a, x, prime()) == 1
    } else {
        0
    }
}

/// Both coordinates lie in `[0, p)`.
pub open spec fn reduced_pt(p: (int, int)) -> bool {
    &&& 0 <= p.0 < prime()
    &&& 0 <= p.1 < prime()
}

/// The point satisfies the twisted Edwards curve equation
/// `-x^2 + y^2 = 1 + d*x^2*y^2` over the field.
pub open spec fn on_curve(p: (int, int)) -> bool {
    fsub(fmul(p.1, p.1), fmul(p.0, p.0)) == fadd(1, fmul(
        curve_d(),
        fmul(fmul(p.0, p.0), fmul(p.1, p.1)),
    ))
}

/// The group identity `(0, 1)`.
pub open spec fn identity_pt() -> (int, int) {
    (0int, 1int)
}

/// The complete Edwards addition law on point models.
pub open spec fn edwards_add(p: (int, int), q: (int, int)) -> (int, int) {
    let t = fmul(fmul(p.0, q.0), fmul(p.1, q.1));
    let dt = fmul(curve_d(), t);
    let xn = fadd(fmul(p.0, q.1), fmul(q.0, p.1));
    let yn = fadd(fmul(p.1, q.1), fmul(p.0, q.0));
    (fmul(xn, finv(fadd(1, dt))), fmul(yn, finv(fsub(1, dt))))
}

/// Doubling is self-addition under the complete law.
pub open spec fn edwards_double(p: (int, int)) -> (int, int) {
    edwards_add(p, p)
}

/// `p` doubled `k` times in sequence.
pub open spec fn doubled(p: (int, int), k: nat) -> (int, int)
    decreases k,
{
    if k == 0 {
        p
    } else {
        edwards_double(doubled(p, (k - 1) as nat))
    }
}

/// One double-and-add pass over a little-endian bit sequence: for each set
/// bit the running power of two of `p` is accumulated into `acc`, and `p`
/// is doubled after every bit.
pub open spec fn dbl_add(p: (int, int), bits: Seq<bool>, acc: (int, int)) -> (int, int)
    decreases bits.len(),
{
    if bits.len() == 0 {
        acc
    } else {
        dbl_add(
            edwards_double(p),
            bits.drop_first(),
            if bits[0] { edwards_add(acc, p) } else { acc },
        )
    }
}

/// The lock-step double-base pass: both bit sequences are scanned together,
/// stopping at the shorter one, accumulating the running doublings of `pa`
/// and `pb` for their respective set bits.
pub open spec fn dbl_add2(
    pa: (int, int),
    pb: (int, int),
    abits: Seq<bool>,
    bbits: Seq<bool>,
    acc: (int, int),
) -> (int, int)
    decreases abits.len(),
{
    if abits.len() == 0 || bbits.len() == 0 {
        acc
    } else {
        let acc_a = if abits[0] { edwards_add(acc, pa) } else { acc };
        let acc_ab = if bbits[0] { edwards_add(acc_a, pb) } else { acc_a };
        dbl_add2(
            edwards_double(pa),
            edwards_double(pb),
            abits.drop_first(),
            bbits.drop_first(),
            acc_ab,
        )
    }
}

/// A field value has at most one inverse: two witnesses coincide.
pub proof fn lemma_inverse_unique(a: int, u: int, v: int)
    requires
        0 <= u < prime(),
        0 <= v < prime(),
        fmul(a, u) == 1,
        fmul(a, v) == 1,
    ensures
        u == v,
{
    lemma_small_mod(u as nat, prime() as nat);
    lemma_small_mod(v as nat, prime() as nat);
    lemma_mul_mod_noop_right(u, a * v, prime());
    lemma_mul_mod_noop_right(v, a * u, prime());
    lemma_mul_is_associative(u, a, v);
    lemma_mul_is_associative(v, a, u);
    lemma_mul_mod_noop_left(u * a, v, prime());
    lemma_mul_mod_noop_left(v * a, u, prime());
    assert((u * a) % prime() == 1 && (v * a) % prime() == 1) by {
        assert(u * a == a * u && v * a == a * v) by (nonlinear_arith);
    }
    assert(u == (u * (a * v)) % prime());
    assert(v == (v * (a * u)) % prime());
    assert(u * (a * v) == v * (a * u)) by (nonlinear_arith);
}

/// A found witness is the inverse: `finv` returns exactly it.
pub proof fn lemma_finv_witness(a: int, u: int)
    requires
        0 <= u < prime(),
        fmul(a, u) == 1,
    ensures
        finv(a) == u,
{
    assert(mul_mod(a, u, prime()) == 1);
    assert(has_inverse(a));
    let x = choose|x: int| 0 <= x < prime() && #[trigger] mul_mod(a, x, prime()) == 1;
    lemma_inverse_unique(a, x, u);
}

/// One is its own inverse.
pub proof fn lemma_finv_one()
    ensures
        finv(1) == 1,
{
    lemma_small_mod(1, prime() as nat);
    assert(fmul(1, 1) == 1);
    lemma_finv_witness(1, 1);
}

/// A single inverse serves for two denominators: from one witness `z` for
/// the product `dx*dy`, the products `z*dy` and `z*dx` are the inverses of
/// `dx` and `dy` respectively.
pub proof fn lemma_batch_inverse(dx: int, dy: int, z: int)
    requires
        0 <= z < prime(),
        fmul(fmul(dx, dy), z) == 1,
    ensures
        finv(dx) == fmul(z, dy),
        finv(dy) == fmul(z, dx),
{
    let m = prime();
    lemma_mul_mod_noop_left(dx * dy, z, m);
    assert(((dx * dy) * z) % m == 1);
    assert(fmul(dx, fmul(z, dy)) == 1) by {
        lemma_mul_mod_noop_right(dx, z * dy, m);
        assert(dx * (z * dy) == (dx * dy) * z) by (nonlinear_arith);
    }
    lemma_finv_witness(dx, fmul(z, dy));
    assert(fmul(dy, fmul(z, dx)) == 1) by {
        lemma_mul_mod_noop_right(dy, z * dx, m);
        assert(dy * (z * dx) == (dx * dy) * z) by (nonlinear_arith);
    }
    lemma_finv_witness(dy, fmul(z, dx));
}

/// The identity law of the complete formula: adding the identity on either
/// side returns the other operand unchanged, and in particular the sum of
/// the identity with itself is the identity.
pub proof fn lemma_identity_add(p: (int, int))
    requires
        reduced_pt(p),
    ensures
        edwards_add(identity_pt(), p) == p,
        edwards_add(p, identity_pt()) == p,
        edwards_add(identity_pt(), identity_pt()) == identity_pt(),
{
    lemma_finv_one();
    lemma_small_mod(1, prime() as nat);
    lemma_small_mod(p.0 as nat, prime() as nat);
    lemma_small_mod(p.1 as nat, prime() as nat);
    assert(edwards_add(identity_pt(), p) == p) by {
        assert(fmul(0, p.0) == 0);
        assert(fmul(1, p.1) == p.1);
        assert(fmul(0, p.1) == 0);
        assert(fmul(p.0, 1) == p.0);
        assert(fadd(0, p.0) == p.0);
        assert(fadd(p.1, 0) == p.1);
        assert(fadd(1, 0) == 1);
        assert(fsub(1, 0) == 1);
        assert(fmul(p.0, 1) == p.0);
        assert(fmul(p.1, 1) == p.1);
    }
    assert(edwards_add(p, identity_pt()) == p) by {
        assert(fmul(p.0, 0) == 0);
        assert(fmul(p.1, 1) == p.1);
        assert(fadd(fmul(p.0, 1), fmul(0, p.1)) == p.0);
        assert(fadd(p.1, 0) == p.1);
        assert(fadd(1, fmul(curve_d(), fmul(0, p.1))) == 1);
        assert(fsub(1, fmul(curve_d(), fmul(0, p.1))) == 1);
    }
    assert(reduced_pt(identity_pt()));
}

/// Doubling consistency: the `k`-fold doubling is exactly `double` applied
/// `k` times in sequence — doubling once more lands on the `k+1`-fold
/// doubling, whether the extra double comes first or last, and zero
/// doublings leave the point unchanged.
pub proof fn lemma_doubled_consistency(p: (int, int), k: nat)
    ensures
        doubled(p, 0) == p,
        doubled(p, k + 1) == edwards_double(doubled(p, k)),
        doubled(p, k + 1) == doubled(edwards_double(p), k),
    decreases k,
{
    if k == 0 {
        assert(doubled(p, 1) == edwards_double(doubled(p, 0)));
        assert(doubled(edwards_double(p), 0) == edwards_double(p));
    } else {
        lemma_doubled_consistency(p, (k - 1) as nat);
        lemma_doubled_consistency(edwards_double(p), (k - 1) as nat);
    }
}

/// The identity is a fixed point of doubling.
pub proof fn lemma_identity_double()
    ensures
        edwards_double(identity_pt()) == identity_pt(),
{
    lemma_identity_add(identity_pt());
}

} // verus!
