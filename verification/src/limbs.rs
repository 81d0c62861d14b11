//! The value of a little-endian sequence of 32-bit words, and the facts about
//! that encoding that the point representation relies on.

use vstd::prelude::*;
use vstd::arithmetic::div_mod::lemma_fundamental_div_mod_converse;
use vstd::arithmetic::power::{pow, lemma_pow_strictly_increases};
use vstd::arithmetic::mul::lemma_mul_inequality;

verus! {

/// The integer encoded by `s` read as base-2^32 digits, least significant
/// word first.
pub open spec fn limbs_val(s: Seq<u32>) -> nat
    decreases s.len(),
{
    if s.len() == 0 {
        0
    } else {
        s[0] as nat + 0x1_0000_0000 * limbs_val(s.drop_first())
    }
}

/// No leading zero word: the form in which a digit sequence is unique for
/// its value.  The empty sequence stands for zero.
pub open spec fn no_leading_zero(s: Seq<u32>) -> bool {
    s.len() == 0 || s[s.len() - 1] != 0
}

/// A sequence all of whose words are zero encodes zero.
pub proof fn lemma_limbs_val_all_zero(s: Seq<u32>)
    requires
        forall|i: int| 0 <= i < s.len() ==> s[i] == 0,
    ensures
        limbs_val(s) == 0,
    decreases s.len(),
{
    if s.len() > 0 {
        lemma_limbs_val_all_zero(s.drop_first());
    }
}

/// Words beyond index `k` that are all zero do not change the encoded value.
pub proof fn lemma_limbs_val_zero_suffix(s: Seq<u32>, k: int)
    requires
        0 <= k <= s.len(),
        forall|i: int| k <= i < s.len() ==> s[i] == 0,
    ensures
        limbs_val(s) == limbs_val(s.take(k)),
    decreases s.len(),
{
    if s.len() == 0 {
        assert(s.take(k) =~= s);
    } else if k == 0 {
        lemma_limbs_val_all_zero(s);
        assert(s.take(0) =~= Seq::<u32>::empty());
    } else {
        lemma_limbs_val_zero_suffix(s.drop_first(), k - 1);
        assert(s.take(k).drop_first() =~= s.drop_first().take(k - 1));
        assert(s.take(k)[0] == s[0]);
    }
}

/// With a non-zero top word, the encoded value is at least 2^32 raised to one
/// less than the number of words.
pub proof fn lemma_limbs_val_lower_bound(s: Seq<u32>)
    requires
        s.len() > 0,
        s[s.len() - 1] != 0,
    ensures
        limbs_val(s) >= pow(0x1_0000_0000, (s.len() - 1) as nat),
    decreases s.len(),
{
    reveal(pow);
    if s.len() == 1 {
        assert(pow(0x1_0000_0000, 0) == 1);
    } else {
        let t = s.drop_first();
        lemma_limbs_val_lower_bound(t);
        lemma_mul_inequality(
            pow(0x1_0000_0000, (t.len() - 1) as nat),
            limbs_val(t) as int,
            0x1_0000_0000,
        );
        assert(pow(0x1_0000_0000, (s.len() - 1) as nat)
            == 0x1_0000_0000 * pow(0x1_0000_0000, (t.len() - 1) as nat));
    }
}

/// A normalized digit sequence (no leading zero word) of value below
/// 2^(32*k) has at most `k` words.
pub proof fn lemma_normalized_len_bound(s: Seq<u32>, k: nat)
    requires
        s.len() == 0 || s[s.len() - 1] != 0,
        limbs_val(s) < pow(0x1_0000_0000, k),
    ensures
        s.len() <= k,
{
    if s.len() > k {
        lemma_limbs_val_lower_bound(s);
        if (s.len() - 1) as nat != k {
            lemma_pow_strictly_increases(0x1_0000_0000, k, (s.len() - 1) as nat);
        }
    }
}

/// A normalized digit sequence whose value fits in 256 bits has at most
/// eight words.
pub proof fn lemma_fits_in_8(s: Seq<u32>)
    requires
        no_leading_zero(s),
        limbs_val(s)
            < 0x1_0000_0000_0000_0000_0000_0000_0000_0000_0000_0000_0000_0000_0000_0000_0000_0000int,
    ensures
        s.len() <= 8,
{
    reveal_with_fuel(pow, 9);
    assert(pow(0x1_0000_0000, 8)
        == 0x1_0000_0000_0000_0000_0000_0000_0000_0000_0000_0000_0000_0000_0000_0000_0000_0000int);
    lemma_normalized_len_bound(s, 8);
}

/// Two word sequences of the same length encoding the same value are equal.
pub proof fn lemma_limbs_val_injective(a: Seq<u32>, b: Seq<u32>)
    requires
        a.len() == b.len(),
        limbs_val(a) == limbs_val(b),
    ensures
        a =~= b,
    decreases a.len(),
{
    if a.len() > 0 {
        let v = limbs_val(a) as int;
        lemma_fundamental_div_mod_converse(
            v,
            0x1_0000_0000,
            limbs_val(a.drop_first()) as int,
            a[0] as int,
        );
        lemma_fundamental_div_mod_converse(
            v,
            0x1_0000_0000,
            limbs_val(b.drop_first()) as int,
            b[0] as int,
        );
        lemma_limbs_val_injective(a.drop_first(), b.drop_first());
        assert(a[0] == b[0]);
        assert forall|i: int| 0 <= i < a.len() implies a[i] == b[i] by {
            if i > 0 {
                assert(a.drop_first()[i - 1] == b.drop_first()[i - 1]);
            }
        }
    }
}

/// The closed form of the value of an eight-word sequence.
pub proof fn lemma_limbs_val8(s: Seq<u32>)
    requires
        s.len() == 8,
    ensures
        limbs_val(s) == s[0] as nat
            + s[1] as nat * 0x1_0000_0000
            + s[2] as nat * 0x1_0000_0000_0000_0000
            + s[3] as nat * 0x1_0000_0000_0000_0000_0000_0000
            + s[4] as nat * 0x1_0000_0000_0000_0000_0000_0000_0000_0000
            + s[5] as nat * 0x1_0000_0000_0000_0000_0000_0000_0000_0000_0000_0000
            + s[6] as nat * 0x1_0000_0000_0000_0000_0000_0000_0000_0000_0000_0000_0000_0000
            + s[7] as nat * 0x1_0000_0000_0000_0000_0000_0000_0000_0000_0000_0000_0000_0000_0000_0000,
{
    let s1 = s.drop_first();
    let s2 = s1.drop_first();
    let s3 = s2.drop_first();
    let s4 = s3.drop_first();
    let s5 = s4.drop_first();
    let s6 = s5.drop_first();
    let s7 = s6.drop_first();
    assert(s1 =~= s.skip(1));
    assert(s2 =~= s.skip(2));
    assert(s3 =~= s.skip(3));
    assert(s4 =~= s.skip(4));
    assert(s5 =~= s.skip(5));
    assert(s6 =~= s.skip(6));
    assert(s7 =~= s.skip(7));
    assert(s7.drop_first().len() == 0);
    assert(limbs_val(s7.drop_first()) == 0);
    assert(limbs_val(s7) == s[7] as nat);
    assert(limbs_val(s6) == s[6] as nat + 0x1_0000_0000 * limbs_val(s7));
    assert(limbs_val(s5) == s[5] as nat + 0x1_0000_0000 * limbs_val(s6));
    assert(limbs_val(s4) == s[4] as nat + 0x1_0000_0000 * limbs_val(s5));
    assert(limbs_val(s3) == s[3] as nat + 0x1_0000_0000 * limbs_val(s4));
    assert(limbs_val(s2) == s[2] as nat + 0x1_0000_0000 * limbs_val(s3));
    assert(limbs_val(s1) == s[1] as nat + 0x1_0000_0000 * limbs_val(s2));
    assert(limbs_val(s) == s[0] as nat + 0x1_0000_0000 * limbs_val(s1));
}

} // verus!
