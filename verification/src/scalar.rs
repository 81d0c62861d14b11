//! Scalars as consumed by this backend: 32 little-endian bytes, read only
//! through their 256-entry bit sequence, least significant bit first.

use vstd::prelude::*;

verus! {

/// The integer encoded by `s` read as base-256 digits, least significant
/// byte first.
pub open spec fn bytes_val(s: Seq<u8>) -> nat
    decreases s.len(),
{
    if s.len() == 0 {
        0
    } else {
        s[0] as nat + 256 * bytes_val(s.drop_first())
    }
}

/// A scalar held as its 32-byte little-endian encoding.
#[derive(Copy, Clone, Debug, PartialEq, Eq)]
pub struct Scalar {
    pub bytes: [u8; 32],
}

impl Scalar {
    /// The integer the bytes encode.
    pub open spec fn val(self) -> nat {
        bytes_val(self.bytes@)
    }

    /// Bit `i` of the encoded integer.
    pub open spec fn bit(self, i: int) -> bool {
        ((self.bytes@[i / 8] as u32) >> ((i % 8) as u32)) & 1 == 1
    }

    /// The 256-entry bit sequence, least significant bit first.
    pub open spec fn bits_model(self) -> Seq<bool> {
        Seq::new(256, |i: int| self.bit(i))
    }

    /// Wraps 32 bytes as a scalar.
    pub fn from_bytes(bytes: [u8; 32]) -> (r: Self)
        ensures
            r.bytes == bytes,
    {
        Scalar { bytes }
    }

    /// The bit sequence of the scalar as zeroes and ones, least significant
    /// bit first.
    pub fn bits(&self) -> (r: Vec<u8>)
        ensures
            r@.len() == 256,
            forall|i: int| 0 <= i < 256 ==> r@[i] == (if self.bit(i) { 1u8 } else { 0u8 }),
    {
        let mut v: Vec<u8> = Vec::new();
        for i in 0..256usize
            invariant
                v@.len() == i,
                forall|j: int| 0 <= j < i ==> v@[j] == (if self.bit(j) { 1u8 } else { 0u8 }),
        {
            let byte = self.bytes[i / 8];
            let b: u8 = (((byte as u32) >> ((i % 8) as u32)) & 1) as u8;
            proof {
                assert(((byte as u32) >> ((i % 8) as u32)) & 1 < 2) by (bit_vector);
            }
            v.push(b);
        }
        v
    }
}

/// A scalar of value zero has no set bit.
pub proof fn lemma_zero_scalar_bits(s: Scalar)
    requires
        s.val() == 0,
    ensures
        forall|i: int| 0 <= i < 256 ==> !s.bit(i),
{
    lemma_bytes_val_zero(s.bytes@);
    assert forall|i: int| 0 <= i < 256 implies !s.bit(i) by {
        assert(s.bytes@[i / 8] == 0);
        let sh = (i % 8) as u32;
        assert((0u32 >> sh) & 1 != 1) by (bit_vector);
    }
}

/// A scalar of value one has exactly its lowest bit set.
pub proof fn lemma_one_scalar_bits(s: Scalar)
    requires
        s.val() == 1,
    ensures
        s.bit(0),
        forall|i: int| 1 <= i < 256 ==> !s.bit(i),
{
    lemma_bytes_val_one(s.bytes@);
    assert(s.bit(0)) by {
        assert(s.bytes@[0] == 1);
        assert(((1u8 as u32) >> 0u32) & 1 == 1) by (bit_vector);
    }
    assert forall|i: int| 1 <= i < 256 implies !s.bit(i) by {
        if i < 8 {
            assert(s.bytes@[i / 8] == 1);
            let sh = (i % 8) as u32;
            assert(1 <= sh < 8 ==> ((1u8 as u32) >> sh) & 1 != 1) by (bit_vector);
        } else {
            assert(s.bytes@[i / 8] == 0);
            let sh = (i % 8) as u32;
            assert((0u32 >> sh) & 1 != 1) by (bit_vector);
        }
    }
}

/// Only the all-zero byte sequence encodes zero.
proof fn lemma_bytes_val_zero(s: Seq<u8>)
    requires
        bytes_val(s) == 0,
    ensures
        forall|i: int| 0 <= i < s.len() ==> s[i] == 0,
    decreases s.len(),
{
    if s.len() > 0 {
        lemma_bytes_val_zero(s.drop_first());
        assert forall|i: int| 0 <= i < s.len() implies s[i] == 0 by {
            if i > 0 {
                assert(s.drop_first()[i - 1] == 0);
            }
        }
    }
}

/// Only the sequence with first byte one and the rest zero encodes one.
proof fn lemma_bytes_val_one(s: Seq<u8>)
    requires
        bytes_val(s) == 1,
        s.len() > 0,
    ensures
        s[0] == 1,
        forall|i: int| 1 <= i < s.len() ==> s[i] == 0,
{
    lemma_bytes_val_zero(s.drop_first());
    assert forall|i: int| 1 <= i < s.len() implies s[i] == 0 by {
        assert(s.drop_first()[i - 1] == 0);
    }
}

} // verus!
