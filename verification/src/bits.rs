//! Big-endian bit-level access to byte buffers.
//!
//! All multi-bit fields of the formats handled by this crate are read
//! most-significant-bit first.  `bits_value` is the mathematical meaning of a
//! run of bits, and `BitReader` is the executable cursor proved against it.

use vstd::prelude::*;
use vstd::arithmetic::power2::{pow2, lemma_pow2_unfold, lemma_pow2_adds, lemma_pow2_pos, lemma2_to64, lemma2_to64_rest};

verus! {

/// The bit at (big-endian) position `i` of the buffer: bit 0 is the most
/// significant bit of byte 0.
pub open spec fn bit_at(b: Seq<u8>, i: nat) -> nat {
    ((b[i as int / 8] >> ((7 - (i % 8)) as u8)) & 1) as nat
}

/// The unsigned value of the `w` bits starting at bit position `pos`,
/// most-significant bit first.
pub open spec fn bits_value(b: Seq<u8>, pos: nat, w: nat) -> nat
    decreases w,
{
    if w == 0 {
        0
    } else {
        bits_value(b, pos, (w - 1) as nat) * 2 + bit_at(b, (pos + w - 1) as nat)
    }
}

pub proof fn lemma_bit_at_le_1(b: Seq<u8>, i: nat)
    ensures
        bit_at(b, i) <= 1,
{
    let byte = b[i as int / 8];
    let sh = (7 - (i % 8)) as u8;
    assert((byte >> sh) & 1 <= 1) by (bit_vector);
}

pub proof fn lemma_bits_value_bound(b: Seq<u8>, pos: nat, w: nat)
    ensures
        bits_value(b, pos, w) < pow2(w),
    decreases w,
{
    if w == 0 {
        assert(pow2(0) == 1) by { lemma2_to64(); }
    } else {
        lemma_bits_value_bound(b, pos, (w - 1) as nat);
        lemma_bit_at_le_1(b, (pos + w - 1) as nat);
        lemma_pow2_unfold(w);
    }
}

/// Reading `w1 + w2` bits equals reading `w1` bits, then `w2` bits after them.
pub proof fn lemma_bits_value_split(b: Seq<u8>, pos: nat, w1: nat, w2: nat)
    ensures
        bits_value(b, pos, w1 + w2) == bits_value(b, pos, w1) * pow2(w2) + bits_value(
            b,
            pos + w1,
            w2,
        ),
    decreases w2,
{
    if w2 == 0 {
        assert(pow2(0) == 1) by { lemma2_to64(); }
    } else {
        lemma_bits_value_split(b, pos, w1, (w2 - 1) as nat);
        lemma_pow2_unfold(w2);
        let v1 = bits_value(b, pos, w1);
        let vr = bits_value(b, pos + w1, (w2 - 1) as nat);
        let bit = bit_at(b, (pos + w1 + w2 - 1) as nat);
        assert(bits_value(b, pos, w1 + w2) == bits_value(b, pos, (w1 + w2 - 1) as nat) * 2
            + bit);
        assert(bits_value(b, pos, (w1 + w2 - 1) as nat) == v1 * pow2((w2 - 1) as nat) + vr);
        assert((v1 * pow2((w2 - 1) as nat) + vr) * 2 == v1 * (pow2((w2 - 1) as nat) * 2) + vr
            * 2) by (nonlinear_arith);
    }
}

/// Bits only depend on the bytes they fall in: equal prefixes give equal values.
pub proof fn lemma_bits_value_agree(b1: Seq<u8>, b2: Seq<u8>, pos: nat, w: nat)
    requires
        pos + w <= 8 * b1.len(),
        b1.len() <= b2.len(),
        forall|k: int| 0 <= k < b1.len() ==> b1[k] == b2[k],
    ensures
        bits_value(b1, pos, w) == bits_value(b2, pos, w),
    decreases w,
{
    if w > 0 {
        lemma_bits_value_agree(b1, b2, pos, (w - 1) as nat);
        let i = (pos + w - 1) as nat;
        assert(i < 8 * b1.len());
        assert(i as int / 8 < b1.len() as int);
        assert(b1[i as int / 8] == b2[i as int / 8]);
    }
}

/// A single bit read as a one-bit field.
pub proof fn lemma_bits_value_one(b: Seq<u8>, pos: nat)
    ensures
        bits_value(b, pos, 1) == bit_at(b, pos),
{
    reveal_with_fuel(bits_value, 2);
}

/// The bit positions inside byte `k` address that byte's bits.
pub proof fn lemma_bit_at_byte(b: Seq<u8>, k: nat, j: nat)
    requires
        j < 8,
    ensures
        bit_at(b, 8 * k + j) == ((b[k as int] >> ((7 - j) as u8)) & 1) as nat,
{
    assert((8 * k + j) as int / 8 == k) by (nonlinear_arith)
        requires
            j < 8,
    ;
    assert((8 * k + j) % 8 == j) by (nonlinear_arith)
        requires
            j < 8,
    ;
}

/// A byte-aligned 8-bit field is exactly that byte.
pub proof fn lemma_bits_value_byte(b: Seq<u8>, k: nat)
    requires
        k < b.len(),
    ensures
        bits_value(b, 8 * k, 8) == b[k as int],
{
    let x = b[k as int];
    lemma_bit_at_byte(b, k, 0);
    lemma_bit_at_byte(b, k, 1);
    lemma_bit_at_byte(b, k, 2);
    lemma_bit_at_byte(b, k, 3);
    lemma_bit_at_byte(b, k, 4);
    lemma_bit_at_byte(b, k, 5);
    lemma_bit_at_byte(b, k, 6);
    lemma_bit_at_byte(b, k, 7);
    assert(bits_value(b, 8 * k, 8) == bit_at(b, 8 * k) * 128 + bit_at(b, 8 * k + 1) * 64 + bit_at(
        b,
        8 * k + 2,
    ) * 32 + bit_at(b, 8 * k + 3) * 16 + bit_at(b, 8 * k + 4) * 8 + bit_at(b, 8 * k + 5) * 4
        + bit_at(b, 8 * k + 6) * 2 + bit_at(b, 8 * k + 7)) by {
        reveal_with_fuel(bits_value, 9);
    };
    assert(((x >> 7u8) & 1) * 128 + ((x >> 6u8) & 1) * 64 + ((x >> 5u8) & 1) * 32 + ((x >> 4u8)
        & 1) * 16 + ((x >> 3u8) & 1) * 8 + ((x >> 2u8) & 1) * 4 + ((x >> 1u8) & 1) * 2 + ((x
        >> 0u8) & 1) == x) by (bit_vector);
}

/// A byte-aligned 16-bit field is its two bytes, big-endian.
pub proof fn lemma_bits_value_u16(b: Seq<u8>, k: nat)
    requires
        k + 2 <= b.len(),
    ensures
        bits_value(b, 8 * k, 16) == b[k as int] * 0x100 + b[k as int + 1],
{
    lemma_bits_value_split(b, 8 * k, 8, 8);
    lemma_bits_value_byte(b, k);
    lemma_bits_value_byte(b, k + 1);
    lemma2_to64();
    assert(8 * k + 8 == 8 * (k + 1));
}

/// A byte-aligned 32-bit field is its four bytes, big-endian.
pub proof fn lemma_bits_value_u32(b: Seq<u8>, k: nat)
    requires
        k + 4 <= b.len(),
    ensures
        bits_value(b, 8 * k, 32) == b[k as int] * 0x1000000 + b[k as int + 1] * 0x10000 + b[
            k as int + 2
        ] * 0x100 + b[k as int + 3],
{
    lemma_bits_value_split(b, 8 * k, 16, 16);
    lemma_bits_value_u16(b, k);
    lemma_bits_value_u16(b, k + 2);
    lemma2_to64();
    assert(8 * k + 16 == 8 * (k + 2));
}

/// A 33-bit field that starts on the last bit of byte `k`: the field layout
/// used by every 90 kHz time value in SCTE-35.
pub proof fn lemma_bits_value_time33(b: Seq<u8>, k: nat)
    requires
        k + 5 <= b.len(),
    ensures
        bits_value(b, 8 * k + 7, 33) == (b[k as int] & 1) * 0x100000000 + b[k as int + 1]
            * 0x1000000 + b[k as int + 2] * 0x10000 + b[k as int + 3] * 0x100 + b[k as int + 4],
{
    lemma_bits_value_split(b, 8 * k + 7, 1, 32);
    lemma_bits_value_one(b, 8 * k + 7);
    lemma_bit_at_byte(b, k, 7);
    let x = b[k as int];
    assert((x >> 0u8) & 1 == x & 1) by (bit_vector);
    lemma_bits_value_u32(b, k + 1);
    assert(8 * k + 7 + 1 == 8 * (k + 1));
    lemma2_to64();
    lemma2_to64_rest();
    assert(pow2(32) == 0x100000000);
}

/// An executable cursor reading bits most-significant-first from a byte slice.
pub struct BitReader<'a> {
    data: &'a [u8],
    /// Position in bits from the start of `data`.
    pos: usize,
}

impl<'a> BitReader<'a> {
    pub closed spec fn spec_data(&self) -> Seq<u8> {
        self.data@
    }

    pub closed spec fn spec_pos(&self) -> nat {
        self.pos as nat
    }

    /// The cursor is within the buffer and bit arithmetic cannot overflow.
    pub open spec fn wf(&self) -> bool {
        self.spec_pos() <= 8 * self.spec_data().len() && 8 * self.spec_data().len() < usize::MAX
    }

    pub fn new(data: &'a [u8]) -> (r: BitReader<'a>)
        requires
            8 * data@.len() < usize::MAX,
        ensures
            r.wf(),
            r.spec_data() == data@,
            r.spec_pos() == 0,
    {
        BitReader { data, pos: 0 }
    }

    /// Bits left to read.
    pub open spec fn spec_remaining(&self) -> nat {
        (8 * self.spec_data().len() - self.spec_pos()) as nat
    }

    pub fn remaining(&self) -> (r: usize)
        requires
            self.wf(),
        ensures
            r == self.spec_remaining(),
    {
        8 * self.data.len() - self.pos
    }

    pub fn position(&self) -> (r: usize)
        ensures
            r == self.spec_pos(),
    {
        self.pos
    }

    /// Read `w` bits (at most 64) as a big-endian unsigned value.
    pub fn read_bits(&mut self, w: usize) -> (r: u64)
        requires
            old(self).wf(),
            w <= 64,
            w <= old(self).spec_remaining(),
        ensures
            final(self).wf(),
            final(self).spec_data() == old(self).spec_data(),
            final(self).spec_pos() == old(self).spec_pos() + w,
            r == bits_value(old(self).spec_data(), old(self).spec_pos(), w as nat),
            r < pow2(w as nat),
    {
        let ghost b = self.data@;
        let ghost pos0 = self.pos as nat;
        let mut acc: u64 = 0;
        let mut i: usize = 0;
        proof {
            lemma2_to64();
            lemma2_to64_rest();
        }
        while i < w
            invariant
                self.data@ == b,
                self.pos == pos0 + i,
                i <= w,
                w <= 64,
                pos0 + w <= 8 * b.len(),
                8 * b.len() < usize::MAX,
                acc == bits_value(b, pos0, i as nat),
                acc < pow2(i as nat),
                pow2(64) == 0x10000000000000000,
            decreases w - i,
        {
            let byte_index = self.pos / 8;
            let sh: u8 = (7 - (self.pos % 8)) as u8;
            assert(byte_index < b.len());
            let bit: u8 = (self.data[byte_index] >> sh) & 1;
            proof {
                assert(bit == bit_at(b, (pos0 + i) as nat));
                lemma_bit_at_le_1(b, (pos0 + i) as nat);
                lemma_pow2_unfold((i + 1) as nat);
                if i < 63 {
                    lemma_pow2_adds(i as nat, (63 - i) as nat);
                    lemma_pow2_pos((63 - i) as nat);
                    assert(pow2(63) == pow2(i as nat) * pow2((63 - i) as nat));
                    assert(pow2(i as nat) <= pow2(63)) by (nonlinear_arith)
                        requires
                            pow2(63) == pow2(i as nat) * pow2((63 - i) as nat),
                            pow2((63 - i) as nat) >= 1,
                            pow2(i as nat) >= 0,
                    ;
                } else {
                    assert(i == 63);
                }
                assert(acc < pow2(63));
                lemma_pow2_unfold(64);
                assert(2 * acc + 1 < 0x10000000000000000);
            }
            acc = 2 * acc + (bit as u64);
            self.pos = self.pos + 1;
            i = i + 1;
        }
        proof {
            lemma_bits_value_bound(b, pos0, w as nat);
        }
        acc
    }

    /// Advance the cursor without interpreting the bits.
    pub fn skip_bits(&mut self, w: usize)
        requires
            old(self).wf(),
            w <= old(self).spec_remaining(),
        ensures
            final(self).wf(),
            final(self).spec_data() == old(self).spec_data(),
            final(self).spec_pos() == old(self).spec_pos() + w,
    {
        self.pos = self.pos + w;
    }
}

} // verus!
