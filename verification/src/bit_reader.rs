//! LSB-first variable-width bit extraction over a contiguous byte buffer.
//!
//! Bit 0 of the first byte is the least significant bit of the first value
//! read; values may cross byte boundaries; the reader never seeks backward.

use vstd::prelude::*;
use vstd::arithmetic::power2::{pow2, lemma2_to64, lemma_pow2_unfold, lemma_pow2_strictly_increases};

verus! {

/// The bit at absolute bit offset `i` of the buffer: bit `i % 8`,
/// counted from the least significant end, of byte `i / 8`.
pub open spec fn bit_of(s: Seq<u8>, i: int) -> u8
    recommends
        0 <= i < s.len() * 8,
{
    (s[i / 8] >> ((i % 8) as u8)) & 1
}

/// The unsigned integer held by bits `[pos, pos + k)` of the buffer,
/// LSB-first: the bit at `pos` is the least significant bit of the result.
pub open spec fn bits_value(s: Seq<u8>, pos: int, k: nat) -> nat
    decreases k,
{
    if k == 0 {
        0
    } else {
        bit_of(s, pos) as nat + 2 * bits_value(s, pos + 1, (k - 1) as nat)
    }
}

/// A `k`-bit value is below `2^k`.
pub proof fn lemma_bits_value_bound(s: Seq<u8>, pos: int, k: nat)
    ensures
        bits_value(s, pos, k) < pow2(k),
    decreases k,
{
    if k == 0 {
        lemma2_to64();
    } else {
        lemma_bits_value_bound(s, pos + 1, (k - 1) as nat);
        lemma_pow2_unfold(k);
        assert(forall|b: u8, sh: u8| #[trigger] ((b >> sh) & 1) <= 1) by (bit_vector);
    }
}

/// Splitting a run of bits: reading `k1 + k2` bits at `pos` yields the same
/// integer as reading `k1` bits at `pos` and `k2` bits at `pos + k1` and
/// recombining them at bit offset `k1`. Hence any partition of a buffer's
/// bit-length into widths, read in order, reproduces exactly the buffer's
/// bit stream split at the partition offsets.
pub proof fn lemma_bits_value_split(s: Seq<u8>, pos: int, k1: nat, k2: nat)
    ensures
        bits_value(s, pos, k1 + k2) == bits_value(s, pos, k1) + pow2(k1) * bits_value(
            s,
            pos + k1,
            k2,
        ),
    decreases k1,
{
    if k1 == 0 {
        lemma2_to64();
    } else {
        lemma_bits_value_split(s, pos + 1, (k1 - 1) as nat, k2);
        lemma_pow2_unfold(k1);
        let b = bit_of(s, pos) as nat;
        let rest = bits_value(s, pos + 1, ((k1 + k2) - 1) as nat);
        assert(bits_value(s, pos, k1 + k2) == b + 2 * rest);
        let r1 = bits_value(s, pos + 1, (k1 - 1) as nat);
        let r2 = bits_value(s, pos + k1, k2);
        assert(rest == r1 + pow2((k1 - 1) as nat) * r2);
        assert(2 * (r1 + pow2((k1 - 1) as nat) * r2) == 2 * r1 + (2 * pow2(
            (k1 - 1) as nat,
        )) * r2) by (nonlinear_arith);
    }
}

/// Forward-only reader of bit fields out of a borrowed byte buffer.
pub struct BitReader<'a> {
    buf: &'a [u8],
    // index by bit instead of by byte
    position: usize,
    length: usize,
}

impl<'a> BitReader<'a> {
    /// The underlying bytes.
    pub closed spec fn spec_buf(&self) -> Seq<u8> {
        self.buf@
    }

    /// The current position, in bits from the start of the buffer.
    pub closed spec fn spec_pos(&self) -> int {
        self.position as int
    }

    /// The reader's cached length is the buffer's bit-length and the
    /// position never passes it.
    pub closed spec fn wf(&self) -> bool {
        &&& self.length == self.buf@.len() * 8
        &&& self.position <= self.length
    }

    pub fn new(buf: &'a [u8]) -> (r: Self)
        requires
            buf@.len() * 8 <= usize::MAX,
        ensures
            r.wf(),
            r.spec_buf() == buf@,
            r.spec_pos() == 0,
    {
        Self { buf, position: 0, length: buf.len() * 8 }
    }

    /// Reads the next `count` bits as an unsigned integer, LSB-first, and
    /// advances. When fewer than `count` bits remain, returns `None` and
    /// leaves the position unchanged.
    pub fn next(&mut self, count: u32) -> (r: Option<u64>)
        requires
            old(self).wf(),
            1 <= count <= 12,
        ensures
            final(self).wf(),
            final(self).spec_buf() == old(self).spec_buf(),
            old(self).spec_pos() + count <= old(self).spec_buf().len() * 8 ==> {
                &&& r == Some(
                    bits_value(old(self).spec_buf(), old(self).spec_pos(), count as nat) as u64,
                )
                &&& final(self).spec_pos() == old(self).spec_pos() + count
            },
            old(self).spec_pos() + count > old(self).spec_buf().len() * 8 ==> {
                &&& r is None
                &&& final(self).spec_pos() == old(self).spec_pos()
            },
    {
        let start_position = self.position;
        if count as usize > self.length - self.position {
            return None;
        }
        let end_position = self.position + count as usize;
        let mut value: u64 = 0;
        let mut i: usize = end_position;
        while i > start_position
            invariant
                start_position <= i <= end_position,
                end_position - start_position == count,
                1 <= count <= 12,
                end_position <= self.buf@.len() * 8,
                value == bits_value(self.buf@, i as int, (end_position - i) as nat),
            decreases i,
        {
            i = i - 1;
            proof {
                lemma_bits_value_bound(self.buf@, i + 1, (end_position - i - 1) as nat);
                lemma2_to64();
                if ((end_position - i - 1) as nat) < 12 {
                    lemma_pow2_strictly_increases((end_position - i - 1) as nat, 12);
                }
            }
            let byte = self.buf[i / 8];
            let shift = (i % 8) as u8;
            let bit = (byte >> shift) & 1;
            assert(bit == bit_of(self.buf@, i as int));
            value = 2 * value + bit as u64;
        }
        self.position = end_position;
        Some(value)
    }

    /// The total bit-length of the buffer.
    pub fn len(&self) -> (r: usize)
        requires
            self.wf(),
        ensures
            r == self.spec_buf().len() * 8,
    {
        self.length
    }
}

} // verus!
