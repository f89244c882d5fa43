//! Reads packed values of up to 32 bits from a borrowed buffer through a
//! 64-bit window. Past the end of the buffer the stream goes on in zeros,
//! and once the buffer is exhausted every read gives zero.

use super::bitops::{lemma_low_mask, lemma_or_above, lemma_shl, lemma_shr};
use super::bitstream::{
    bits_at, lemma_bits_past_end, lemma_div_pow2_twice, lemma_join, lemma_mod_pow2_split,
    lemma_pow2_le_32, lemma_small, lemma_stream_concat, lemma_stream_skip, stream_of, unbiased,
};
use super::wire::{le_value, lemma_le_value_bound};
use vstd::arithmetic::power2::{
    lemma2_to64, lemma2_to64_rest, lemma_pow2_adds, lemma_pow2_pos, pow2,
};
use vstd::prelude::*;

verus! {

/// What a [`BitReader`] is to its callers: the bytes it was made over, and
/// the number of bits read so far.
pub struct BitReaderView {
    /// Every byte of the source.
    pub src: Seq<u8>,
    /// Bit offset of the next value to be read. It may pass the end of the
    /// source.
    pub pos: nat,
}

/// Reads packed unsigned, signed and boolean values in the order and with the
/// widths in which they were written.
pub struct BitReader<'a> {
    current: u64,
    bits_left: u32,
    buf_pos: usize,
    buf: &'a [u8],
    source_bits: u32,
    consumed: Ghost<nat>,
}

impl<'a> View for BitReader<'a> {
    type V = BitReaderView;

    closed spec fn view(&self) -> BitReaderView {
        BitReaderView { src: self.buf@, pos: self.consumed@ }
    }
}

/// The smaller of two numbers.
spec fn least(a: int, b: int) -> int {
    if a <= b {
        a
    } else {
        b
    }
}

/// The 32-bit word `k` of a source is the number that its up to four bytes
/// from `4 * k` on stand for; past the end it is zero.
proof fn lemma_word(src: Seq<u8>, k: nat)
    ensures
        ({
            let at = least(4 * k as int, src.len() as int);
            let end = least(at + 4, src.len() as int);
            stream_of(src.subrange(at, end)) == bits_at(stream_of(src), 32 * k, 32)
        }),
{
    let at = least(4 * k as int, src.len() as int);
    let end = least(at + 4, src.len() as int);
    lemma2_to64();
    if 4 * k >= src.len() {
        lemma_bits_past_end(src, 32 * k, 32);
    } else {
        let tail = src.subrange(at, src.len() as int);
        lemma_stream_skip(src, 4 * k);
        assert(8 * (4 * k) == 32 * k);
        if tail.len() >= 4 {
            let head = tail.subrange(0, 4);
            let rest = tail.subrange(4, tail.len() as int);
            assert(tail =~= head + rest);
            assert(head =~= src.subrange(at, end));
            lemma_stream_concat(head, rest);
            lemma_le_value_bound(head);
            lemma_join(stream_of(head), stream_of(rest), 32);
        } else {
            assert(tail =~= src.subrange(at, end));
            lemma_le_value_bound(tail);
            lemma_small(stream_of(tail), 8 * tail.len(), 32);
        }
    }
}

impl<'a> BitReader<'a> {
    #[verifier::type_invariant]
    spec fn window_holds_stream(&self) -> bool {
        &&& 32 <= self.bits_left <= 64
        &&& (self.consumed@ + self.bits_left) % 32 == 0
        &&& self.buf_pos == least((self.consumed@ + self.bits_left) / 8, self.buf@.len() as int)
        &&& self.current == bits_at(stream_of(self.buf@), self.consumed@, self.bits_left as nat)
        &&& self.source_bits == (if 8 * self.buf_pos >= self.consumed@ {
            8 * self.buf_pos - self.consumed@
        } else {
            0
        })
    }

    /// The next 32-bit word of `buf` from `at` on, least significant byte
    /// first, with zeros for the bytes that `buf` does not have, and the
    /// offset after it.
    fn fetch(buf: &[u8], at: usize) -> (r: (u32, usize))
        requires
            at <= buf@.len(),
        ensures
            r.1 == least(at + 4, buf@.len() as int),
            r.0 == stream_of(buf@.subrange(at as int, r.1 as int)),
    {
        let len: usize = buf.len();
        let left: usize = if len - at < 4 { len - at } else { 4 };
        let mut word: u32 = 0;
        let mut i: usize = left;
        while i > 0
            invariant
                i <= left <= 4,
                len == buf@.len(),
                at + left <= len,
                word == le_value(buf@.subrange(at + i, at + left)),
            decreases i,
        {
            let ghost tail = buf@.subrange(at + i, at + left);
            let ghost next = buf@.subrange(at + i - 1, at + left);
            proof {
                lemma2_to64();
                lemma_le_value_bound(tail);
                assert(next.drop_first() =~= tail);
                lemma_pow2_adds(8 * tail.len(), (24 - 8 * tail.len()) as nat);
                lemma_pow2_pos((24 - 8 * tail.len()) as nat);
                assert(pow2(8 * tail.len()) <= pow2(24)) by (nonlinear_arith)
                    requires
                        pow2(8 * tail.len()) * pow2((24 - 8 * tail.len()) as nat) == pow2(24),
                        pow2((24 - 8 * tail.len()) as nat) >= 1,
                ;
            }
            i = i - 1;
            word = word * 256 + buf[at + i] as u32;
        }
        (word, at + left)
    }

    /// A reader at the first bit of `buf`.
    pub fn new(buf: &'a [u8]) -> (r: Self)
        ensures
            r@.src == buf@,
            r@.pos == 0,
    {
        let (low, mid) = Self::fetch(buf, 0);
        let (high, end) = Self::fetch(buf, mid);
        proof {
            let s = stream_of(buf@);
            lemma2_to64();
            lemma2_to64_rest();
            lemma_word(buf@, 0);
            lemma_word(buf@, 1);
            lemma_or_above(low as u64, high as u64, 32);
            lemma_mod_pow2_split(s, 32, 32);
            assert(s / pow2(0) == s);
            assert(pow2(32) * 1 == pow2(32 * 1));
        }
        let current: u64 = (low as u64) | ((high as u64) << 32);
        BitReader {
            current,
            bits_left: 64,
            buf_pos: end,
            buf,
            source_bits: 8 * (end as u32),
            consumed: Ghost(0),
        }
    }

    /// Whether every bit of the source has been read, so that all further
    /// reads give zero.
    pub fn exhausted(&self) -> (b: bool)
        ensures
            b == (self@.pos >= 8 * self@.src.len()),
    {
        proof {
            use_type_invariant(self);
        }
        self.source_bits == 0
    }

    /// Reads the next `num_bits` bits as an unsigned number. Bits past the
    /// end of the source read as zero.
    pub fn uint(&mut self, num_bits: u32) -> (r: u32)
        requires
            num_bits <= 32,
        ensures
            r == bits_at(stream_of(old(self)@.src), old(self)@.pos, num_bits as nat),
            final(self)@.src == old(self)@.src,
            final(self)@.pos == old(self)@.pos + num_bits,
    {
        proof {
            use_type_invariant(&*self);
        }
        let ghost s = stream_of(self.buf@);
        let ghost p = self.consumed@;
        let ghost x = s / pow2(p);
        let ghost y = s / pow2(p + num_bits as nat);
        let ghost rest = (self.bits_left - num_bits) as nat;
        proof {
            lemma_pow2_le_32(num_bits as nat);
            lemma_low_mask(self.current, num_bits);
            lemma_shr(self.current, num_bits);
            lemma_mod_pow2_split(x, num_bits as nat, rest);
            lemma_div_pow2_twice(s, p, num_bits as nat);
        }
        let result: u64 = self.current & !(!0u64 << num_bits);
        let mut bits_left: u32 = self.bits_left - num_bits;
        let mut current: u64 = self.current >> num_bits;
        let mut buf_pos: usize = self.buf_pos;
        let mut source_bits: u32 = if self.source_bits > num_bits {
            self.source_bits - num_bits
        } else {
            0
        };
        assert(current == bits_at(s, p + num_bits as nat, rest));
        if bits_left < 32 {
            let ghost k = (p + self.bits_left) / 32;
            let (word, end) = Self::fetch(self.buf, buf_pos);
            proof {
                lemma_word(self.buf@, k as nat);
                lemma_pow2_le_32(rest);
                lemma_pow2_pos(rest);
                assert(word as u64 * pow2(rest) <= u64::MAX) by (nonlinear_arith)
                    requires
                        word <= 0xffff_ffff,
                        pow2(rest) <= 0x1_0000_0000,
                ;
                lemma_or_above(current, word as u64, bits_left);
                lemma_mod_pow2_split(y, rest, 32);
                lemma_div_pow2_twice(s, p + num_bits as nat, rest);
                assert(p + num_bits as nat + rest == 32 * k);
            }
            current = current | ((word as u64) << bits_left);
            bits_left = bits_left + 32;
            source_bits = source_bits + 8 * ((end - buf_pos) as u32);
            buf_pos = end;
        }
        *self = BitReader {
            current,
            bits_left,
            buf_pos,
            buf: self.buf,
            source_bits,
            consumed: Ghost(p + num_bits as nat),
        };
        result as u32
    }

    /// Reads the next `num_bits` bits as a signed number in offset-binary
    /// code. Where the read runs over the end of the source, the bits that
    /// the source does not have count as zero; once every bit of the source
    /// has been read, the result is zero.
    pub fn sint(&mut self, num_bits: u32) -> (r: i32)
        requires
            1 <= num_bits <= 32,
        ensures
            old(self)@.pos >= 8 * old(self)@.src.len() ==> r == 0,
            old(self)@.pos < 8 * old(self)@.src.len() ==> r == unbiased(
                bits_at(stream_of(old(self)@.src), old(self)@.pos, num_bits as nat) as u32,
                num_bits as nat,
            ),
            final(self)@.src == old(self)@.src,
            final(self)@.pos == old(self)@.pos + num_bits,
    {
        let at_end = self.exhausted();
        let u = self.uint(num_bits);
        proof {
            lemma_pow2_le_32((num_bits - 1) as nat);
            lemma_pow2_le_32(num_bits as nat);
            lemma_pow2_adds((num_bits - 1) as nat, 1);
            lemma2_to64();
            lemma_shl(1, (num_bits - 1) as u32);
            lemma_pow2_pos(num_bits as nat);
        }
        let half: u64 = 1u64 << (num_bits - 1);
        if at_end {
            0
        } else {
            (u as i64 - half as i64) as i32
        }
    }

    /// Reads the next bit as a `bool`. Past the end of the source it reads
    /// `false`.
    pub fn bool(&mut self) -> (r: bool)
        ensures
            r == (bits_at(stream_of(old(self)@.src), old(self)@.pos, 1) != 0),
            final(self)@.src == old(self)@.src,
            final(self)@.pos == old(self)@.pos + 1,
    {
        self.uint(1) != 0
    }
}

} // verus!
