//! Packs values of up to 32 bits into a borrowed buffer through a 64-bit
//! accumulator that is emptied one little-endian 32-bit word at a time.

use super::bitops::{lemma_low_mask, lemma_or_split, lemma_shl, lemma_shr};
use super::bitstream::{
    biased, bits_at, lemma_div_pow2_twice, lemma_flushed_bits, lemma_join, lemma_mod_pow2_split,
    lemma_or_at_clean, lemma_or_at_keeps_lower, lemma_pow2_le_32, lemma_split,
    lemma_stream_concat, or_at, stream_of,
};
use super::wire::{
    le_bytes, lemma_le_bytes_of_value, lemma_le_value_bound, lemma_le_value_of_bytes, overwrite,
};
use vstd::arithmetic::div_mod::lemma_mod_multiples_vanish;
use vstd::arithmetic::power2::{lemma2_to64, lemma_pow2_adds, pow2};
use vstd::prelude::*;

verus! {

/// What a [`BitWriter`] is to its callers.
pub struct BitWriterView {
    /// Every byte of the buffer, written or not.
    pub buf: Seq<u8>,
    /// The bits handed to the writer so far, as a number: the first bit
    /// written is the lowest.
    pub stream: nat,
    /// Number of bits written: the sum of the widths of all writes.
    pub len: nat,
    /// The count that `bits_written` reports: the bits that have reached the
    /// buffer.
    pub counted: nat,
}

impl BitWriterView {
    /// Number of bytes that hold the whole 32-bit words of the stream.
    pub open spec fn whole_words(self) -> nat {
        4 * (self.len / 32)
    }

    /// Number of bytes that hold the stream once its last, partial word has
    /// been written too.
    pub open spec fn flushed_bytes(self) -> nat {
        4 * ((self.len + 31) / 32)
    }

    /// Whether the stream holds no bit at or beyond its end, as it does when
    /// every value written so far fitted its width.
    pub open spec fn clean(self) -> bool {
        self.stream < pow2(self.len)
    }

    /// Whether a write of `num_bits` bits fills the word that is being
    /// gathered, so that the word goes to the buffer.
    pub open spec fn emits(self, num_bits: nat) -> bool {
        self.len % 32 + num_bits >= 32
    }

    /// Whether a write of `num_bits` bits finds the room it needs: it fills
    /// a word only if the buffer has four bytes left for it.
    pub open spec fn has_room(self, num_bits: nat) -> bool {
        self.emits(num_bits) ==> self.whole_words() + 4 <= self.buf.len()
    }

    /// Whether the last, partial word of the stream finds room in the
    /// buffer.
    pub open spec fn can_flush(self) -> bool {
        self.len % 32 != 0 ==> self.whole_words() + 4 <= self.buf.len()
    }

    /// The writer after `value` was or-ed into the stream at its end and the
    /// end moved `num_bits` bits on. A word that the write fills goes to the
    /// buffer, behind the words that are there.
    pub open spec fn after_write(self, value: u32, num_bits: nat) -> BitWriterView {
        let stream = or_at(self.stream, value, self.len);
        if self.emits(num_bits) {
            BitWriterView {
                buf: overwrite(
                    self.buf,
                    self.whole_words() as int,
                    le_bytes(bits_at(stream, 8 * self.whole_words(), 32), 4),
                ),
                stream,
                len: self.len + num_bits,
                counted: 8 * (self.whole_words() + 4),
            }
        } else {
            BitWriterView { buf: self.buf, stream, len: self.len + num_bits, counted: self.counted }
        }
    }

    /// The writer after the bits of the last, partial word were written to
    /// the buffer, with zeros above them.
    pub open spec fn after_flush(self) -> BitWriterView {
        BitWriterView {
            buf: if self.len % 32 != 0 {
                overwrite(
                    self.buf,
                    self.whole_words() as int,
                    le_bytes(bits_at(self.stream, 8 * self.whole_words(), self.len % 32), 4),
                )
            } else {
                self.buf
            },
            stream: self.stream,
            len: self.len,
            counted: self.len,
        }
    }
}

/// Packs unsigned, signed and boolean values of chosen widths one after the
/// other, lowest bit first.
pub struct BitWriter<'a> {
    current: u64,
    bit_pos: u32,
    buf: &'a mut [u8],
    word_pos: usize,
    bits_written: usize,
}

impl<'a> View for BitWriter<'a> {
    type V = BitWriterView;

    closed spec fn view(&self) -> BitWriterView {
        BitWriterView {
            buf: self.buf@,
            stream: stream_of(self.buf@.subrange(0, self.word_pos as int)) + self.current as nat
                * pow2(8 * self.word_pos as nat),
            len: 8 * self.word_pos as nat + self.bit_pos as nat,
            counted: self.bits_written as nat,
        }
    }
}

/// Writing, then reading: where every value so far fitted its width, a value
/// that fits its width is found, after the write, in the bits where it was
/// written; the bits written before it are as they were; and the stream
/// still holds no bit beyond its end.
pub proof fn lemma_write_read_back(w: BitWriterView, value: u32, num_bits: nat, at: nat, n: nat)
    requires
        w.clean(),
        value < pow2(num_bits),
        at + n <= w.len,
    ensures
        w.after_write(value, num_bits).clean(),
        bits_at(w.after_write(value, num_bits).stream, w.len, num_bits) == value,
        bits_at(w.after_write(value, num_bits).stream, at, n) == bits_at(w.stream, at, n),
{
    lemma_or_at_clean(w.stream, value, w.len, num_bits);
    lemma_or_at_keeps_lower(w.stream, value, w.len, at, n);
}

/// Flushing, then reading: a source that starts with the bytes that a flush
/// leaves holds, in every run of bits that ends at the end of the stream or
/// before, the bits of the stream. With the law above: what was written is
/// what is read, in the same order and with the same widths.
pub proof fn lemma_flush_read_back(w: BitWriterView, src: Seq<u8>, at: nat, n: nat)
    requires
        w.flushed_bytes() <= src.len(),
        src.subrange(0, w.flushed_bytes() as int) == le_bytes(
            w.stream % pow2(w.len),
            w.flushed_bytes(),
        ),
        at + n <= w.len,
    ensures
        bits_at(stream_of(src), at, n) == bits_at(w.stream, at, n),
{
    lemma_flushed_bits(src, w.flushed_bytes(), w.stream, w.len, at, n);
}

/// One field of a packed message: a value and the number of bits in which it
/// is written.
pub struct Field {
    /// The value, as the unsigned write takes it.
    pub value: u32,
    /// The width of the field in bits.
    pub width: nat,
}

impl Field {
    /// Whether the width is one that a write takes and the value needs no
    /// more bits than the width.
    pub open spec fn fits(self) -> bool {
        self.width <= 32 && self.value < pow2(self.width)
    }
}

/// Whether every field of a run fits its width.
pub open spec fn all_fit(fields: Seq<Field>) -> bool {
    forall|i: int| 0 <= i < fields.len() ==> (#[trigger] fields[i]).fits()
}

/// The sum of the widths of a run of fields.
pub open spec fn total_width(fields: Seq<Field>) -> nat
    decreases fields.len(),
{
    if fields.len() == 0 {
        0
    } else {
        total_width(fields.drop_last()) + fields.last().width
    }
}

impl BitWriterView {
    /// The writer after the fields of a run were written one after the
    /// other, each with its width.
    pub open spec fn after_writes(self, fields: Seq<Field>) -> BitWriterView
        decreases fields.len(),
    {
        if fields.len() == 0 {
            self
        } else {
            self.after_writes(fields.drop_last()).after_write(
                fields.last().value,
                fields.last().width,
            )
        }
    }
}

/// Field `k` of a run begins where the fields before it end, and ends at or
/// before the end of the run.
pub proof fn lemma_field_offsets(fields: Seq<Field>, k: int)
    requires
        0 <= k < fields.len(),
    ensures
        total_width(fields.take(k + 1)) == total_width(fields.take(k)) + fields[k].width,
        total_width(fields.take(k + 1)) <= total_width(fields),
    decreases fields.len() - k,
{
    assert(fields.take(k + 1).drop_last() =~= fields.take(k));
    if k + 1 == fields.len() {
        assert(fields.take(k + 1) =~= fields);
    } else {
        lemma_field_offsets(fields, k + 1);
    }
}

/// Where every value so far fitted its width, a run of fields that fit
/// leaves the stream longer by the sum of their widths, with no bit beyond
/// its end.
pub proof fn lemma_writes_state(w: BitWriterView, fields: Seq<Field>)
    requires
        w.clean(),
        all_fit(fields),
    ensures
        w.after_writes(fields).clean(),
        w.after_writes(fields).len == w.len + total_width(fields),
    decreases fields.len(),
{
    if fields.len() > 0 {
        let init = fields.drop_last();
        let last = fields.last();
        lemma_writes_state(w, init);
        lemma_write_read_back(w.after_writes(init), last.value, last.width, 0, 0);
    }
}

/// Writing a run, then reading: after a run of fields that fit, every field
/// is found in the stream at the sum of the widths of the fields before it.
pub proof fn lemma_writes_read_back(w: BitWriterView, fields: Seq<Field>, k: int)
    requires
        w.clean(),
        all_fit(fields),
        0 <= k < fields.len(),
    ensures
        bits_at(
            w.after_writes(fields).stream,
            w.len + total_width(fields.take(k)),
            fields[k].width,
        ) == fields[k].value,
    decreases fields.len(),
{
    let init = fields.drop_last();
    let last = fields.last();
    let s = w.after_writes(init);
    lemma_writes_state(w, init);
    if k == fields.len() - 1 {
        assert(fields.take(k) =~= init);
        lemma_write_read_back(s, last.value, last.width, 0, 0);
    } else {
        lemma_writes_read_back(w, init, k);
        assert(init.take(k) =~= fields.take(k));
        lemma_field_offsets(init, k);
        lemma_write_read_back(
            s,
            last.value,
            last.width,
            w.len + total_width(fields.take(k)),
            fields[k].width,
        );
    }
}

/// Round trip of a run of any length: fields that fit their widths are
/// written one after the other and the writer is flushed; then a source that
/// starts with the flushed bytes holds field `k`, for every `k`, in the bits
/// that begin at the sum of the widths before it. That is the place at which
/// a reader stands when it has read the fields before `k` with their widths,
/// and the bits are what its next read gives: what was written is what is
/// read, in the same order and with the same widths.
pub proof fn lemma_run_round_trip(w: BitWriterView, fields: Seq<Field>, src: Seq<u8>, k: int)
    requires
        w.clean(),
        all_fit(fields),
        0 <= k < fields.len(),
        w.after_writes(fields).flushed_bytes() <= src.len(),
        src.subrange(0, w.after_writes(fields).flushed_bytes() as int) == le_bytes(
            w.after_writes(fields).stream % pow2(w.after_writes(fields).len),
            w.after_writes(fields).flushed_bytes(),
        ),
    ensures
        w.after_writes(fields).len == w.len + total_width(fields),
        w.len + total_width(fields.take(k)) + fields[k].width <= w.after_writes(fields).len,
        w.after_writes(fields).len <= 8 * src.len(),
        bits_at(stream_of(src), w.len + total_width(fields.take(k)), fields[k].width)
            == fields[k].value,
{
    lemma_writes_state(w, fields);
    lemma_writes_read_back(w, fields, k);
    lemma_field_offsets(fields, k);
    lemma_flush_read_back(
        w.after_writes(fields),
        src,
        w.len + total_width(fields.take(k)),
        fields[k].width,
    );
}

/// A stream made of whole words and an accumulator above them takes an
/// or-ed value in its accumulator.
proof fn lemma_or_into_accumulator(low: nat, bytes: nat, current: u64, value: u32, bit_pos: u32)
    requires
        low < pow2(8 * bytes),
        bit_pos < 32,
    ensures
        or_at(low + current as nat * pow2(8 * bytes), value, 8 * bytes + bit_pos as nat) == low + (
        current | ((value as u64) << bit_pos)) as nat * pow2(8 * bytes),
        (low + current as nat * pow2(8 * bytes)) % pow2(8 * bytes + bit_pos as nat) == low + (
        current as nat % pow2(bit_pos as nat)) * pow2(8 * bytes),
{
    let b = pow2(8 * bytes);
    let e = pow2(bit_pos as nat);
    let stream = low + current as nat * b;
    let merged = (((current as nat / e) as u64) | (value as u64)) as nat;
    let kept = current as nat % e;
    lemma_or_split(current, value, bit_pos);
    lemma_join(low, current as nat, 8 * bytes);
    lemma_mod_pow2_split(stream, 8 * bytes, bit_pos as nat);
    lemma_div_pow2_twice(stream, 8 * bytes, bit_pos as nat);
    lemma_pow2_adds(8 * bytes, bit_pos as nat);
    assert(low + kept * b + merged * (b * e) == low + (kept + merged * e) * b)
        by (nonlinear_arith);
}

/// Moving the low word of the accumulator into the buffer, behind the words
/// that are there, leaves the stream as it was.
proof fn lemma_emit(head: Seq<u8>, merged: u64)
    ensures
        stream_of(head + le_bytes((merged as u32) as nat, 4)) + (merged >> 32) as nat * pow2(
            8 * (head.len() + 4) as nat,
        ) == stream_of(head) + merged as nat * pow2(8 * head.len()),
        (merged as u32) as nat == merged as nat % pow2(32),
{
    let word = merged as u32;
    let rest = merged >> 32;
    let b = pow2(8 * head.len());
    lemma2_to64();
    lemma_low_mask(merged, 32);
    lemma_shr(merged, 32);
    lemma_split(merged as nat, 32);
    assert(merged as u32 == merged & !(!0u64 << 32)) by (bit_vector);
    lemma_stream_concat(head, le_bytes(word as nat, 4));
    lemma_le_value_of_bytes(word as nat, 4);
    lemma_pow2_adds(8 * head.len(), 32);
    assert(8 * (head.len() + 4) as nat == 8 * head.len() + 32);
    assert(stream_of(head) + word as nat * b + rest as nat * (b * pow2(32)) == stream_of(head) + (
    word as nat + rest as nat * pow2(32)) * b) by (nonlinear_arith);
}

impl<'a> BitWriter<'a> {
    #[verifier::type_invariant]
    spec fn words_aligned(&self) -> bool {
        &&& self.bit_pos < 32
        &&& self.word_pos % 4 == 0
        &&& self.word_pos <= self.buf@.len()
        &&& self.buf@.len() % 4 == 0
        &&& 8 * self.buf@.len() <= usize::MAX
    }

    /// The borrowed buffer itself; what it holds once the writer is gone is
    /// what the caller's buffer holds.
    pub closed spec fn target(&self) -> &'a mut [u8] {
        self.buf
    }

    /// Once nothing writes through the writer any more, the caller's buffer
    /// holds what the writer's buffer holds.
    pub proof fn lemma_released(&self)
        requires
            has_resolved(*self),
        ensures
            final(self.target())@ == self@.buf,
    {
    }

    /// A writer at the first bit of `buf`.
    pub fn new(buf: &'a mut [u8]) -> (w: Self)
        requires
            old(buf)@.len() % 4 == 0,
            8 * old(buf)@.len() <= usize::MAX,
        ensures
            w@.buf == old(buf)@,
            w@.stream == 0,
            w@.len == 0,
            w@.counted == 0,
            final(w.target())@ == final(buf)@,
    {
        let w = BitWriter { buf, bit_pos: 0, current: 0, word_pos: 0, bits_written: 0 };
        proof {
            assert(w.buf@.subrange(0, 0) =~= Seq::<u8>::empty());
            assert(stream_of(Seq::<u8>::empty()) == 0);
            assert(w.current as nat * pow2(8 * w.word_pos as nat) == 0) by (nonlinear_arith)
                requires
                    w.current == 0,
            ;
        }
        w
    }

    /// Number of bits handed to the writer so far: the sum of the widths of
    /// all writes, whether they have reached the buffer or not.
    pub fn bit_len(&self) -> (n: usize)
        ensures
            n == self@.len,
    {
        proof {
            use_type_invariant(self);
        }
        assert(self.buf@.len() == self.buf.len());
        8 * self.word_pos + self.bit_pos as usize
    }

    /// Whether a write of `num_bits` bits finds the room it needs.
    pub fn has_room(&self, num_bits: u32) -> (b: bool)
        ensures
            b == self@.has_room(num_bits as nat),
    {
        proof {
            use_type_invariant(self);
        }
        num_bits < 32 - self.bit_pos || self.buf.len() - self.word_pos >= 4
    }

    /// Whether `flush_partials` finds the room it needs.
    pub fn can_flush(&self) -> (b: bool)
        ensures
            b == self@.can_flush(),
    {
        proof {
            use_type_invariant(self);
        }
        self.bit_pos == 0 || self.buf.len() - self.word_pos >= 4
    }

    /// Writes `word` into the four bytes at the word offset, least
    /// significant byte first, and moves nothing else.
    fn put_word(&mut self, word: u32)
        requires
            old(self).word_pos + 4 <= old(self).buf@.len(),
        ensures
            final(self).buf@ == overwrite(
                old(self).buf@,
                old(self).word_pos as int,
                le_bytes(word as nat, 4),
            ),
            final(self).current == old(self).current,
            final(self).bit_pos == old(self).bit_pos,
            final(self).word_pos == old(self).word_pos,
            final(self).bits_written == old(self).bits_written,
            final(final(self).buf)@ == final(old(self).buf)@,
    {
        let at: usize = self.word_pos;
        proof {
            use_type_invariant(&*self);
            lemma2_to64();
        }
        self.buf[at] = (word % 256) as u8;
        self.buf[at + 1] = ((word / 0x100) % 256) as u8;
        self.buf[at + 2] = ((word / 0x1_0000) % 256) as u8;
        self.buf[at + 3] = ((word / 0x100_0000) % 256) as u8;
        proof {
            let bytes = le_bytes(word as nat, 4);
            assert(bytes[0] == (word % 256) as u8) by {
                assert(8 * 0 as nat == 0);
            }
            assert(bytes[1] == ((word / 0x100) % 256) as u8) by {
                assert(8 * 1 as nat == 8);
            }
            assert(bytes[2] == ((word / 0x1_0000) % 256) as u8) by {
                assert(8 * 2 as nat == 16);
            }
            assert(bytes[3] == ((word / 0x100_0000) % 256) as u8) by {
                assert(8 * 3 as nat == 24);
            }
            assert(self.buf@ =~= overwrite(old(self).buf@, at as int, bytes));
        }
    }

    /// Writes the low `num_bits` bits of `value`. The value is or-ed into
    /// the stream as it is: bits of it above `num_bits` reach the bits that
    /// the next writes fill. Returns `value`.
    pub fn uint(&mut self, value: u32, num_bits: u32) -> (r: u32)
        requires
            num_bits <= 32,
            old(self)@.has_room(num_bits as nat),
        ensures
            r == value,
            final(self)@ == old(self)@.after_write(value, num_bits as nat),
            final(final(self).target())@ == final(old(self).target())@,
    {
        proof {
            use_type_invariant(&*self);
        }
        let ghost head = self.buf@.subrange(0, self.word_pos as int);
        let ghost bytes = self.word_pos as nat;
        let ghost goal = self@.after_write(value, num_bits as nat);
        proof {
            lemma_le_value_bound(head);
            lemma_or_into_accumulator(
                stream_of(head),
                bytes,
                self.current,
                value,
                self.bit_pos,
            );
        }
        let merged: u64 = self.current | ((value as u64) << self.bit_pos);
        if self.bit_pos + num_bits >= 32 {
            let word: u32 = #[verifier::truncate] (merged as u32);
            let rest: u64 = merged >> 32;
            self.put_word(word);
            proof {
                assert(self.buf@.subrange(0, bytes + 4 as int) =~= head + le_bytes(word as nat, 4));
                lemma_emit(head, merged);
                lemma_join(stream_of(head), merged as nat, 8 * bytes);
                assert(old(self)@.len == 8 * bytes + old(self).bit_pos);
                assert(old(self)@.whole_words() == bytes);
                assert(goal.stream == stream_of(head) + merged as nat * pow2(8 * bytes));
                assert(bits_at(goal.stream, 8 * bytes, 32) == word);
                assert(self.buf@ =~= goal.buf);
            }
            self.current = rest;
            self.word_pos = self.word_pos + 4;
            self.bit_pos = self.bit_pos + num_bits - 32;
            self.bits_written = 8 * self.word_pos;
        } else {
            self.current = merged;
            self.bit_pos = self.bit_pos + num_bits;
        }
        value
    }

    /// Writes `value` in `num_bits` bits of offset-binary code: the value
    /// plus `2^(num_bits - 1)`, cut to `num_bits` bits. Returns `value`.
    pub fn sint(&mut self, value: i32, num_bits: u32) -> (r: i32)
        requires
            1 <= num_bits <= 32,
            old(self)@.has_room(num_bits as nat),
        ensures
            r == value,
            final(self)@ == old(self)@.after_write(
                biased(value, num_bits as nat),
                num_bits as nat,
            ),
            final(final(self).target())@ == final(old(self).target())@,
    {
        let ghost raised = value + pow2((num_bits - 1) as nat);
        let ghost m = pow2(num_bits as nat);
        proof {
            lemma2_to64();
            lemma_pow2_le_32((num_bits - 1) as nat);
            lemma_pow2_le_32(num_bits as nat);
            lemma_shl(1, (num_bits - 1) as u32);
            lemma_shl(1, num_bits);
        }
        let half: u64 = 1u64 << (num_bits - 1);
        let modulus: u64 = 1u64 << num_bits;
        let lifted: u64 = (value as i64 + 0x1_0000_0000) as u64 + half;
        let code: u32 = (lifted % modulus) as u32;
        proof {
            let k = pow2((32 - num_bits) as nat);
            lemma_pow2_adds(num_bits as nat, (32 - num_bits) as nat);
            assert(m * k == 0x1_0000_0000);
            assert(lifted == m * k + raised);
            lemma_mod_multiples_vanish(k as int, raised, m as int);
            assert(code == biased(value, num_bits as nat));
        }
        self.uint(code, num_bits);
        value
    }

    /// Writes `b` as one bit. Returns `b`.
    pub fn bool(&mut self, b: bool) -> (r: bool)
        requires
            old(self)@.has_room(1),
        ensures
            r == b,
            final(self)@ == old(self)@.after_write(if b { 1u32 } else { 0u32 }, 1),
            final(final(self).target())@ == final(old(self).target())@,
    {
        let bit: u32 = if b { 1 } else { 0 };
        self.uint(bit, 1);
        b
    }

    /// Writes the bits of the last, partial word to the buffer, with zeros
    /// above them. To be called once, when everything has been written:
    /// without it up to 31 bits never reach the buffer. Afterwards the first
    /// `flushed_bytes` bytes of the buffer hold the stream.
    pub fn flush_partials(&mut self)
        requires
            old(self)@.can_flush(),
        ensures
            final(self)@ == old(self)@.after_flush(),
            final(self)@.buf.subrange(0, old(self)@.flushed_bytes() as int) == le_bytes(
                old(self)@.stream % pow2(old(self)@.len),
                old(self)@.flushed_bytes(),
            ),
            final(final(self).target())@ == final(old(self).target())@,
    {
        proof {
            use_type_invariant(&*self);
        }
        let ghost head = self.buf@.subrange(0, self.word_pos as int);
        let ghost bytes = self.word_pos as nat;
        let ghost goal = self@.after_flush();
        proof {
            lemma_le_value_bound(head);
            lemma_or_into_accumulator(stream_of(head), bytes, self.current, 0, self.bit_pos);
            lemma_join(stream_of(head), self.current as nat, 8 * bytes);
            lemma_low_mask(self.current, self.bit_pos);
            lemma_pow2_le_32(self.bit_pos as nat);
        }
        if self.bit_pos != 0 {
            let word: u32 = (self.current & !(!0u64 << self.bit_pos)) as u32;
            self.put_word(word);
            proof {
                let all = head + le_bytes(word as nat, 4);
                assert(self.buf@.subrange(0, bytes + 4 as int) =~= all);
                assert(self.buf@.subrange(0, bytes as int) =~= head);
                lemma2_to64();
                lemma_stream_concat(head, le_bytes(word as nat, 4));
                lemma_le_value_of_bytes(word as nat, 4);
                lemma_le_bytes_of_value(all);
                assert(self.buf@ =~= goal.buf);
            }
        } else {
            proof {
                lemma_le_bytes_of_value(head);
                assert(self.current as nat % 1 == 0);
                lemma2_to64();
            }
        }
        self.bits_written = 8 * self.word_pos + self.bit_pos as usize;
    }

    /// Number of bits that have reached the buffer: whole words only, until
    /// `flush_partials` has counted the bits of the last word in.
    pub fn bits_written(&self) -> (n: usize)
        ensures
            n == self@.counted,
    {
        self.bits_written
    }

    /// Number of bytes that hold the bits counted by `bits_written`.
    pub fn compute_bytes_written(&self) -> (n: usize)
        ensures
            n == (self@.counted + 7) / 8,
    {
        let whole: usize = self.bits_written / 8;
        if self.bits_written % 8 != 0 {
            whole + 1
        } else {
            whole
        }
    }
}

} // verus!
