//! A cursor that reads fixed-width little-endian values from a borrowed
//! buffer and never reads past its end.

use super::wire::{
    decode_bool, decode_i16, decode_i32, decode_i64, decode_i8, decode_u16, decode_u32,
    decode_u64, decode_u8, le_value, lemma_le_value_bound, parse_str, parse_varint15,
};
use crate::error::DecodeError;
use vstd::arithmetic::power2::{lemma2_to64, lemma2_to64_rest, lemma_pow2_adds, pow2};
use vstd::prelude::*;
use vstd::slice::slice_subrange;
use vstd::string::StringSliceAdditionalSpecFns;
use vstd::utf8::{encode_utf8_decode_utf8, valid_utf8};

verus! {

/// What a [`ByteReader`] is to its callers: the bytes it was made over, and
/// the cursor.
pub struct ByteReaderView {
    /// Every byte of the source, read or not.
    pub src: Seq<u8>,
    /// Offset of the next byte to be read.
    pub pos: nat,
}

impl ByteReaderView {
    /// The bytes from the cursor to the end of the source.
    pub open spec fn remaining(self) -> Seq<u8> {
        self.src.subrange(self.pos as int, self.src.len() as int)
    }

    /// The `n` bytes at the cursor.
    pub open spec fn peek(self, n: nat) -> Seq<u8> {
        self.src.subrange(self.pos as int, (self.pos + n) as int)
    }

    /// A read of `width` bytes from this view that gave `r` and left the
    /// reader as `after`: it gives `value` and moves the cursor on if the
    /// bytes are there, and else fails and moves nothing.
    pub open spec fn reads<T>(
        self,
        after: ByteReaderView,
        r: Result<T, DecodeError>,
        width: nat,
        value: T,
    ) -> bool {
        if self.pos + width <= self.src.len() {
            r == Ok::<T, DecodeError>(value) && after == self.advance(width)
        } else {
            r == Err::<T, DecodeError>(DecodeError::OutOfBounds) && after == self
        }
    }

    /// This view with the cursor moved `n` bytes on.
    pub open spec fn advance(self, n: nat) -> ByteReaderView {
        ByteReaderView { src: self.src, pos: self.pos + n }
    }
}

/// Reads from a borrowed buffer, advancing a cursor by the exact width of each
/// value. A read that would pass the end of the buffer fails and leaves the
/// cursor where it was.
pub struct ByteReader<'a> {
    src: &'a [u8],
    pos: usize,
}

impl<'a> View for ByteReader<'a> {
    type V = ByteReaderView;

    closed spec fn view(&self) -> ByteReaderView {
        ByteReaderView { src: self.src@, pos: self.pos as nat }
    }
}

/// The string that `bytes` hold, if they are valid UTF-8.
///
/// Trusted: wraps `core::str::from_utf8`, which checks that the bytes are
/// valid UTF-8 and, if so, hands them back as a string slice over the same
/// bytes; it fails on every other input.
#[verifier::external_body]
fn str_from_utf8<'a>(bytes: &'a [u8]) -> (r: Option<&'a str>)
    ensures
        r is Some <==> valid_utf8(bytes@),
        r matches Some(s) ==> s.spec_bytes() == bytes@,
{
    match core::str::from_utf8(bytes) {
        Ok(s) => Some(s),
        Err(_) => None,
    }
}

impl<'a> ByteReader<'a> {
    #[verifier::type_invariant]
    spec fn cursor_in_bounds(&self) -> bool {
        self.pos <= self.src@.len()
    }

    /// A reader at the start of `src`.
    pub fn new(src: &'a [u8]) -> (r: Self)
        ensures
            r@.src == src@,
            r@.pos == 0,
    {
        ByteReader { src, pos: 0 }
    }

    /// The bytes that have not been read yet.
    pub fn bytes(&self) -> (b: &[u8])
        ensures
            b@ == self@.remaining(),
    {
        proof {
            use_type_invariant(self);
        }
        slice_subrange(self.src, self.pos, self.src.len())
    }

    /// Forgets the bytes before the cursor: the cursor becomes the start of
    /// the source.
    pub fn mark_start(&mut self)
        ensures
            final(self)@.src == old(self)@.remaining(),
            final(self)@.pos == 0,
    {
        proof {
            use_type_invariant(&*self);
        }
        let rest = slice_subrange(self.src, self.pos, self.src.len());
        self.pos = 0;
        self.src = rest;
    }

    /// Moves the cursor back to the start of the source.
    pub fn reset(&mut self)
        ensures
            final(self)@.src == old(self)@.src,
            final(self)@.pos == 0,
    {
        self.pos = 0;
    }

    /// Length of the source.
    pub fn total_src_size(&self) -> (n: usize)
        ensures
            n == self@.src.len(),
    {
        self.src.len()
    }

    /// Number of bytes between the cursor and the end of the source.
    pub fn bytes_remaining(&self) -> (n: usize)
        ensures
            n == self@.src.len() - self@.pos,
            n == self@.remaining().len(),
            self@.src.len() <= usize::MAX,
    {
        proof {
            use_type_invariant(self);
        }
        self.src.len() - self.pos
    }

    /// Offset of the cursor from the start of the source.
    pub fn bytes_read(&self) -> (n: usize)
        ensures
            n == self@.pos,
    {
        self.pos
    }

    /// Whether at least `n` bytes are left.
    pub fn has_n_more(&self, n: usize) -> (b: bool)
        ensures
            b == (self@.pos + n <= self@.src.len()),
    {
        self.bytes_remaining() >= n
    }

    /// Moves the cursor `n` bytes on without reading.
    pub fn skip(&mut self, n: usize)
        requires
            old(self)@.pos + n <= old(self)@.src.len(),
        ensures
            final(self)@ == old(self)@.advance(n as nat),
    {
        assert(self.src@.len() == self.src.len());
        self.pos = self.pos + n;
    }

    /// Moves the cursor `n` bytes back.
    pub fn back(&mut self, n: usize)
        requires
            n <= old(self)@.pos,
        ensures
            final(self)@.src == old(self)@.src,
            final(self)@.pos == old(self)@.pos - n,
    {
        proof {
            use_type_invariant(&*self);
        }
        self.pos = self.pos - n;
    }

    /// The number that the `width` bytes at the cursor stand for, least
    /// significant byte first.
    fn load(&self, width: usize) -> (v: u64)
        requires
            1 <= width <= 8,
            self.pos + width <= self.src@.len(),
        ensures
            v == le_value(self@.peek(width as nat)),
    {
        assert(self.src@.len() == self.src.len());
        let end: usize = self.pos + width;
        let mut v: u64 = 0;
        let mut i: usize = 0;
        while i < width
            invariant
                i <= width <= 8,
                end == self.pos + width,
                end <= self.src@.len(),
                v == le_value(self.src@.subrange(end - i, end as int)),
            decreases width - i,
        {
            let ghost tail = self.src@.subrange(end - i, end as int);
            let ghost next = self.src@.subrange(end - i - 1, end as int);
            proof {
                lemma2_to64();
                lemma2_to64_rest();
                lemma_le_value_bound(tail);
                assert(next.drop_first() =~= tail);
                if i < 7 {
                    lemma_pow2_adds(8 * i as nat, (56 - 8 * i) as nat);
                    assert(pow2(8 * i as nat) <= pow2(56)) by (nonlinear_arith)
                        requires
                            pow2(8 * i as nat) * pow2((56 - 8 * i) as nat) == pow2(56),
                            pow2((56 - 8 * i) as nat) >= 1,
                    ;
                }
            }
            v = v * 256 + self.src[end - i - 1] as u64;
            i = i + 1;
        }
        proof {
            assert(self.src@.subrange(end - width, end as int) =~= self@.peek(width as nat));
        }
        v
    }

    /// Copies the next `dst.len()` bytes into `dst`.
    pub fn read(&mut self, dst: &mut [u8]) -> (r: Result<(), DecodeError>)
        ensures
            old(self)@.reads(final(self)@, r, old(dst)@.len(), ()),
            final(dst)@ == (if r is Ok {
                old(self)@.peek(old(dst)@.len())
            } else {
                old(dst)@
            }),
    {
        let n: usize = dst.len();
        if self.bytes_remaining() < n {
            return Err(DecodeError::OutOfBounds);
        }
        let mut i: usize = 0;
        while i < n
            invariant
                i <= n,
                n == dst@.len(),
                dst@.len() == old(dst)@.len(),
                self.pos + n <= self.src@.len() <= usize::MAX,
                forall|j: int| 0 <= j < i ==> dst@[j] == self.src@[self.pos + j],
            decreases n - i,
        {
            dst[i] = self.src[self.pos + i];
            i = i + 1;
        }
        proof {
            assert(dst@ =~= old(self)@.peek(n as nat));
        }
        self.pos = self.pos + n;
        Ok(())
    }

    /// Reads one byte.
    pub fn read_u8(&mut self) -> (r: Result<u8, DecodeError>)
        ensures
            old(self)@.reads(final(self)@, r, 1, decode_u8(old(self)@.peek(1))),
    {
        if self.bytes_remaining() < 1 {
            return Err(DecodeError::OutOfBounds);
        }
        let x = self.src[self.pos];
        self.pos = self.pos + 1;
        Ok(x)
    }

    /// Reads a `u16`, least significant byte first.
    pub fn read_u16(&mut self) -> (r: Result<u16, DecodeError>)
        ensures
            old(self)@.reads(final(self)@, r, 2, decode_u16(old(self)@.peek(2))),
    {
        if self.bytes_remaining() < 2 {
            return Err(DecodeError::OutOfBounds);
        }
        proof {
            lemma2_to64();
            lemma_le_value_bound(self@.peek(2));
        }
        let x = self.load(2) as u16;
        self.pos = self.pos + 2;
        Ok(x)
    }

    /// Reads a `u32`, least significant byte first.
    pub fn read_u32(&mut self) -> (r: Result<u32, DecodeError>)
        ensures
            old(self)@.reads(final(self)@, r, 4, decode_u32(old(self)@.peek(4))),
    {
        if self.bytes_remaining() < 4 {
            return Err(DecodeError::OutOfBounds);
        }
        proof {
            lemma2_to64();
            lemma_le_value_bound(self@.peek(4));
        }
        let x = self.load(4) as u32;
        self.pos = self.pos + 4;
        Ok(x)
    }

    /// Reads a `u64`, least significant byte first.
    pub fn read_u64(&mut self) -> (r: Result<u64, DecodeError>)
        ensures
            old(self)@.reads(final(self)@, r, 8, decode_u64(old(self)@.peek(8))),
    {
        if self.bytes_remaining() < 8 {
            return Err(DecodeError::OutOfBounds);
        }
        let x = self.load(8);
        self.pos = self.pos + 8;
        Ok(x)
    }

    /// Reads an `i8` from its bit pattern.
    pub fn read_i8(&mut self) -> (r: Result<i8, DecodeError>)
        ensures
            old(self)@.reads(final(self)@, r, 1, decode_i8(old(self)@.peek(1))),
    {
        match self.read_u8() {
            Ok(x) => Ok(#[verifier::truncate] (x as i8)),
            Err(e) => Err(e),
        }
    }

    /// Reads an `i16` from its bit pattern, least significant byte first.
    pub fn read_i16(&mut self) -> (r: Result<i16, DecodeError>)
        ensures
            old(self)@.reads(final(self)@, r, 2, decode_i16(old(self)@.peek(2))),
    {
        match self.read_u16() {
            Ok(x) => Ok(#[verifier::truncate] (x as i16)),
            Err(e) => Err(e),
        }
    }

    /// Reads an `i32` from its bit pattern, least significant byte first.
    pub fn read_i32(&mut self) -> (r: Result<i32, DecodeError>)
        ensures
            old(self)@.reads(final(self)@, r, 4, decode_i32(old(self)@.peek(4))),
    {
        match self.read_u32() {
            Ok(x) => Ok(#[verifier::truncate] (x as i32)),
            Err(e) => Err(e),
        }
    }

    /// Reads an `i64` from its bit pattern, least significant byte first.
    pub fn read_i64(&mut self) -> (r: Result<i64, DecodeError>)
        ensures
            old(self)@.reads(final(self)@, r, 8, decode_i64(old(self)@.peek(8))),
    {
        match self.read_u64() {
            Ok(x) => Ok(#[verifier::truncate] (x as i64)),
            Err(e) => Err(e),
        }
    }

    /// Reads a `bool`: one byte, `true` unless it is zero.
    pub fn read_bool(&mut self) -> (r: Result<bool, DecodeError>)
        ensures
            old(self)@.reads(final(self)@, r, 1, decode_bool(old(self)@.peek(1))),
    {
        match self.read_u8() {
            Ok(x) => Ok(x != 0),
            Err(e) => Err(e),
        }
    }

    /// Reads a string: a `u16` byte length, then that many bytes of UTF-8.
    /// On failure the cursor stays where it was.
    pub fn read_str(&mut self) -> (r: Result<&'a str, DecodeError>)
        ensures
            match parse_str(old(self)@.remaining()) {
                Ok((chars, used)) => {
                    &&& r is Ok
                    &&& r->Ok_0@ == chars
                    &&& final(self)@ == old(self)@.advance(used)
                },
                Err(e) => r is Err && r->Err_0 == e && final(self)@ == old(self)@,
            },
    {
        let ghost rest = self@.remaining();
        if self.bytes_remaining() < 2 {
            return Err(DecodeError::OutOfBounds);
        }
        proof {
            lemma2_to64();
            lemma_le_value_bound(self@.peek(2));
            assert(rest.subrange(0, 2) =~= self@.peek(2));
        }
        let len = self.load(2) as usize;
        if self.bytes_remaining() - 2 < len {
            return Err(DecodeError::OutOfBounds);
        }
        let body = slice_subrange(self.src, self.pos + 2, self.pos + 2 + len);
        proof {
            assert(rest.subrange(2, 2 + len) =~= body@);
        }
        match str_from_utf8(body) {
            Some(s) => {
                proof {
                    encode_utf8_decode_utf8(s@);
                }
                self.pos = self.pos + 2 + len;
                Ok(s)
            },
            None => Err(DecodeError::InvalidUtf8),
        }
    }

    /// Reads a 15-bit varint: one byte if its top bit is clear, else two.
    /// On failure the cursor stays where it was.
    pub fn read_varint15(&mut self) -> (r: Result<u16, DecodeError>)
        ensures
            match parse_varint15(old(self)@.remaining()) {
                Some((value, used)) => {
                    &&& r == Ok::<u16, DecodeError>(value)
                    &&& final(self)@ == old(self)@.advance(used)
                },
                None => r == Err::<u16, DecodeError>(DecodeError::OutOfBounds) && final(self)@
                    == old(self)@,
            },
    {
        let left = self.bytes_remaining();
        if left < 1 {
            return Err(DecodeError::OutOfBounds);
        }
        let first = self.src[self.pos];
        if first < 128 {
            self.pos = self.pos + 1;
            Ok(first as u16)
        } else if left < 2 {
            Err(DecodeError::OutOfBounds)
        } else {
            let second = self.src[self.pos + 1];
            self.pos = self.pos + 2;
            Ok((first - 128) as u16 + 128 * (second as u16))
        }
    }
}

} // verus!
