//! A cursor that writes fixed-width little-endian values into a borrowed
//! buffer.

use super::wire::{
    encode_bool, encode_i16, encode_i32, encode_i64, encode_i8, encode_str, encode_u16,
    encode_u32, encode_u64, encode_u8, encode_varint15, le_bytes, overwrite,
};
use crate::error::FramingError;
use vstd::arithmetic::div_mod::lemma_div_denominator;
use vstd::arithmetic::power2::{lemma2_to64, lemma_pow2_adds, lemma_pow2_pos, pow2};
use vstd::prelude::*;
use vstd::string::StringSliceAdditionalSpecFns;

verus! {

/// What a [`ByteWriter`] is to its callers: the whole buffer as it stands, and
/// the cursor.
pub struct ByteWriterView {
    /// Every byte of the buffer, written or not.
    pub buf: Seq<u8>,
    /// Offset of the next byte to be written.
    pub pos: nat,
}

/// Writes into a caller-owned buffer, advancing a cursor by the exact width of
/// each value.
pub struct ByteWriter<'a> {
    dst: &'a mut [u8],
    pos: usize,
}

impl<'a> View for ByteWriter<'a> {
    type V = ByteWriterView;

    closed spec fn view(&self) -> ByteWriterView {
        ByteWriterView { buf: self.dst@, pos: self.pos as nat }
    }
}

impl<'a> ByteWriter<'a> {
    #[verifier::type_invariant]
    spec fn cursor_in_bounds(&self) -> bool {
        self.pos <= self.dst@.len()
    }

    /// The borrowed buffer itself; what it holds once the writer is gone is
    /// what the caller's buffer holds.
    pub closed spec fn target(&self) -> &'a mut [u8] {
        self.dst
    }

    /// Once nothing writes through the writer any more, the caller's buffer
    /// holds what the writer's buffer holds.
    pub proof fn lemma_released(&self)
        requires
            has_resolved(*self),
        ensures
            final(self.target())@ == self@.buf,
    {
    }

    /// `self` is `before` after `bytes` were written at its cursor.
    pub open spec fn wrote(&self, before: &Self, bytes: Seq<u8>) -> bool {
        &&& self@.pos == before@.pos + bytes.len()
        &&& self@.buf == overwrite(before@.buf, before@.pos as int, bytes)
    }

    /// A writer at the start of `dst`.
    pub fn new(dst: &'a mut [u8]) -> (w: Self)
        ensures
            w@.pos == 0,
            w@.buf == old(dst)@,
            final(w.target())@ == final(dst)@,
    {
        ByteWriter { dst, pos: 0 }
    }

    /// A writer that leaves the first two bytes of `dst` free for the length
    /// prefix of a message.
    pub fn new_for_message(dst: &'a mut [u8]) -> (w: Self)
        requires
            old(dst)@.len() >= 2,
        ensures
            w@.pos == 2,
            w@.buf == old(dst)@,
            final(w.target())@ == final(dst)@,
    {
        ByteWriter { dst, pos: 2 }
    }

    /// Offset of the cursor from the start of the buffer.
    pub fn bytes_written(&self) -> (n: usize)
        ensures
            n == self@.pos,
    {
        self.pos
    }

    /// Number of bytes between the cursor and the end of the buffer.
    pub fn space_remaining(&self) -> (n: usize)
        ensures
            n == self@.buf.len() - self@.pos,
    {
        proof {
            use_type_invariant(self);
        }
        self.dst.len() - self.pos
    }

    /// Moves the cursor `count` bytes on without writing.
    pub fn skip(&mut self, count: usize) -> (r: &mut Self)
        requires
            old(self)@.pos + count <= old(self)@.buf.len(),
        ensures
            r@.pos == old(self)@.pos + count,
            r@.buf == old(self)@.buf,
            final(r.target())@ == final(old(self).target())@,
            *final(self) == *final(r),
    {
        assert(self.dst@.len() == self.dst.len());
        self.pos = self.pos + count;
        self
    }

    /// Writes the `width` low-order bytes of `value`, least significant first.
    fn store(&mut self, value: u64, width: usize)
        requires
            1 <= width <= 8,
            old(self).pos + width <= old(self).dst@.len(),
        ensures
            final(self).wrote(old(self), le_bytes(value as nat, width as nat)),
            final(final(self).dst)@ == final(old(self).dst)@,
    {
        assert(self.dst@.len() == self.dst.len());
        let mut rest: u64 = value;
        let mut i: usize = 0;
        proof {
            lemma2_to64();
            assert(value as nat / 1 == value as nat);
        }
        while i < width
            invariant
                i <= width <= 8,
                self.pos == old(self).pos,
                self.pos + width <= self.dst@.len() <= usize::MAX,
                self.dst@.len() == old(self).dst@.len(),
                final(self.dst)@ == final(old(self).dst)@,
                rest == value as nat / pow2(8 * i as nat),
                forall|j: int|
                    0 <= j < self.dst@.len() ==> self.dst@[j] == (if self.pos <= j < self.pos + i {
                        le_bytes(value as nat, width as nat)[j - self.pos]
                    } else {
                        old(self).dst@[j]
                    }),
            decreases width - i,
        {
            proof {
                lemma2_to64();
                lemma_pow2_adds(8 * i as nat, 8);
                lemma_pow2_pos(8 * i as nat);
                lemma_div_denominator(value as int, pow2(8 * i as nat) as int, 256);
                assert(8 * (i + 1) as nat == 8 * i as nat + 8);
            }
            let low: u8 = (rest % 256) as u8;
            self.dst[self.pos + i] = low;
            rest = rest / 256;
            i = i + 1;
        }
        self.pos = self.pos + width;
        proof {
            assert(self.dst@ =~= overwrite(
                old(self).dst@,
                old(self).pos as int,
                le_bytes(value as nat, width as nat),
            ));
        }
    }

    /// Writes the bytes of `src` at the cursor.
    pub fn write(&mut self, src: &[u8]) -> (r: &mut Self)
        requires
            old(self)@.pos + src@.len() <= old(self)@.buf.len(),
        ensures
            r.wrote(old(self), src@),
            final(r.target())@ == final(old(self).target())@,
            *final(self) == *final(r),
    {
        assert(self.dst@.len() == self.dst.len());
        let mut i: usize = 0;
        while i < src.len()
            invariant
                i <= src@.len(),
                self.pos == old(self).pos,
                self.pos + src@.len() <= self.dst@.len() <= usize::MAX,
                self.dst@.len() == old(self).dst@.len(),
                final(self.dst)@ == final(old(self).dst)@,
                forall|j: int|
                    0 <= j < self.dst@.len() ==> self.dst@[j] == (if self.pos <= j < self.pos + i {
                        src@[j - self.pos]
                    } else {
                        old(self).dst@[j]
                    }),
            decreases src@.len() - i,
        {
            self.dst[self.pos + i] = src[i];
            i = i + 1;
        }
        self.pos = self.pos + src.len();
        proof {
            assert(self.dst@ =~= overwrite(old(self).dst@, old(self).pos as int, src@));
        }
        self
    }

    /// Writes one byte.
    pub fn write_u8(&mut self, x: u8) -> (r: &mut Self)
        requires
            old(self)@.pos + 1 <= old(self)@.buf.len(),
        ensures
            r.wrote(old(self), encode_u8(x)),
            final(r.target())@ == final(old(self).target())@,
            *final(self) == *final(r),
    {
        self.dst[self.pos] = x;
        self.pos = self.pos + 1;
        proof {
            assert(self.dst@ =~= overwrite(old(self).dst@, old(self).pos as int, encode_u8(x)));
        }
        self
    }

    /// Writes a `u16`, least significant byte first.
    pub fn write_u16(&mut self, x: u16) -> (r: &mut Self)
        requires
            old(self)@.pos + 2 <= old(self)@.buf.len(),
        ensures
            r.wrote(old(self), encode_u16(x)),
            final(r.target())@ == final(old(self).target())@,
            *final(self) == *final(r),
    {
        self.store(x as u64, 2);
        self
    }

    /// Writes a `u32`, least significant byte first.
    pub fn write_u32(&mut self, x: u32) -> (r: &mut Self)
        requires
            old(self)@.pos + 4 <= old(self)@.buf.len(),
        ensures
            r.wrote(old(self), encode_u32(x)),
            final(r.target())@ == final(old(self).target())@,
            *final(self) == *final(r),
    {
        self.store(x as u64, 4);
        self
    }

    /// Writes a `u64`, least significant byte first.
    pub fn write_u64(&mut self, x: u64) -> (r: &mut Self)
        requires
            old(self)@.pos + 8 <= old(self)@.buf.len(),
        ensures
            r.wrote(old(self), encode_u64(x)),
            final(r.target())@ == final(old(self).target())@,
            *final(self) == *final(r),
    {
        self.store(x, 8);
        self
    }

    /// Writes an `i8` as its bit pattern.
    pub fn write_i8(&mut self, x: i8) -> (r: &mut Self)
        requires
            old(self)@.pos + 1 <= old(self)@.buf.len(),
        ensures
            r.wrote(old(self), encode_i8(x)),
            final(r.target())@ == final(old(self).target())@,
            *final(self) == *final(r),
    {
        self.write_u8(#[verifier::truncate] (x as u8))
    }

    /// Writes an `i16` as its bit pattern, least significant byte first.
    pub fn write_i16(&mut self, x: i16) -> (r: &mut Self)
        requires
            old(self)@.pos + 2 <= old(self)@.buf.len(),
        ensures
            r.wrote(old(self), encode_i16(x)),
            final(r.target())@ == final(old(self).target())@,
            *final(self) == *final(r),
    {
        self.write_u16(#[verifier::truncate] (x as u16))
    }

    /// Writes an `i32` as its bit pattern, least significant byte first.
    pub fn write_i32(&mut self, x: i32) -> (r: &mut Self)
        requires
            old(self)@.pos + 4 <= old(self)@.buf.len(),
        ensures
            r.wrote(old(self), encode_i32(x)),
            final(r.target())@ == final(old(self).target())@,
            *final(self) == *final(r),
    {
        self.write_u32(#[verifier::truncate] (x as u32))
    }

    /// Writes an `i64` as its bit pattern, least significant byte first.
    pub fn write_i64(&mut self, x: i64) -> (r: &mut Self)
        requires
            old(self)@.pos + 8 <= old(self)@.buf.len(),
        ensures
            r.wrote(old(self), encode_i64(x)),
            final(r.target())@ == final(old(self).target())@,
            *final(self) == *final(r),
    {
        self.write_u64(#[verifier::truncate] (x as u64))
    }

    /// Writes a `bool` as one byte, 1 or 0.
    pub fn write_bool(&mut self, x: bool) -> (r: &mut Self)
        requires
            old(self)@.pos + 1 <= old(self)@.buf.len(),
        ensures
            r.wrote(old(self), encode_bool(x)),
            final(r.target())@ == final(old(self).target())@,
            *final(self) == *final(r),
    {
        let byte: u8 = if x { 1 } else { 0 };
        self.write_u8(byte)
    }

    /// Writes a string: its UTF-8 byte length as a `u16`, then the bytes.
    pub fn write_str(&mut self, x: &str) -> (r: &mut Self)
        requires
            x.spec_bytes().len() <= u16::MAX,
            old(self)@.pos + 2 + x.spec_bytes().len() <= old(self)@.buf.len(),
        ensures
            r.wrote(old(self), encode_str(x@)),
            final(r.target())@ == final(old(self).target())@,
            *final(self) == *final(r),
    {
        let bytes = x.as_bytes();
        self.store(bytes.len() as u64, 2);
        let r = self.write(bytes);
        proof {
            assert(r@.buf =~= overwrite(old(self)@.buf, old(self)@.pos as int, encode_str(x@)));
        }
        r
    }

    /// Writes `x` as a 15-bit varint: one byte below 128, else two.
    pub fn write_varint15(&mut self, x: u16) -> (r: &mut Self)
        requires
            x < 32768,
            old(self)@.pos + encode_varint15(x).len() <= old(self)@.buf.len(),
        ensures
            r.wrote(old(self), encode_varint15(x)),
            final(r.target())@ == final(old(self).target())@,
            *final(self) == *final(r),
    {
        if x < 128 {
            self.write_u8(x as u8)
        } else {
            self.write_u8((x % 128 + 128) as u8);
            let r = self.write_u8((x / 128) as u8);
            proof {
                assert(r@.buf =~= overwrite(
                    old(self)@.buf,
                    old(self)@.pos as int,
                    encode_varint15(x),
                ));
            }
            r
        }
    }

    /// Writes `x` as a 15-bit varint that ends where a two-byte field ends: a
    /// two-byte varint fills the field, a one-byte varint follows one filler
    /// byte of value 7. Returns the offset of the varint inside the field.
    pub fn write_varint15_r(&mut self, x: u16) -> (off: usize)
        requires
            x < 32768,
            old(self)@.pos + 2 <= old(self)@.buf.len(),
        ensures
            off == 2 - encode_varint15(x).len(),
            final(self).wrote(
                old(self),
                if x > 127 {
                    encode_varint15(x)
                } else {
                    seq![7u8] + encode_varint15(x)
                },
            ),
            final(final(self).target())@ == final(old(self).target())@,
    {
        if x > 127 {
            self.write_u8((x % 128 + 128) as u8);
            self.write_u8((x / 128) as u8);
            proof {
                assert(self@.buf =~= overwrite(
                    old(self)@.buf,
                    old(self)@.pos as int,
                    encode_varint15(x),
                ));
            }
            0
        } else {
            self.write_u8(7);
            self.write_u8(x as u8);
            proof {
                assert(self@.buf =~= overwrite(
                    old(self)@.buf,
                    old(self)@.pos as int,
                    seq![7u8] + encode_varint15(x),
                ));
            }
            1
        }
    }

    /// Writes into the first two bytes of the buffer the number of bytes that
    /// lie between them and the cursor, as a `u16`; zero if the cursor has not
    /// passed them. A payload that a `u16` cannot count is refused, and
    /// nothing is written.
    pub fn write_message_len(&mut self) -> (res: Result<&mut Self, FramingError>)
        requires
            old(self)@.buf.len() >= 2,
        ensures
            old(self)@.pos <= 2 + u16::MAX <==> res is Ok,
            res matches Ok(r) ==> {
                &&& r@.pos == old(self)@.pos
                &&& r@.buf == overwrite(
                    old(self)@.buf,
                    0,
                    encode_u16(
                        if old(self)@.pos >= 2 {
                            (old(self)@.pos - 2) as u16
                        } else {
                            0
                        },
                    ),
                )
                &&& final(r.target())@ == final(old(self).target())@
                &&& *final(self) == *final(r)
            },
            res matches Err(e) ==> e == FramingError::Oversized && *final(self) == *old(self),
    {
        if self.pos > 65537 {
            return Err(FramingError::Oversized);
        }
        let len: u16 = if self.pos >= 2 { (self.pos - 2) as u16 } else { 0 };
        let pos = self.pos;
        proof {
            use_type_invariant(&*self);
        }
        self.pos = 0;
        self.store(len as u64, 2);
        assert(self.dst@.len() == old(self).dst@.len());
        self.pos = pos;
        Ok(self)
    }

    /// The bytes before the cursor.
    pub fn bytes(&self) -> (b: &[u8])
        ensures
            b@ == self@.buf.subrange(0, self@.pos as int),
    {
        proof {
            use_type_invariant(self);
        }
        vstd::slice::slice_subrange(&*self.dst, 0, self.pos)
    }

    /// Gives up the writer for the bytes before the cursor.
    pub fn into_bytes(self) -> (b: &'a [u8])
        ensures
            b@ == self@.buf.subrange(0, self@.pos as int),
            final(self.target())@ == self@.buf,
    {
        proof {
            use_type_invariant(&self);
        }
        vstd::slice::slice_subrange(&*self.dst, 0, self.pos)
    }
}

} // verus!
