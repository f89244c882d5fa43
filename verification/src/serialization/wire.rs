//! The mathematical model of the wire encodings: what a run of bytes means as a
//! number, and which bytes stand for a value.

use vstd::arithmetic::div_mod::{lemma_div_denominator, lemma_fundamental_div_mod};
use vstd::arithmetic::power2::{lemma2_to64, lemma_pow2_adds, lemma_pow2_pos, pow2};
use vstd::prelude::*;
use vstd::utf8::{
    decode_utf8, encode_utf8, encode_utf8_decode_utf8, encode_utf8_valid_utf8, valid_utf8,
};
use crate::error::DecodeError;

verus! {

/// The number that `bytes` stand for when read least significant byte first.
pub open spec fn le_value(bytes: Seq<u8>) -> nat
    decreases bytes.len(),
{
    if bytes.len() == 0 {
        0
    } else {
        bytes[0] as nat + 256 * le_value(bytes.drop_first())
    }
}

/// The `width` low-order bytes of `value`, least significant first: byte `i`
/// is `value / 256^i mod 256`.
pub open spec fn le_bytes(value: nat, width: nat) -> Seq<u8> {
    Seq::new(width, |i: int| ((value / pow2(8 * i as nat)) % 256) as u8)
}

/// The wire form of a `u8`: the byte itself.
pub open spec fn encode_u8(x: u8) -> Seq<u8> {
    seq![x]
}

/// The wire form of a `u16`: two bytes, least significant first.
pub open spec fn encode_u16(x: u16) -> Seq<u8> {
    le_bytes(x as nat, 2)
}

/// The wire form of a `u32`: four bytes, least significant first.
pub open spec fn encode_u32(x: u32) -> Seq<u8> {
    le_bytes(x as nat, 4)
}

/// The wire form of a `u64`: eight bytes, least significant first.
pub open spec fn encode_u64(x: u64) -> Seq<u8> {
    le_bytes(x as nat, 8)
}

/// The wire form of an `i8`: its bit pattern as a `u8`.
pub open spec fn encode_i8(x: i8) -> Seq<u8> {
    encode_u8(x as u8)
}

/// The wire form of an `i16`: its bit pattern as a `u16`.
pub open spec fn encode_i16(x: i16) -> Seq<u8> {
    encode_u16(x as u16)
}

/// The wire form of an `i32`: its bit pattern as a `u32`.
pub open spec fn encode_i32(x: i32) -> Seq<u8> {
    encode_u32(x as u32)
}

/// The wire form of an `i64`: its bit pattern as a `u64`.
pub open spec fn encode_i64(x: i64) -> Seq<u8> {
    encode_u64(x as u64)
}

/// The wire form of a `bool`: one byte, 1 for `true` and 0 for `false`.
pub open spec fn encode_bool(x: bool) -> Seq<u8> {
    seq![if x { 1u8 } else { 0u8 }]
}

/// The wire form of a string: the byte length of its UTF-8 form as a `u16`,
/// then those bytes. No terminator, and the length counts bytes, not
/// characters.
pub open spec fn encode_str(chars: Seq<char>) -> Seq<u8> {
    encode_u16(encode_utf8(chars).len() as u16) + encode_utf8(chars)
}

/// The wire form of a value below 32768 as a 15-bit varint: one byte with the
/// top bit clear for a value below 128, else the low seven bits with the top
/// bit set, then the high eight bits.
pub open spec fn encode_varint15(v: u16) -> Seq<u8>
    recommends
        v < 32768,
{
    if v < 128 {
        seq![v as u8]
    } else {
        seq![(v % 128 + 128) as u8, (v / 128) as u8]
    }
}

/// Number of bytes of the varint that starts with `first`.
pub open spec fn varint15_len(first: u8) -> nat {
    if first < 128 {
        1
    } else {
        2
    }
}

/// The value of the varint at the start of `bytes`.
pub open spec fn decode_varint15(bytes: Seq<u8>) -> u16
    recommends
        bytes.len() >= 1,
        bytes.len() >= varint15_len(bytes[0]),
{
    if bytes[0] < 128 {
        bytes[0] as u16
    } else {
        (bytes[0] - 128 + 128 * bytes[1]) as u16
    }
}

/// What reading a string from the start of `bytes` gives: the characters and
/// the number of bytes used, or the reason why there is no string there.
pub open spec fn parse_str(bytes: Seq<u8>) -> Result<(Seq<char>, nat), DecodeError> {
    if bytes.len() < 2 {
        Err(DecodeError::OutOfBounds)
    } else {
        let n = decode_u16(bytes.subrange(0, 2)) as int;
        if bytes.len() < 2 + n {
            Err(DecodeError::OutOfBounds)
        } else if !valid_utf8(bytes.subrange(2, 2 + n)) {
            Err(DecodeError::InvalidUtf8)
        } else {
            Ok((decode_utf8(bytes.subrange(2, 2 + n)), (2 + n) as nat))
        }
    }
}

/// What reading a 15-bit varint from the start of `bytes` gives: the value
/// and the number of bytes used, if the bytes are there.
pub open spec fn parse_varint15(bytes: Seq<u8>) -> Option<(u16, nat)> {
    if bytes.len() < 1 || bytes.len() < varint15_len(bytes[0]) {
        None
    } else {
        Some((decode_varint15(bytes), varint15_len(bytes[0])))
    }
}

/// The `u8` that one byte stands for.
pub open spec fn decode_u8(bytes: Seq<u8>) -> u8
{
    bytes[0]
}

/// The `u16` that two bytes stand for.
pub open spec fn decode_u16(bytes: Seq<u8>) -> u16
{
    le_value(bytes) as u16
}

/// The `u32` that four bytes stand for.
pub open spec fn decode_u32(bytes: Seq<u8>) -> u32
{
    le_value(bytes) as u32
}

/// The `u64` that eight bytes stand for.
pub open spec fn decode_u64(bytes: Seq<u8>) -> u64
{
    le_value(bytes) as u64
}

/// The `i8` whose bit pattern one byte holds.
pub open spec fn decode_i8(bytes: Seq<u8>) -> i8
{
    decode_u8(bytes) as i8
}

/// The `i16` whose bit pattern two bytes hold.
pub open spec fn decode_i16(bytes: Seq<u8>) -> i16
{
    decode_u16(bytes) as i16
}

/// The `i32` whose bit pattern four bytes hold.
pub open spec fn decode_i32(bytes: Seq<u8>) -> i32
{
    decode_u32(bytes) as i32
}

/// The `i64` whose bit pattern eight bytes hold.
pub open spec fn decode_i64(bytes: Seq<u8>) -> i64
{
    decode_u64(bytes) as i64
}

/// The `bool` that one byte stands for: any nonzero byte is `true`.
pub open spec fn decode_bool(bytes: Seq<u8>) -> bool
{
    bytes[0] != 0
}

/// `buf` with `bytes` written over the positions from `at` on.
pub open spec fn overwrite(buf: Seq<u8>, at: int, bytes: Seq<u8>) -> Seq<u8> {
    Seq::new(
        buf.len(),
        |i: int|
            if at <= i < at + bytes.len() {
                bytes[i - at]
            } else {
                buf[i]
            },
    )
}

/// Dropping the first byte of an encoding leaves the encoding of the value
/// divided by 256.
pub proof fn lemma_le_bytes_drop_first(value: nat, width: nat)
    requires
        width > 0,
    ensures
        le_bytes(value, width)[0] == (value % 256) as u8,
        le_bytes(value, width).drop_first() == le_bytes(value / 256, (width - 1) as nat),
{
    lemma2_to64();
    assert forall|i: int| 0 <= i < width - 1 implies le_bytes(value, width).drop_first()[i]
        == le_bytes(value / 256, (width - 1) as nat)[i] by {
        lemma_pow2_adds(8, 8 * i as nat);
        lemma_pow2_pos(8 * i as nat);
        lemma_div_denominator(value as int, 256, pow2(8 * i as nat) as int);
        assert(8 * (i + 1) as nat == 8 + 8 * i as nat);
    }
    assert(le_bytes(value, width).drop_first() =~= le_bytes(value / 256, (width - 1) as nat));
    assert(8 * 0 as nat == 0);
    assert(value / 1 == value);
}

/// A run of `n` bytes stands for a number below `256^n`.
pub proof fn lemma_le_value_bound(bytes: Seq<u8>)
    ensures
        le_value(bytes) < pow2(8 * bytes.len()),
    decreases bytes.len(),
{
    lemma2_to64();
    if bytes.len() > 0 {
        let rest = bytes.drop_first();
        lemma_le_value_bound(rest);
        lemma_pow2_adds(8, 8 * rest.len());
        assert(8 * bytes.len() == 8 + 8 * rest.len());
        assert(256 * le_value(rest) + 256 <= 256 * pow2(8 * rest.len())) by (nonlinear_arith)
            requires
                le_value(rest) < pow2(8 * rest.len()),
        ;
    }
}

/// Decoding the encoding of a value that fits in `width` bytes gives the value
/// back.
pub proof fn lemma_le_value_of_bytes(value: nat, width: nat)
    requires
        value < pow2(8 * width),
    ensures
        le_value(le_bytes(value, width)) == value,
    decreases width,
{
    lemma2_to64();
    if width > 0 {
        let rest = (width - 1) as nat;
        lemma_le_bytes_drop_first(value, width);
        lemma_pow2_adds(8, 8 * rest);
        assert(8 * width == 8 + 8 * rest);
        assert(value / 256 < pow2(8 * rest)) by (nonlinear_arith)
            requires
                value < 256 * pow2(8 * rest),
        ;
        lemma_le_value_of_bytes(value / 256, rest);
        lemma_fundamental_div_mod(value as int, 256);
    }
}

/// Encoding the number that a run of bytes stands for, at the run's own width,
/// gives the bytes back.
pub proof fn lemma_le_bytes_of_value(bytes: Seq<u8>)
    ensures
        le_bytes(le_value(bytes), bytes.len()) == bytes,
    decreases bytes.len(),
{
    if bytes.len() > 0 {
        let rest = bytes.drop_first();
        let value = le_value(bytes);
        lemma_le_bytes_of_value(rest);
        lemma_le_bytes_drop_first(value, bytes.len());
        assert(value / 256 == le_value(rest) && value % 256 == bytes[0]) by (nonlinear_arith)
            requires
                value == bytes[0] as nat + 256 * le_value(rest),
                bytes[0] < 256,
        ;
        let encoded = le_bytes(value, bytes.len());
        assert(encoded =~= seq![bytes[0]] + encoded.drop_first());
        assert(bytes =~= seq![bytes[0]] + rest);
    } else {
        assert(le_bytes(le_value(bytes), bytes.len()) =~= bytes);
    }
}

/// The bytes written over a buffer are the bytes found there afterwards, and
/// every other byte is as it was.
pub proof fn lemma_overwrite_peek(buf: Seq<u8>, at: int, bytes: Seq<u8>)
    requires
        0 <= at,
        at + bytes.len() <= buf.len(),
    ensures
        overwrite(buf, at, bytes).len() == buf.len(),
        overwrite(buf, at, bytes).subrange(at, at + bytes.len()) == bytes,
        overwrite(buf, at, bytes).subrange(0, at) == buf.subrange(0, at),
        overwrite(buf, at, bytes).subrange(at + bytes.len(), buf.len() as int) == buf.subrange(
            at + bytes.len(),
            buf.len() as int,
        ),
{
    assert(overwrite(buf, at, bytes).subrange(at, at + bytes.len()) =~= bytes);
    assert(overwrite(buf, at, bytes).subrange(0, at) =~= buf.subrange(0, at));
    assert(overwrite(buf, at, bytes).subrange(at + bytes.len(), buf.len() as int)
        =~= buf.subrange(at + bytes.len(), buf.len() as int));
}

/// Round trip of the unsigned scalars: each has the width of its type on the
/// wire and decodes from its own encoding.
pub proof fn lemma_unsigned_round_trip(a: u8, b: u16, c: u32, d: u64)
    ensures
        encode_u8(a).len() == 1 && decode_u8(encode_u8(a)) == a,
        encode_u16(b).len() == 2 && decode_u16(encode_u16(b)) == b,
        encode_u32(c).len() == 4 && decode_u32(encode_u32(c)) == c,
        encode_u64(d).len() == 8 && decode_u64(encode_u64(d)) == d,
{
    lemma2_to64();
    lemma_le_value_of_bytes(b as nat, 2);
    lemma_le_value_of_bytes(c as nat, 4);
    lemma_le_value_of_bytes(d as nat, 8);
}

/// Round trip of the signed scalars: each has the width of its type on the
/// wire and decodes from its own encoding.
pub proof fn lemma_signed_round_trip(a: i8, b: i16, c: i32, d: i64)
    ensures
        encode_i8(a).len() == 1 && decode_i8(encode_i8(a)) == a,
        encode_i16(b).len() == 2 && decode_i16(encode_i16(b)) == b,
        encode_i32(c).len() == 4 && decode_i32(encode_i32(c)) == c,
        encode_i64(d).len() == 8 && decode_i64(encode_i64(d)) == d,
{
    lemma_unsigned_round_trip(a as u8, b as u16, c as u32, d as u64);
    assert((a as u8) as i8 == a) by (bit_vector);
    assert((b as u16) as i16 == b) by (bit_vector);
    assert((c as u32) as i32 == c) by (bit_vector);
    assert((d as u64) as i64 == d) by (bit_vector);
}

/// Round trip of `bool`: one byte on the wire, which decodes to the value.
pub proof fn lemma_bool_round_trip(x: bool)
    ensures
        encode_bool(x).len() == 1,
        decode_bool(encode_bool(x)) == x,
{
}

/// Round trip of strings: a string whose UTF-8 form has at most 65535 bytes
/// is read back whole from its own encoding, whatever follows it, and the
/// read uses exactly the bytes of the encoding.
pub proof fn lemma_str_round_trip(chars: Seq<char>, rest: Seq<u8>)
    requires
        encode_utf8(chars).len() <= u16::MAX,
    ensures
        encode_str(chars).len() == 2 + encode_utf8(chars).len(),
        parse_str(encode_str(chars) + rest) == Ok::<(Seq<char>, nat), DecodeError>(
            (chars, encode_str(chars).len()),
        ),
{
    let body = encode_utf8(chars);
    let n = body.len() as u16;
    let all = encode_str(chars) + rest;
    lemma_unsigned_round_trip(0, n, 0, 0);
    assert(all.subrange(0, 2) =~= encode_u16(n));
    assert(all.subrange(2, 2 + n) =~= body);
    encode_utf8_valid_utf8(chars);
    encode_utf8_decode_utf8(chars);
}

/// Round trip of the 15-bit varint: a value below 32768 is read back from its
/// own encoding, whatever follows it, and the encoding has one byte exactly
/// when the value is below 128, two otherwise.
pub proof fn lemma_varint15_round_trip(v: u16, rest: Seq<u8>)
    requires
        v < 32768,
    ensures
        encode_varint15(v).len() == (if v < 128 { 1nat } else { 2nat }),
        parse_varint15(encode_varint15(v) + rest) == Some((v, encode_varint15(v).len())),
{
    let all = encode_varint15(v) + rest;
    if v >= 128 {
        assert(all[0] == (v % 128 + 128) as u8);
        assert(all[1] == (v / 128) as u8);
    } else {
        assert(all[0] == v as u8);
    }
}

} // verus!
