//! The mathematical model of the bit codec. A packed stream is a natural
//! number: bit `i` of the stream is bit `i` of the number, so that the first
//! value written sits in the low-order bits and a stream that has ended goes
//! on in zeros.

use super::wire::{le_bytes, le_value, lemma_le_value_bound, lemma_le_value_of_bytes};
use vstd::arithmetic::div_mod::{
    lemma_div_denominator, lemma_fundamental_div_mod, lemma_fundamental_div_mod_converse,
    lemma_mod_breakdown, lemma_small_mod,
};
use vstd::arithmetic::mul::lemma_mul_is_commutative;
use vstd::arithmetic::power2::{
    lemma2_to64, lemma_pow2_adds, lemma_pow2_pos, lemma_pow2_strictly_increases, pow2,
};
use vstd::prelude::*;

verus! {

/// The `n` bits of `stream` from bit offset `at` on, as a number.
pub open spec fn bits_at(stream: nat, at: nat, n: nat) -> nat {
    (stream / pow2(at)) % pow2(n)
}

/// `stream` with the bits of `value` or-ed in from bit offset `at` on.
pub open spec fn or_at(stream: nat, value: u32, at: nat) -> nat {
    stream % pow2(at) + (((stream / pow2(at)) as u64) | (value as u64)) as nat * pow2(at)
}

/// The offset-binary code of `value` in `n` bits: the value plus `2^(n-1)`,
/// cut to `n` bits.
pub open spec fn biased(value: i32, n: nat) -> u32
    recommends
        1 <= n <= 32,
{
    ((value + pow2((n - 1) as nat)) % (pow2(n) as int)) as u32
}

/// The value that the `n`-bit offset-binary code `raw` stands for.
pub open spec fn unbiased(raw: u32, n: nat) -> i32
    recommends
        1 <= n <= 32,
        raw < pow2(n),
{
    (raw - pow2((n - 1) as nat)) as i32
}

/// The stream that the bytes of a buffer hold: byte `i` holds the bits from
/// `8 * i` on.
pub open spec fn stream_of(bytes: Seq<u8>) -> nat {
    le_value(bytes)
}

/// A power of two with an exponent of at most 32 is at most `2^32`.
pub proof fn lemma_pow2_le_32(e: nat)
    requires
        e <= 32,
    ensures
        1 <= pow2(e) <= 0x1_0000_0000,
{
    lemma2_to64();
    lemma_pow2_pos(e);
    if e < 32 {
        lemma_pow2_strictly_increases(e, 32);
    }
}

/// Splitting a number at a power of two: the low bits and the rest.
pub proof fn lemma_split(x: nat, a: nat)
    ensures
        x == x % pow2(a) + (x / pow2(a)) * pow2(a),
        x % pow2(a) < pow2(a),
{
    lemma_pow2_pos(a);
    lemma_fundamental_div_mod(x as int, pow2(a) as int);
    lemma_mul_is_commutative(pow2(a) as int, (x / pow2(a)) as int);
}

/// A number put together from low bits and a rest splits the same way.
pub proof fn lemma_join(lo: nat, hi: nat, a: nat)
    requires
        lo < pow2(a),
    ensures
        (lo + hi * pow2(a)) % pow2(a) == lo,
        (lo + hi * pow2(a)) / pow2(a) == hi,
{
    lemma_pow2_pos(a);
    lemma_fundamental_div_mod_converse(
        (lo + hi * pow2(a)) as int,
        pow2(a) as int,
        hi as int,
        lo as int,
    );
}

/// Shifting right twice is shifting right once by the sum.
pub proof fn lemma_div_pow2_twice(x: nat, a: nat, b: nat)
    ensures
        (x / pow2(a)) / pow2(b) == x / pow2(a + b),
{
    lemma_pow2_pos(a);
    lemma_pow2_pos(b);
    lemma_pow2_adds(a, b);
    lemma_div_denominator(x as int, pow2(a) as int, pow2(b) as int);
}

/// The low `a + b` bits are the low `a` bits and, above them, the low `b`
/// bits of the rest.
pub proof fn lemma_mod_pow2_split(x: nat, a: nat, b: nat)
    ensures
        x % pow2(a + b) == x % pow2(a) + ((x / pow2(a)) % pow2(b)) * pow2(a),
        (x % pow2(a + b)) / pow2(a) == (x / pow2(a)) % pow2(b),
        (x % pow2(a + b)) % pow2(a) == x % pow2(a),
{
    lemma_pow2_pos(a);
    lemma_pow2_pos(b);
    lemma_pow2_adds(a, b);
    lemma_mod_breakdown(x as int, pow2(a) as int, pow2(b) as int);
    lemma_mul_is_commutative(pow2(a) as int, ((x / pow2(a)) % pow2(b)) as int);
    lemma_join(x % pow2(a), (x / pow2(a)) % pow2(b), a);
}

/// A number below `2^a` has no bits from `a` on.
pub proof fn lemma_small(x: nat, a: nat, b: nat)
    requires
        x < pow2(a),
        a <= b,
    ensures
        x / pow2(b) == 0,
        x % pow2(b) == x,
{
    lemma_pow2_pos(a);
    lemma_pow2_adds(a, (b - a) as nat);
    lemma_pow2_pos((b - a) as nat);
    assert(pow2(a) <= pow2(b)) by (nonlinear_arith)
        requires
            pow2(b) == pow2(a) * pow2((b - a) as nat),
            pow2((b - a) as nat) >= 1,
            pow2(a) >= 1,
    ;
    lemma_small_mod(x, pow2(b));
    lemma_fundamental_div_mod_converse(x as int, pow2(b) as int, 0, x as int);
}

/// The stream of two runs of bytes, one after the other, is the first run's
/// stream with the second's above it.
pub proof fn lemma_stream_concat(a: Seq<u8>, b: Seq<u8>)
    ensures
        stream_of(a + b) == stream_of(a) + stream_of(b) * pow2(8 * a.len()),
    decreases a.len(),
{
    lemma2_to64();
    if a.len() == 0 {
        assert(a + b =~= b);
        assert(8 * a.len() == 0);
    } else {
        let rest = a.drop_first();
        assert((a + b).drop_first() =~= rest + b);
        lemma_stream_concat(rest, b);
        lemma_pow2_adds(8, 8 * rest.len());
        assert(8 * a.len() == 8 + 8 * rest.len());
        assert(256 * (stream_of(b) * pow2(8 * rest.len())) == stream_of(b) * (256 * pow2(
            8 * rest.len(),
        ))) by (nonlinear_arith);
    }
}

/// The stream of a buffer, shifted right by whole bytes, is the stream of
/// the bytes that are left; past the end nothing is left.
pub proof fn lemma_stream_skip(bytes: Seq<u8>, k: nat)
    ensures
        stream_of(bytes) / pow2(8 * k) == (if k <= bytes.len() {
            stream_of(bytes.subrange(k as int, bytes.len() as int))
        } else {
            0
        }),
{
    if k <= bytes.len() {
        let head = bytes.subrange(0, k as int);
        let tail = bytes.subrange(k as int, bytes.len() as int);
        assert(bytes =~= head + tail);
        lemma_stream_concat(head, tail);
        lemma_le_value_bound(head);
        lemma_join(stream_of(head), stream_of(tail), 8 * k);
    } else {
        lemma_le_value_bound(bytes);
        lemma_small(stream_of(bytes), 8 * bytes.len(), 8 * k);
    }
}

/// Exhaustion: every read at or past the end of the source gives zero.
pub proof fn lemma_bits_past_end(src: Seq<u8>, at: nat, n: nat)
    requires
        at >= 8 * src.len(),
    ensures
        bits_at(stream_of(src), at, n) == 0,
{
    lemma_le_value_bound(src);
    lemma_small(stream_of(src), 8 * src.len(), at);
    lemma_pow2_pos(n);
    lemma_small_mod(0, pow2(n));
}

/// The bits below an offset depend on nothing above it: two streams that
/// agree in their low `m` bits agree in every run of bits that ends there or
/// before.
pub proof fn lemma_bits_depend_on_low(x: nat, y: nat, m: nat, at: nat, n: nat)
    requires
        x % pow2(m) == y % pow2(m),
        at + n <= m,
    ensures
        bits_at(x, at, n) == bits_at(y, at, n),
{
    let d = (m - (at + n)) as nat;
    lemma_mod_pow2_split(x, at + n, d);
    lemma_mod_pow2_split(y, at + n, d);
    lemma_mod_pow2_split(x, at, n);
    lemma_mod_pow2_split(y, at, n);
}

/// A value or-ed into a stream that has no bit at or above the offset is
/// added there; if it fits in `n` bits, the stream has no bit at or above
/// `at + n` afterwards, and the `n` bits at the offset are the value.
pub proof fn lemma_or_at_clean(stream: nat, value: u32, at: nat, n: nat)
    requires
        stream < pow2(at),
        value < pow2(n),
    ensures
        or_at(stream, value, at) == stream + value * pow2(at),
        or_at(stream, value, at) < pow2(at + n),
        bits_at(or_at(stream, value, at), at, n) == value,
{
    let w = value as u64;
    lemma_small(stream, at, at);
    assert(0u64 | w == w) by (bit_vector);
    lemma_join(stream, value as nat, at);
    lemma_pow2_pos(n);
    lemma_small_mod(value as nat, pow2(n));
    lemma_pow2_adds(at, n);
    assert(stream + value * pow2(at) < pow2(at) * pow2(n)) by (nonlinear_arith)
        requires
            stream < pow2(at),
            value + 1 <= pow2(n),
    ;
}

/// A value or-ed in at an offset changes no bit below the offset.
pub proof fn lemma_or_at_keeps_lower(stream: nat, value: u32, at: nat, p: nat, n: nat)
    requires
        p + n <= at,
    ensures
        bits_at(or_at(stream, value, at), p, n) == bits_at(stream, p, n),
{
    let high = (((stream / pow2(at)) as u64) | (value as u64)) as nat;
    lemma_split(stream, at);
    lemma_join(stream % pow2(at), high, at);
    lemma_join(stream % pow2(at), stream / pow2(at), at);
    lemma_bits_depend_on_low(or_at(stream, value, at), stream, at, p, n);
}

/// Round trip of the offset-binary code: a value that `n` bits can hold,
/// from `-2^(n-1)` up to but not including `2^(n-1)`, has a code below `2^n`
/// and is the value of its code.
pub proof fn lemma_offset_binary(value: i32, n: nat)
    requires
        1 <= n <= 32,
        -pow2((n - 1) as nat) <= value < pow2((n - 1) as nat),
    ensures
        biased(value, n) < pow2(n),
        unbiased(biased(value, n), n) == value,
{
    lemma2_to64();
    lemma_pow2_le_32(n);
    lemma_pow2_le_32((n - 1) as nat);
    lemma_pow2_adds((n - 1) as nat, 1);
    lemma_small_mod((value + pow2((n - 1) as nat)) as nat, pow2(n));
}

/// Exhaustion of a flushed stream: the bytes that a flush leaves hold
/// nothing but zeros from the end of the stream on.
pub proof fn lemma_flushed_tail_is_zero(k: nat, stream: nat, len: nat, at: nat, n: nat)
    requires
        len <= 8 * k,
        len <= at,
    ensures
        bits_at(stream_of(le_bytes(stream % pow2(len), k)), at, n) == 0,
{
    let kept = stream % pow2(len);
    lemma_split(stream, len);
    lemma_small(kept, len, 8 * k);
    assert(kept < pow2(8 * k)) by {
        lemma_pow2_pos(8 * k);
    }
    lemma_le_value_of_bytes(kept, k);
    lemma_small(kept, len, at);
    lemma_pow2_pos(n);
    lemma_small_mod(0, pow2(n));
}

/// Reading back: a source that starts with the flushed bytes of a stream of
/// `len` bits holds, in every run of bits that ends at `len` or before, the
/// bits of the stream.
pub proof fn lemma_flushed_bits(src: Seq<u8>, k: nat, stream: nat, len: nat, at: nat, n: nat)
    requires
        k <= src.len(),
        len <= 8 * k,
        src.subrange(0, k as int) == le_bytes(stream % pow2(len), k),
        at + n <= len,
    ensures
        bits_at(stream_of(src), at, n) == bits_at(stream, at, n),
{
    let head = src.subrange(0, k as int);
    let tail = src.subrange(k as int, src.len() as int);
    let kept = stream % pow2(len);
    lemma_split(stream, len);
    lemma_small(kept, len, 8 * k);
    lemma_small(kept, len, len);
    lemma_pow2_pos(len);
    assert(kept < pow2(8 * k)) by {
        lemma_pow2_pos(8 * k);
    }
    lemma_le_value_of_bytes(kept, k);
    assert(src =~= head + tail);
    lemma_stream_concat(head, tail);
    lemma_join(kept, stream_of(tail), 8 * k);
    lemma_bits_depend_on_low(stream_of(src), kept, 8 * k, at, n);
    lemma_bits_depend_on_low(kept, stream, len, at, n);
}

} // verus!
