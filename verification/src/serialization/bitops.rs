//! Shifts and masks on machine words, stated as arithmetic.

use vstd::arithmetic::power2::{lemma_pow2_pos, pow2};
use vstd::bits::{
    lemma_u64_low_bits_mask_is_mod, lemma_u64_pow2_no_overflow, lemma_u64_shl_is_mul,
    lemma_u64_shr_is_div,
};
use vstd::prelude::*;

verus! {

/// A right shift divides by a power of two.
pub proof fn lemma_shr(x: u64, n: u32)
    requires
        n < 64,
    ensures
        x >> n == x as nat / pow2(n as nat),
{
    lemma_u64_shr_is_div(x, n as u64);
    assert(x >> n == x >> (n as u64)) by (bit_vector);
}

/// A left shift that loses no bit multiplies by a power of two.
pub proof fn lemma_shl(x: u64, n: u32)
    requires
        n < 64,
        x * pow2(n as nat) <= u64::MAX,
    ensures
        x << n == x * pow2(n as nat),
{
    lemma_u64_shl_is_mul(x, n as u64);
    assert(x << n == x << (n as u64)) by (bit_vector);
}

/// Masking with the low `n` bits takes the remainder by a power of two.
pub proof fn lemma_low_mask(x: u64, n: u32)
    requires
        n < 64,
    ensures
        x & !(!0u64 << n) == x as nat % pow2(n as nat),
        pow2(n as nat) <= u64::MAX,
{
    lemma_u64_low_bits_mask_is_mod(x, n as nat);
    lemma_u64_pow2_no_overflow(n as nat);
    lemma_pow2_pos(n as nat);
    lemma_u64_shl_is_mul(1, n as u64);
    let m = 1u64 << (n as u64);
    assert(m == pow2(n as nat));
    assert(m >= 1 && !(!0u64 << n) == (m - 1) as u64) by (bit_vector)
        requires
            n < 64,
            m == 1u64 << (n as u64),
    ;
}

/// Or-ing a value shifted above the bits of another adds the two.
pub proof fn lemma_or_above(lo: u64, hi: u64, n: u32)
    requires
        n < 64,
        lo < pow2(n as nat),
        hi * pow2(n as nat) <= u64::MAX,
    ensures
        lo | (hi << n) == lo + hi * pow2(n as nat),
{
    lemma_shl(hi, n);
    lemma_u64_pow2_no_overflow(n as nat);
    lemma_u64_shl_is_mul(1, n as u64);
    let m = 1u64 << (n as u64);
    let h = hi << n;
    assert(lo | h == lo + h) by (bit_vector)
        requires
            n < 64,
            m == 1u64 << (n as u64),
            lo < m,
            h == hi << n,
    ;
}

/// Or-ing a 32-bit value into a word from bit `n` on leaves the bits below
/// `n` alone and ors the value into the rest.
pub proof fn lemma_or_split(c: u64, v: u32, n: u32)
    requires
        n < 32,
    ensures
        c | ((v as u64) << n) == c as nat % pow2(n as nat) + (((c as nat / pow2(n as nat)) as u64)
            | (v as u64)) * pow2(n as nat),
{
    let w = v as u64;
    let lo = c & !(!0u64 << n);
    let hi = c >> n;
    let top = u64::MAX >> n;
    lemma_low_mask(c, n);
    lemma_shr(c, n);
    lemma_shr(u64::MAX, n);
    lemma_pow2_pos(n as nat);
    assert((hi | w) <= top && c | (w << n) == lo | ((hi | w) << n)) by (bit_vector)
        requires
            n < 32,
            w <= 0xffff_ffff,
            lo == c & !(!0u64 << n),
            hi == c >> n,
            top == u64::MAX >> n,
    ;
    assert((hi | w) * pow2(n as nat) <= u64::MAX) by (nonlinear_arith)
        requires
            (hi | w) <= top,
            top == u64::MAX as nat / pow2(n as nat),
            pow2(n as nat) > 0,
    ;
    lemma_or_above(lo, hi | w, n);
}

} // verus!
