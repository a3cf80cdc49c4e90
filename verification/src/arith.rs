//! Powers of two, and the bridge from shifts and masks on machine words to
//! division and remainder on natural numbers.

use vstd::prelude::*;
use vstd::arithmetic::power2::{pow2, lemma_pow2_pos, lemma_pow2_adds, lemma_pow2_strictly_increases, lemma2_to64};
use vstd::arithmetic::div_mod::{
    lemma_div_denominator, lemma_fundamental_div_mod,
    lemma_fundamental_div_mod_converse, lemma_mod_breakdown, lemma_small_mod,
};
use vstd::bits::{
    low_bits_mask, lemma_u32_low_bits_mask_is_mod, lemma_u32_shl_is_mul, lemma_u32_shr_is_div,
    lemma_u64_low_bits_mask_is_mod, lemma_u64_shl_is_mul, lemma_u64_shr_is_div,
};

verus! {

/// `2^a <= 2^b` whenever `a <= b`.
pub proof fn lemma_pow2_monotone(a: nat, b: nat)
    requires
        a <= b,
    ensures
        pow2(a) <= pow2(b),
{
    if a < b {
        lemma_pow2_strictly_increases(a, b);
    }
}

/// `2^(a + b) == 2^a * 2^b`, with the small powers spelled out.
pub proof fn lemma_pow2_split(a: nat, b: nat)
    ensures
        pow2(a + b) == pow2(a) * pow2(b),
        pow2(a) > 0,
        pow2(b) > 0,
{
    lemma_pow2_adds(a, b);
    lemma_pow2_pos(a);
    lemma_pow2_pos(b);
}

/// `1 << n` is `2^n` on 64-bit words.
pub proof fn lemma_shl_one(n: u64)
    requires
        n < 64,
    ensures
        (1u64 << n) == pow2(n as nat),
        pow2(n as nat) <= 0x8000_0000_0000_0000,
{
    lemma_pow2_pos(n as nat);
    if n < 63 {
        lemma_pow2_strictly_increases(n as nat, 63);
    }
    assert(pow2(63) == 0x8000_0000_0000_0000) by {
        lemma2_to64();
        lemma_pow2_adds(32, 31);
    }
    assert(1 * pow2(n as nat) <= u64::MAX);
    lemma_u64_shl_is_mul(1, n);
}

/// Masking with the low `n` bits is the remainder modulo `2^n`.
pub proof fn lemma_mask_is_mod(x: u64, n: u64)
    requires
        n < 64,
    ensures
        x & (((1u64 << n) - 1) as u64) == (x as nat) % pow2(n as nat),
{
    lemma_shl_one(n);
    lemma_pow2_pos(n as nat);
    lemma_u64_low_bits_mask_is_mod(x, n as nat);
    assert(low_bits_mask(n as nat) == pow2(n as nat) - 1);
}

/// Shifting right by `n` is the quotient by `2^n`.
pub proof fn lemma_shr_is_div(x: u64, n: u64)
    requires
        n < 64,
    ensures
        (x >> n) == (x as nat) / pow2(n as nat),
{
    lemma_u64_shr_is_div(x, n);
}

/// Placing a byte above `c` valid bits adds `b * 2^c`.
pub proof fn lemma_or_byte_is_add(x: u64, b: u8, c: u64)
    requires
        c <= 56,
        (x as nat) < pow2(c as nat),
    ensures
        x | ((b as u64) << c) == x + b * pow2(c as nat),
        x + b * pow2(c as nat) < pow2((c + 8) as nat),
        pow2((c + 8) as nat) <= 0x1_0000_0000_0000_0000,
{
    let w: u64 = b as u64;
    lemma_shl_one(c);
    lemma_pow2_split(c as nat, 8);
    lemma2_to64();
    assert(pow2((c + 8) as nat) == pow2(c as nat) * 256);
    assert(pow2(c as nat) <= 0x100_0000_0000_0000) by {
        if c < 56 {
            lemma_pow2_strictly_increases(c as nat, 56);
        }
        lemma_pow2_adds(32, 24);
    }
    assert(w * pow2(c as nat) <= 255 * pow2(c as nat)) by (nonlinear_arith)
        requires
            w <= 255,
    ;
    lemma_u64_shl_is_mul(w, c);
    let one: u64 = 1u64 << c;
    assert(x | (w << c) == x + (w << c)) by (bit_vector)
        requires
            c <= 56,
            w < 256,
            x < one,
            one == 1u64 << c,
    ;
}

/// The quotient of `lo + 2^c * hi` by `2^n`, for `n <= c` and `lo < 2^c`.
pub proof fn lemma_div_of_sum(lo: nat, hi: nat, c: nat, n: nat)
    requires
        n <= c,
    ensures
        (lo + pow2(c) * hi) / pow2(n) == lo / pow2(n) + pow2((c - n) as nat) * hi,
        (lo + pow2(c) * hi) % pow2(n) == lo % pow2(n),
{
    let d: int = pow2(n) as int;
    let k: int = (pow2((c - n) as nat) * hi) as int;
    lemma_pow2_split(n, (c - n) as nat);
    assert(pow2(c) == pow2(n) * pow2((c - n) as nat));
    assert(pow2(c) * hi == d * k) by (nonlinear_arith)
        requires
            pow2(c) == pow2(n) * pow2((c - n) as nat),
            d == pow2(n),
            k == pow2((c - n) as nat) * hi,
    ;
    lemma_fundamental_div_mod(lo as int, d);
    let q: int = lo as int / d;
    let r: int = lo as int % d;
    assert(lo + d * k == (q + k) * d + r) by (nonlinear_arith)
        requires
            lo == d * q + r,
    ;
    lemma_fundamental_div_mod_converse(lo + d * k, d, q + k, r);
}

/// Taking `x mod 2^b` and then `mod 2^a`, `a <= b`, is `x mod 2^a`.
pub proof fn lemma_mod_pow2_twice(x: nat, a: nat, b: nat)
    requires
        a <= b,
    ensures
        (x % pow2(b)) % pow2(a) == x % pow2(a),
        0 <= x % pow2(a) < pow2(a),
        0 <= x % pow2(b) < pow2(b),
{
    lemma_pow2_split(a, (b - a) as nat);
    vstd::arithmetic::div_mod::lemma_mod_mod(x as int, pow2(a) as int, pow2((b - a) as nat) as int);
    assert(pow2(b) == pow2(a) * pow2((b - a) as nat));
}

/// Dividing by `2^a` and then by `2^b` divides by `2^(a + b)`.
pub proof fn lemma_div_pow2_twice(x: nat, a: nat, b: nat)
    ensures
        (x / pow2(a)) / pow2(b) == x / pow2(a + b),
{
    lemma_pow2_split(a, b);
    lemma_div_denominator(x as int, pow2(a) as int, pow2(b) as int);
}

/// The bits `a .. a + b` of `x`, read two ways.
pub proof fn lemma_mod_div_pow2(x: nat, a: nat, b: nat)
    ensures
        (x % pow2(a + b)) / pow2(a) == (x / pow2(a)) % pow2(b),
        0 <= (x / pow2(a)) % pow2(b) < pow2(b),
{
    lemma_pow2_split(a, b);
    let y: int = pow2(a) as int;
    let z: int = pow2(b) as int;
    lemma_mod_breakdown(x as int, y, z);
    let hi: int = (x as int / y) % z;
    let lo: int = x as int % y;
    assert(x as int % (y * z) == y * hi + lo);
    lemma_fundamental_div_mod_converse(y * hi + lo, y, hi, lo);
}

/// A value below `2^n` is its own remainder modulo `2^n`.
pub proof fn lemma_mod_pow2_small(x: nat, n: nat)
    requires
        x < pow2(n),
    ensures
        x % pow2(n) == x,
{
    lemma_small_mod(x, pow2(n));
}

/// The quotient of a value below `2^c` by `2^n` is below `2^(c - n)`.
pub proof fn lemma_div_pow2_bound(x: nat, c: nat, n: nat)
    requires
        n <= c,
        x < pow2(c),
    ensures
        x / pow2(n) < pow2((c - n) as nat),
{
    lemma_pow2_split(n, (c - n) as nat);
    let d: int = pow2(n) as int;
    let m: int = pow2((c - n) as nat) as int;
    lemma_fundamental_div_mod(x as int, d);
    let q: int = x as int / d;
    assert(q < m) by (nonlinear_arith)
        requires
            x == d * q + (x as int % d),
            0 <= x as int % d,
            x < d * m,
            d > 0,
    ;
}

/// The mask of the low `n` bits: `2^n - 1`.
pub fn bit_mask(n: u32) -> (r: u32)
    requires
        n <= 31,
    ensures
        r == pow2(n as nat) - 1,
        r < 0x8000_0000,
{
    proof {
        lemma_pow2_pos(n as nat);
        lemma_pow2_monotone(n as nat, 31);
        lemma2_to64();
        assert(1 * pow2(n as nat) <= u32::MAX);
        lemma_u32_shl_is_mul(1, n);
    }
    (1u32 << n) - 1
}

/// The low `n` bits of `x`: `x mod 2^n`.
pub fn low_bits(x: u32, n: u32) -> (r: u32)
    requires
        n <= 31,
    ensures
        r == (x as nat) % pow2(n as nat),
        r < pow2(n as nat),
{
    let mask: u32 = bit_mask(n);
    proof {
        lemma_pow2_pos(n as nat);
        lemma_u32_low_bits_mask_is_mod(x, n as nat);
        assert(low_bits_mask(n as nat) == mask);
        lemma_mod_pow2_twice(x as nat, n as nat, n as nat);
    }
    x & mask
}

/// `x` without its low `n` bits: `x / 2^n`.
pub fn high_bits(x: u32, n: u32) -> (r: u32)
    requires
        n <= 31,
    ensures
        r == (x as nat) / pow2(n as nat),
{
    proof {
        lemma_u32_shr_is_div(x, n);
    }
    x >> n
}

/// `x` with `n` zero bits below it: `x * 2^n`.
pub fn shift_up(x: u32, n: u32) -> (r: u32)
    requires
        n <= 31,
        x * pow2(n as nat) <= u32::MAX,
    ensures
        r == x * pow2(n as nat),
{
    proof {
        lemma_u32_shl_is_mul(x, n);
    }
    x << n
}

/// `x * 2^m` divided by `2^(m + n)` is `x / 2^n`; and a multiple of `2^m`
/// with less than `2^m` added has the same quotient by `2^m`.
pub proof fn lemma_scaled_div(x: nat, c: nat, m: nat, n: nat)
    requires
        c < pow2(m),
    ensures
        (x * pow2(m) + c) / pow2(m) == x,
        (x * pow2(m) + c) / pow2(m + n) == x / pow2(n),
{
    lemma_pow2_split(m, n);
    lemma_fundamental_div_mod_converse((x * pow2(m) + c) as int, pow2(m) as int, x as int, c as int);
    lemma_div_pow2_twice(x * pow2(m) + c, m, n);
}

} // verus!
