//! Bit reversal: a code is written most significant bit first, and a
//! table is indexed by the stream's bits, least significant first.

use vstd::prelude::*;
use vstd::arithmetic::power2::{pow2, lemma_pow2_pos, lemma_pow2_unfold, lemma2_to64};
use crate::arith::{
    lemma_div_pow2_twice, lemma_mod_div_pow2, lemma_mod_pow2_twice, lemma_pow2_monotone,
    lemma_pow2_split,
};

verus! {

/// The low `n` bits of `x` in reverse order.
pub open spec fn rev_bits(x: nat, n: nat) -> nat
    decreases n,
{
    if n == 0 {
        0
    } else {
        (x % 2) * pow2((n - 1) as nat) + rev_bits(x / 2, (n - 1) as nat)
    }
}

/// A reversal of `n` bits is below `2^n`.
pub proof fn lemma_rev_bound(x: nat, n: nat)
    ensures
        rev_bits(x, n) < pow2(n),
    decreases n,
{
    lemma_pow2_pos(n);
    if n > 0 {
        lemma_rev_bound(x / 2, (n - 1) as nat);
        lemma_pow2_unfold(n);
        let h: nat = pow2((n - 1) as nat);
        assert((x % 2) * h <= h) by (nonlinear_arith)
            requires
                x % 2 <= 1,
        ;
    }
}

/// One bit is its own reversal.
pub proof fn lemma_rev_one_bit(t: nat)
    requires
        t < 2,
    ensures
        rev_bits(t, 1) == t,
{
    lemma2_to64();
    assert(rev_bits(t / 2, 0) == 0);
    assert(rev_bits(t, 1) == (t % 2) * pow2(0) + rev_bits(t / 2, 0));
}

/// Reversing `a + b` bits: the low `a` bits, reversed, come out on top of
/// the reversed `b` bits above them.
pub proof fn lemma_rev_split(x: nat, a: nat, b: nat)
    ensures
        rev_bits(x, a + b) == rev_bits(x % pow2(a), a) * pow2(b) + rev_bits(x / pow2(a), b),
    decreases a,
{
    lemma2_to64();
    lemma_pow2_pos(a);
    lemma_pow2_pos(b);
    if a == 0 {
        assert(x / 1 == x);
        assert(rev_bits(x % pow2(0), 0) * pow2(b) == 0) by (nonlinear_arith)
            requires
                rev_bits(x % pow2(0), 0) == 0,
        ;
    } else {
        let a1: nat = (a - 1) as nat;
        let y: nat = x / 2;
        lemma_rev_split(y, a1, b);
        // the definition, both ways
        assert(rev_bits(x, a + b) == (x % 2) * pow2((a + b - 1) as nat) + rev_bits(y, (a + b - 1) as nat));
        let lo: nat = x % pow2(a);
        assert(rev_bits(lo, a) == (lo % 2) * pow2(a1) + rev_bits(lo / 2, a1));
        // the low bits of x and of lo
        lemma_mod_pow2_twice(x, 1, a);
        assert(lo % 2 == x % 2);
        lemma_mod_div_pow2(x, 1, a1);
        assert(lo / 2 == y % pow2(a1));
        lemma_div_pow2_twice(x, 1, a1);
        assert(y / pow2(a1) == x / pow2(a));
        lemma_pow2_split(a1, b);
        let t: nat = x % 2;
        let u: nat = rev_bits(y % pow2(a1), a1);
        let w: nat = rev_bits(y / pow2(a1), b);
        assert((t * pow2(a1) + u) * pow2(b) + w == t * pow2(a1 + b) + (u * pow2(b) + w))
            by (nonlinear_arith)
            requires
                pow2(a1 + b) == pow2(a1) * pow2(b),
        ;
    }
}

/// The top `n` bits of a reversal of `m` bits are the reversal of the low
/// `n` bits.
pub proof fn lemma_rev_top(x: nat, n: nat, m: nat)
    requires
        n <= m,
    ensures
        rev_bits(x, m) / pow2((m - n) as nat) == rev_bits(x % pow2(n), n),
        rev_bits(x, m) % pow2((m - n) as nat) == rev_bits(x / pow2(n), (m - n) as nat),
{
    let b: nat = (m - n) as nat;
    lemma_pow2_pos(n);
    lemma_rev_split(x, n, b);
    lemma_rev_bound(x / pow2(n), b);
    let hi: nat = rev_bits(x % pow2(n), n);
    let lo: nat = rev_bits(x / pow2(n), b);
    lemma_pow2_pos(b);
    assert(n + b == m);
    assert(rev_bits(x, m) == hi * pow2(b) + lo);
    vstd::arithmetic::div_mod::lemma_fundamental_div_mod_converse(
        rev_bits(x, m) as int,
        pow2(b) as int,
        hi as int,
        lo as int,
    );
}

/// Reversing only looks at the low `n` bits.
pub proof fn lemma_rev_low_bits(x: nat, n: nat)
    ensures
        rev_bits(x % pow2(n), n) == rev_bits(x, n),
    decreases n,
{
    lemma2_to64();
    if n > 0 {
        let n1: nat = (n - 1) as nat;
        let lo: nat = x % pow2(n);
        lemma_mod_pow2_twice(x, 1, n);
        lemma_mod_div_pow2(x, 1, n1);
        lemma_rev_low_bits(x / 2, n1);
    }
}

/// Reversing twice gives the number back.
pub proof fn lemma_rev_involution(x: nat, n: nat)
    requires
        x < pow2(n),
    ensures
        rev_bits(rev_bits(x, n), n) == x,
    decreases n,
{
    lemma2_to64();
    if n > 0 {
        let n1: nat = (n - 1) as nat;
        let y: nat = rev_bits(x, n);
        lemma_pow2_unfold(n);
        lemma_pow2_pos(n1);
        assert(x / 2 < pow2(n1));
        lemma_rev_involution(x / 2, n1);
        let r1: nat = rev_bits(x / 2, n1);
        lemma_rev_bound(x / 2, n1);
        // y = (x % 2) * 2^(n-1) + r1, so r1 is its low part and x % 2 its top bit
        vstd::arithmetic::div_mod::lemma_fundamental_div_mod_converse(
            y as int,
            pow2(n1) as int,
            (x % 2) as int,
            r1 as int,
        );
        lemma_rev_split(y, n1, 1);
        lemma_rev_one_bit(x % 2);
    }
}

/// Two numbers with the same low `n` bits have reversals of `m` bits with
/// the same top `n` bits.
pub proof fn lemma_rev_same_top(x: nat, y: nat, n: nat, m: nat)
    requires
        n <= m,
        x % pow2(n) == y % pow2(n),
    ensures
        rev_bits(x, m) / pow2((m - n) as nat) == rev_bits(y, m) / pow2((m - n) as nat),
{
    lemma_rev_top(x, n, m);
    lemma_rev_top(y, n, m);
}

/// The low `n` bits of `x` in reverse order.
pub fn reverse_bits(x: u32, n: u32) -> (r: u32)
    requires
        n <= 15,
    ensures
        r == rev_bits(x as nat, n as nat),
        r < pow2(n as nat),
{
    let mut acc: u32 = 0;
    let mut rest: u32 = x;
    let mut i: u32 = 0;
    proof {
        lemma2_to64();
        lemma_rev_low_bits(x as nat, 0);
    }
    while i < n
        invariant
            i <= n <= 15,
            rest == (x as nat) / pow2(i as nat),
            acc == rev_bits((x as nat) % pow2(i as nat), i as nat),
            acc < pow2(i as nat),
        decreases n - i,
    {
        proof {
            let xi: nat = (x as nat) % pow2((i + 1) as nat);
            lemma_pow2_monotone((i + 1) as nat, 15);
            lemma_pow2_unfold((i + 1) as nat);
            lemma2_to64();
            // the next bit goes below what was reversed so far
            lemma_rev_split(xi, i as nat, 1);
            lemma_mod_pow2_twice(x as nat, i as nat, (i + 1) as nat);
            lemma_mod_div_pow2(x as nat, i as nat, 1);
            assert(xi / pow2(i as nat) == rest as nat % 2);
            lemma_rev_one_bit(rest as nat % 2);
            lemma_div_pow2_twice(x as nat, i as nat, 1);
            assert(rest & 1 == rest % 2) by (bit_vector);
            assert(rest >> 1 == rest / 2) by (bit_vector);
        }
        acc = acc * 2 + (rest & 1);
        rest = rest >> 1;
        i = i + 1;
    }
    proof {
        lemma_rev_low_bits(x as nat, n as nat);
    }
    acc
}

} // verus!
