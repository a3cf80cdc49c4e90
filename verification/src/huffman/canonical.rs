//! Canonical Huffman codes as intervals of the code space.
//!
//! The code space is the set of 15-bit words, read most significant bit
//! first. A symbol with a code of `len` bits owns the `2^(15 - len)` words
//! that start with its code. Codes are given out in increasing length, and
//! within a length in increasing symbol order, so the intervals follow one
//! another without a gap.

use vstd::prelude::*;
use vstd::arithmetic::power2::{pow2, lemma_pow2_pos, lemma_pow2_unfold};
use vstd::arithmetic::div_mod::{lemma_fundamental_div_mod, lemma_fundamental_div_mod_converse};

verus! {

/// Size of the code space: `2^15`.
pub open spec fn code_space() -> nat {
    32768
}

/// Number of symbols below `s` whose code has `len` bits.
pub open spec fn rank(lengths: Seq<u8>, len: nat, s: int) -> nat
    decreases s,
{
    if s <= 0 {
        0
    } else {
        rank(lengths, len, s - 1) + if lengths[s - 1] as nat == len {
            1nat
        } else {
            0nat
        }
    }
}

/// Number of symbols whose code has `len` bits.
pub open spec fn count(lengths: Seq<u8>, len: nat) -> nat {
    rank(lengths, len, lengths.len() as int)
}

/// Number of symbols that have a code.
pub open spec fn used(lengths: Seq<u8>) -> nat {
    (lengths.len() - count(lengths, 0)) as nat
}

/// Number of words that a code of `len` bits owns.
pub open spec fn width(len: nat) -> nat {
    pow2((15 - len) as nat)
}

/// Number of words owned by the codes shorter than `len`.
pub open spec fn space_below(lengths: Seq<u8>, len: nat) -> nat
    decreases len,
{
    if len <= 1 {
        0
    } else {
        space_below(lengths, (len - 1) as nat) + count(lengths, (len - 1) as nat) * width(
            (len - 1) as nat,
        )
    }
}

/// Number of words owned by all codes: the Kraft sum, scaled by `2^15`.
pub open spec fn kraft_sum(lengths: Seq<u8>) -> nat {
    space_below(lengths, 16)
}

/// The first word that symbol `s` owns.
pub open spec fn code_start(lengths: Seq<u8>, s: int) -> nat {
    space_below(lengths, lengths[s] as nat) + rank(lengths, lengths[s] as nat, s) * width(
        lengths[s] as nat,
    )
}

/// The canonical code of symbol `s`, as a number of `lengths[s]` bits.
pub open spec fn code(lengths: Seq<u8>, s: int) -> nat {
    code_start(lengths, s) / width(lengths[s] as nat)
}

/// Symbol `s` has a code and owns the word `x`.
pub open spec fn covers(lengths: Seq<u8>, s: int, x: nat) -> bool {
    &&& 0 <= s < lengths.len()
    &&& 1 <= lengths[s] <= 15
    &&& code_start(lengths, s) <= x < code_start(lengths, s) + width(lengths[s] as nat)
}

/// The symbol that owns the word `x`.
pub open spec fn symbol_at(lengths: Seq<u8>, x: nat) -> int {
    choose|s: int| covers(lengths, s, x)
}

/// Every length is a code length.
pub open spec fn lengths_in_range(lengths: Seq<u8>) -> bool {
    forall|s: int| 0 <= s < lengths.len() ==> #[trigger] lengths[s] <= 15
}

/// The lengths are those of a complete prefix code: the codes own the
/// whole code space, no more and no less.
pub open spec fn is_complete(lengths: Seq<u8>) -> bool {
    &&& lengths.len() <= 65536
    &&& lengths_in_range(lengths)
    &&& kraft_sum(lengths) == code_space()
}

/// A width is positive, and a shorter code is twice as wide.
pub proof fn lemma_width_step(len: nat)
    requires
        len < 15,
    ensures
        width(len) == 2 * width(len + 1),
        width(len + 1) > 0,
{
    lemma_pow2_unfold((15 - len) as nat);
    lemma_pow2_pos((15 - len - 1) as nat);
}

/// The rank grows with the symbol, and strictly past a symbol of that
/// length.
pub proof fn lemma_rank_monotone(lengths: Seq<u8>, len: nat, a: int, b: int)
    requires
        0 <= a <= b,
    ensures
        rank(lengths, len, a) <= rank(lengths, len, b),
        a < b && lengths[a] as nat == len ==> rank(lengths, len, a) < rank(lengths, len, b),
    decreases b - a,
{
    if a < b {
        lemma_rank_monotone(lengths, len, a, b - 1);
        if a == b - 1 {
            assert(rank(lengths, len, b) == rank(lengths, len, a) + if lengths[a] as nat == len {
                1nat
            } else {
                0nat
            });
        }
    }
}

/// The rank is at most the number of symbols seen.
pub proof fn lemma_rank_bound(lengths: Seq<u8>, len: nat, s: int)
    requires
        0 <= s,
    ensures
        rank(lengths, len, s) <= s,
    decreases s,
{
    if s > 0 {
        lemma_rank_bound(lengths, len, s - 1);
    }
}

/// The space below a length grows with the length.
pub proof fn lemma_space_monotone(lengths: Seq<u8>, a: nat, b: nat)
    requires
        a <= b,
    ensures
        space_below(lengths, a) <= space_below(lengths, b),
    decreases b - a,
{
    if a < b {
        lemma_space_monotone(lengths, a, (b - 1) as nat);
        if b > 1 {
            assert(count(lengths, (b - 1) as nat) * width((b - 1) as nat) >= 0) by (nonlinear_arith);
        }
    }
}

/// The words of a symbol lie among the words of its length.
pub proof fn lemma_code_within_length(lengths: Seq<u8>, s: int)
    requires
        0 <= s < lengths.len(),
        1 <= lengths[s] <= 15,
    ensures
        space_below(lengths, lengths[s] as nat) <= code_start(lengths, s),
        code_start(lengths, s) + width(lengths[s] as nat) <= space_below(
            lengths,
            (lengths[s] + 1) as nat,
        ),
{
    let len: nat = lengths[s] as nat;
    let w: nat = width(len);
    let k: nat = rank(lengths, len, s);
    let c: nat = count(lengths, len);
    lemma_rank_monotone(lengths, len, s, lengths.len() as int);
    assert(k + 1 <= c);
    assert(k * w + w <= c * w) by (nonlinear_arith)
        requires
            k + 1 <= c,
    ;
    assert(k * w >= 0) by (nonlinear_arith);
}

/// No word has two owners.
pub proof fn lemma_covers_unique(lengths: Seq<u8>, s1: int, s2: int, x: nat)
    requires
        covers(lengths, s1, x),
        covers(lengths, s2, x),
    ensures
        s1 == s2,
{
    let l1: nat = lengths[s1] as nat;
    let l2: nat = lengths[s2] as nat;
    lemma_code_within_length(lengths, s1);
    lemma_code_within_length(lengths, s2);
    if l1 < l2 {
        lemma_space_monotone(lengths, l1 + 1, l2);
    } else if l2 < l1 {
        lemma_space_monotone(lengths, l2 + 1, l1);
    } else if s1 != s2 {
        let w: nat = width(l1);
        let k1: nat = rank(lengths, l1, s1);
        let k2: nat = rank(lengths, l1, s2);
        if s1 < s2 {
            lemma_rank_monotone(lengths, l1, s1, s2);
            assert(k1 * w + w <= k2 * w) by (nonlinear_arith)
                requires
                    k1 + 1 <= k2,
            ;
        } else {
            lemma_rank_monotone(lengths, l1, s2, s1);
            assert(k2 * w + w <= k1 * w) by (nonlinear_arith)
                requires
                    k2 + 1 <= k1,
            ;
        }
    }
}

/// Codes get longer along the code space.
pub proof fn lemma_covers_ordered(lengths: Seq<u8>, s1: int, x1: nat, s2: int, x2: nat)
    requires
        covers(lengths, s1, x1),
        covers(lengths, s2, x2),
        x1 <= x2,
    ensures
        lengths[s1] <= lengths[s2],
{
    let l1: nat = lengths[s1] as nat;
    let l2: nat = lengths[s2] as nat;
    lemma_code_within_length(lengths, s1);
    lemma_code_within_length(lengths, s2);
    if l2 < l1 {
        lemma_space_monotone(lengths, l2 + 1, l1);
    }
}

/// What a `choose` of the owner gives is the owner.
pub proof fn lemma_symbol_at(lengths: Seq<u8>, s: int, x: nat)
    requires
        covers(lengths, s, x),
    ensures
        symbol_at(lengths, x) == s,
{
    lemma_covers_unique(lengths, s, symbol_at(lengths, x), x);
}

/// The space below a length is a multiple of the width of that length.
pub proof fn lemma_space_aligned(lengths: Seq<u8>, len: nat)
    requires
        1 <= len <= 15,
    ensures
        space_below(lengths, len) % width(len) == 0,
    decreases len,
{
    lemma_pow2_pos((15 - len) as nat);
    if len > 1 {
        let prev: nat = (len - 1) as nat;
        lemma_space_aligned(lengths, prev);
        lemma_width_step(prev);
        let w: int = width(len) as int;
        let a: int = space_below(lengths, prev) as int;
        let c: int = count(lengths, prev) as int;
        lemma_fundamental_div_mod(a, 2 * w);
        let q: int = a / (2 * w);
        assert(a + c * (2 * w) == (2 * q + 2 * c) * w + 0) by (nonlinear_arith)
            requires
                a == (2 * w) * q,
        ;
        lemma_fundamental_div_mod_converse(a + c * (2 * w), w, 2 * q + 2 * c, 0);
        assert(space_below(lengths, len) == a + c * (2 * w)) by (nonlinear_arith)
            requires
                space_below(lengths, len) == a + c * width(prev),
                width(prev) == 2 * w,
        ;
    } else {
        assert(space_below(lengths, len) == 0);
    }
}

/// The first word of a symbol is a multiple of the symbol's width: the
/// symbol owns exactly the words that share its quotient by the width.
pub proof fn lemma_covers_is_block(lengths: Seq<u8>, s: int, x: nat)
    requires
        0 <= s < lengths.len(),
        1 <= lengths[s] <= 15,
    ensures
        code_start(lengths, s) == code(lengths, s) * width(lengths[s] as nat),
        covers(lengths, s, x) <==> x / width(lengths[s] as nat) == code(lengths, s),
{
    let len: nat = lengths[s] as nat;
    let w: int = width(len) as int;
    lemma_pow2_pos((15 - len) as nat);
    lemma_space_aligned(lengths, len);
    let a: int = space_below(lengths, len) as int;
    let k: int = rank(lengths, len, s) as int;
    lemma_fundamental_div_mod(a, w);
    let q: int = a / w;
    let start: int = code_start(lengths, s) as int;
    assert(start == (q + k) * w + 0) by (nonlinear_arith)
        requires
            start == a + k * w,
            a == w * q,
    ;
    lemma_fundamental_div_mod_converse(start, w, q + k, 0);
    let c: int = code(lengths, s) as int;
    assert(c == q + k);
    lemma_fundamental_div_mod(x as int, w);
    let xq: int = x as int / w;
    let xr: int = x as int % w;
    if xq == c {
        assert(x == w * c + xr);
        assert(w * c == c * w) by (nonlinear_arith);
    } else if xq < c {
        assert(w * xq + xr < c * w) by (nonlinear_arith)
            requires
                xq + 1 <= c,
                0 <= xr < w,
        ;
    } else {
        assert(w * xq + xr >= c * w + w) by (nonlinear_arith)
            requires
                c + 1 <= xq,
                0 <= xr < w,
        ;
    }
}

/// The rank cannot grow by more than the number of symbols passed.
pub proof fn lemma_rank_step_bound(lengths: Seq<u8>, len: nat, a: int, b: int)
    requires
        0 <= a <= b,
    ensures
        rank(lengths, len, b) <= rank(lengths, len, a) + (b - a),
    decreases b - a,
{
    if a < b {
        lemma_rank_step_bound(lengths, len, a, b - 1);
    }
}

/// A symbol of another length is not counted.
pub proof fn lemma_rank_skips(lengths: Seq<u8>, len: nat, a: int, m: int)
    requires
        0 <= a < m,
        lengths[a] as nat != len,
    ensures
        rank(lengths, len, m) <= rank(lengths, len, a) + (m - a - 1),
{
    assert(rank(lengths, len, a + 1) == rank(lengths, len, a));
    lemma_rank_step_bound(lengths, len, a + 1, m);
}

/// Where exactly one symbol has a code, any two symbols with a code are
/// the same symbol.
pub proof fn lemma_single_used(lengths: Seq<u8>, a: int, b: int)
    requires
        used(lengths) == 1,
        0 <= a < lengths.len(),
        0 <= b < lengths.len(),
        lengths[a] != 0,
        lengths[b] != 0,
    ensures
        a == b,
{
    if a != b {
        let lo: int = if a < b { a } else { b };
        let hi: int = if a < b { b } else { a };
        lemma_rank_bound(lengths, 0, lo);
        lemma_rank_skips(lengths, 0, lo, hi);
        lemma_rank_skips(lengths, 0, hi, lengths.len() as int);
    }
}

/// The symbol that has a code, where only one has.
pub open spec fn only_symbol(lengths: Seq<u8>) -> int {
    choose|s: int| 0 <= s < lengths.len() && lengths[s] != 0
}

/// A symbol owns a word exactly when the word starts with the symbol's
/// code.
pub proof fn lemma_covers_is_code(lengths: Seq<u8>, s: int, v: nat)
    requires
        0 <= s < lengths.len(),
        1 <= lengths[s] <= 15,
    ensures
        covers(lengths, s, crate::huffman::reverse::rev_bits(v, 15))
            <==> crate::huffman::reverse::rev_bits(v % pow2(lengths[s] as nat), lengths[s] as nat)
            == code(lengths, s),
{
    crate::huffman::reverse::lemma_rev_top(v, lengths[s] as nat, 15);
    lemma_covers_is_block(lengths, s, crate::huffman::reverse::rev_bits(v, 15));
}

} // verus!
