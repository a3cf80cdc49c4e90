//! What the table of a complete code holds, slot by slot.
//!
//! A root prefix is the first `root_bits` bits of a word of the code space.
//! The root slot for a prefix stands at the index that has the prefix's
//! bits in reverse. Where the code that starts with the prefix is longer
//! than the root width, the slot leads to a second-level table, laid after
//! the second-level tables of the smaller prefixes.

use vstd::prelude::*;
use vstd::arithmetic::power2::{pow2, lemma_pow2_pos, lemma2_to64};
use crate::arith::{lemma_div_pow2_twice, lemma_pow2_split, lemma_scaled_div};
use crate::huffman::HuffmanCode;
use crate::huffman::canonical::{
    code, code_space, count, covers, is_complete, space_below, symbol_at, width,
    lemma_covers_is_block, lemma_symbol_at,
};
use crate::huffman::index::lemma_rank_witness;
use crate::huffman::reverse::rev_bits;

verus! {

/// The first `n` bits of the word `x`.
pub open spec fn prefix_of(x: nat, n: nat) -> nat {
    x / pow2((15 - n) as nat)
}

/// The first word that starts with the `n`-bit prefix `p`.
pub open spec fn first_word(p: nat, n: nat) -> nat {
    p * pow2((15 - n) as nat)
}

/// The length of the code that owns the word `x`.
pub open spec fn length_at(lengths: Seq<u8>, x: nat) -> nat {
    lengths[symbol_at(lengths, x)] as nat
}

/// How many bits index the second-level table of the root prefix `p`:
/// the longest code under the prefix, less the root width; 0 where the
/// prefix needs no second level.
pub open spec fn sub_width(lengths: Seq<u8>, r: nat, p: nat) -> nat {
    if length_at(lengths, first_word(p, r)) <= r {
        0
    } else {
        (length_at(lengths, (first_word(p + 1, r) - 1) as nat) - r) as nat
    }
}

/// Number of slots in the second-level table of the root prefix `p`.
pub open spec fn sub_size(lengths: Seq<u8>, r: nat, p: nat) -> nat {
    if sub_width(lengths, r, p) == 0 {
        0
    } else {
        pow2(sub_width(lengths, r, p))
    }
}

/// Number of second-level slots of the root prefixes below `p`.
pub open spec fn overflow_before(lengths: Seq<u8>, r: nat, p: nat) -> nat
    decreases p,
{
    if p == 0 {
        0
    } else {
        overflow_before(lengths, r, (p - 1) as nat) + sub_size(lengths, r, (p - 1) as nat)
    }
}

/// Where the second-level table of the root prefix `p` starts.
pub open spec fn sub_base(lengths: Seq<u8>, r: nat, p: nat) -> nat {
    pow2(r) + overflow_before(lengths, r, p)
}

/// The root slot of the prefix `p`.
pub open spec fn root_entry(lengths: Seq<u8>, r: nat, p: nat) -> HuffmanCode {
    let s = symbol_at(lengths, first_word(p, r));
    if lengths[s] <= r {
        HuffmanCode { value: s as u16, bits: lengths[s] }
    } else {
        HuffmanCode {
            value: (sub_base(lengths, r, p) - rev_bits(p, r)) as u16,
            bits: (r + sub_width(lengths, r, p)) as u8,
        }
    }
}

/// The word that the slot `j` of the second-level table of `p` stands for.
pub open spec fn sub_word(lengths: Seq<u8>, r: nat, p: nat, j: nat) -> nat {
    first_word(p, r) + rev_bits(j, sub_width(lengths, r, p)) * pow2(
        (15 - r - sub_width(lengths, r, p)) as nat,
    )
}

/// The slot `j` of the second-level table of the root prefix `p`.
pub open spec fn sub_entry(lengths: Seq<u8>, r: nat, p: nat, j: nat) -> HuffmanCode {
    let s = symbol_at(lengths, sub_word(lengths, r, p, j));
    HuffmanCode { value: s as u16, bits: (lengths[s] - r) as u8 }
}

/// The root slots of the prefixes below `upto`, and their second-level
/// tables, are in `entries`.
pub open spec fn is_table_upto(entries: Seq<HuffmanCode>, lengths: Seq<u8>, r: nat, upto: nat) -> bool {
    &&& pow2(r) + overflow_before(lengths, r, upto) <= entries.len()
    &&& forall|p: nat|
        p < upto ==> entries[rev_bits(p, r) as int] == #[trigger] root_entry(lengths, r, p)
    &&& forall|p: nat, j: nat|
        p < upto && j < sub_size(lengths, r, p) ==> entries[(sub_base(lengths, r, p) + j) as int]
            == #[trigger] sub_entry(lengths, r, p, j)
}

/// `entries` is the table of the complete code `lengths` with root width
/// `r`: every root slot, every second-level table, and nothing else.
pub open spec fn is_table_of(entries: Seq<HuffmanCode>, lengths: Seq<u8>, r: nat) -> bool {
    &&& entries.len() == pow2(r) + overflow_before(lengths, r, pow2(r))
    &&& is_table_upto(entries, lengths, r, pow2(r))
}

/// The length whose codes own the word `x`, found from `from` upwards.
pub proof fn lemma_length_exists(lengths: Seq<u8>, x: nat, from: nat) -> (len: nat)
    requires
        1 <= from <= 15,
        space_below(lengths, from) <= x < space_below(lengths, 16),
    ensures
        from <= len <= 15,
        space_below(lengths, len) <= x < space_below(lengths, len + 1),
    decreases 15 - from,
{
    if x < space_below(lengths, from + 1) {
        from
    } else {
        lemma_length_exists(lengths, x, from + 1)
    }
}

/// Every word of the code space of a complete code has an owner.
pub proof fn lemma_owner_exists(lengths: Seq<u8>, x: nat) -> (s: int)
    requires
        is_complete(lengths),
        x < code_space(),
    ensures
        covers(lengths, s, x),
        symbol_at(lengths, x) == s,
{
    let len: nat = lemma_length_exists(lengths, x, 1);
    let w: nat = width(len);
    lemma_pow2_pos((15 - len) as nat);
    let c: nat = count(lengths, len);
    let first: nat = space_below(lengths, len);
    assert(space_below(lengths, len + 1) == first + c * w);
    let k: nat = ((x - first) / (w as int)) as nat;
    vstd::arithmetic::div_mod::lemma_fundamental_div_mod(x - first, w as int);
    assert(k < c) by (nonlinear_arith)
        requires
            x - first < c * w,
            x - first == w * k + ((x - first) % (w as int)),
            0 <= (x - first) % (w as int),
            w > 0,
    ;
    let s: int = lemma_rank_witness(lengths, len, k, lengths.len() as int);
    assert(w * k == k * w) by (nonlinear_arith);
    lemma_symbol_at(lengths, s, x);
    s
}

/// A symbol that owns a word owns every word with the same first `m`
/// bits, for `m` at least the length of the symbol's code.
pub proof fn lemma_same_prefix_same_owner(lengths: Seq<u8>, s: int, x: nat, y: nat, m: nat)
    requires
        covers(lengths, s, x),
        lengths[s] <= m <= 15,
        prefix_of(x, m) == prefix_of(y, m),
    ensures
        covers(lengths, s, y),
        symbol_at(lengths, y) == s,
{
    let len: nat = lengths[s] as nat;
    lemma_div_pow2_twice(x, (15 - m) as nat, (m - len) as nat);
    lemma_div_pow2_twice(y, (15 - m) as nat, (m - len) as nat);
    lemma_covers_is_block(lengths, s, x);
    lemma_covers_is_block(lengths, s, y);
    lemma_symbol_at(lengths, s, y);
}

/// The first word of a prefix starts with the prefix, and so does every
/// word up to the first word of the next prefix.
pub proof fn lemma_first_word(p: nat, n: nat, c: nat)
    requires
        n <= 15,
        c < pow2((15 - n) as nat),
    ensures
        prefix_of(first_word(p, n) + c, n) == p,
        first_word(p + 1, n) == first_word(p, n) + pow2((15 - n) as nat),
        p < pow2(n) ==> first_word(p, n) + c < code_space(),
{
    lemma_scaled_div(p, c, (15 - n) as nat, 0);
    let w: nat = pow2((15 - n) as nat);
    assert((p + 1) * w == p * w + w) by (nonlinear_arith);
    if p < pow2(n) {
        lemma_pow2_split(n, (15 - n) as nat);
        lemma2_to64();
        assert(p * w + c < pow2(n) * w) by (nonlinear_arith)
            requires
                p + 1 <= pow2(n),
                c < w,
        ;
    }
}

} // verus!
