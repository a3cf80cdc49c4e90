//! The table of a complete code is well formed, and a lookup in it finds
//! the symbol whose code the stream starts with.

use vstd::prelude::*;
use vstd::arithmetic::power2::{pow2, lemma_pow2_pos, lemma2_to64};
use crate::arith::{
    lemma_div_of_sum, lemma_div_pow2_twice, lemma_mod_div_pow2, lemma_mod_pow2_twice,
    lemma_pow2_monotone, lemma_pow2_split, lemma_scaled_div,
};
use crate::huffman::{HuffmanCode, TableModel};
use crate::huffman::builder::lemma_overflow_monotone;
use crate::huffman::canonical::{code_space, covers, is_complete, symbol_at, lemma_covers_ordered};
use crate::huffman::layout::{
    first_word, is_table_of, length_at, overflow_before, prefix_of, root_entry, sub_base,
    sub_entry, sub_size, sub_width, sub_word, lemma_first_word, lemma_owner_exists,
    lemma_same_prefix_same_owner,
};
use crate::huffman::reverse::{
    rev_bits, lemma_rev_bound, lemma_rev_involution, lemma_rev_same_top, lemma_rev_split,
    lemma_rev_top,
};

verus! {

/// The second-level tables take at most as many slots as the prefixes
/// have words.
pub proof fn lemma_overflow_bound(lengths: Seq<u8>, r: nat, p: nat)
    requires
        is_complete(lengths),
        1 <= r <= 8,
        p <= pow2(r),
    ensures
        overflow_before(lengths, r, p) <= p * pow2((15 - r) as nat),
        p * pow2((15 - r) as nat) <= code_space(),
    decreases p,
{
    let w: nat = pow2((15 - r) as nat);
    lemma_pow2_split(r, (15 - r) as nat);
    lemma2_to64();
    assert(p * w <= pow2(r) * w) by (nonlinear_arith)
        requires
            p <= pow2(r),
    ;
    if p > 0 {
        let t: nat = (p - 1) as nat;
        lemma_overflow_bound(lengths, r, t);
        lemma_prefix_facts(lengths, r, t);
        if sub_width(lengths, r, t) > 0 {
            lemma_pow2_monotone(sub_width(lengths, r, t), (15 - r) as nat);
        }
        assert(p * w == t * w + w) by (nonlinear_arith)
            requires
                p == t + 1,
        ;
    } else {
        assert(p * w == 0) by (nonlinear_arith)
            requires
                p == 0,
        ;
    }
}

/// The codes under a root prefix: the first and the last word of the
/// prefix have owners, and where the first code is longer than the root
/// width, the last is at least as long.
pub proof fn lemma_prefix_facts(lengths: Seq<u8>, r: nat, p: nat)
    requires
        is_complete(lengths),
        1 <= r <= 8,
        p < pow2(r),
    ensures
        covers(lengths, symbol_at(lengths, first_word(p, r)), first_word(p, r)),
        first_word(p, r) < code_space(),
        length_at(lengths, first_word(p, r)) > r ==> 1 <= sub_width(lengths, r, p) <= 15 - r,
        length_at(lengths, first_word(p, r)) <= r ==> sub_width(lengths, r, p) == 0,
{
    lemma_pow2_pos((15 - r) as nat);
    lemma_first_word(p, r, 0);
    lemma_first_word(p, r, (pow2((15 - r) as nat) - 1) as nat);
    let x0: nat = first_word(p, r);
    let last: nat = (first_word(p + 1, r) - 1) as nat;
    let s0: int = lemma_owner_exists(lengths, x0);
    let s1: int = lemma_owner_exists(lengths, last);
    lemma_covers_ordered(lengths, s0, x0, s1, last);
}

/// A slot of a second-level table: the word it stands for lies under the
/// root prefix, has an owner, and starts with the prefix followed by the
/// slot's index in reverse.
pub proof fn lemma_sub_slot_facts(lengths: Seq<u8>, r: nat, p: nat, j: nat)
    requires
        is_complete(lengths),
        1 <= r <= 8,
        p < pow2(r),
        length_at(lengths, first_word(p, r)) > r,
        j < pow2(sub_width(lengths, r, p)),
    ensures
        first_word(p, r) <= sub_word(lengths, r, p, j) < code_space(),
        covers(lengths, symbol_at(lengths, sub_word(lengths, r, p, j)), sub_word(lengths, r, p, j)),
        r < length_at(lengths, sub_word(lengths, r, p, j)) <= r + sub_width(lengths, r, p),
        prefix_of(sub_word(lengths, r, p, j), r + sub_width(lengths, r, p)) == p * pow2(
            sub_width(lengths, r, p),
        ) + rev_bits(j, sub_width(lengths, r, p)),
{
    lemma_prefix_facts(lengths, r, p);
    let sw: nat = sub_width(lengths, r, p);
    let q: nat = rev_bits(j, sw);
    lemma_rev_bound(j, sw);
    let unit: nat = pow2((15 - r - sw) as nat);
    let pw: nat = pow2((15 - r) as nat);
    lemma_pow2_split(sw, (15 - r - sw) as nat);
    lemma_pow2_pos((15 - r) as nat);
    assert(q * unit + unit <= pow2(sw) * unit) by (nonlinear_arith)
        requires
            q + 1 <= pow2(sw),
    ;
    assert(q * unit >= 0) by (nonlinear_arith);
    lemma_first_word(p, r, q * unit);
    lemma_first_word(p, r, (pw - 1) as nat);
    let x0: nat = first_word(p, r);
    let xj: nat = sub_word(lengths, r, p, j);
    let last: nat = (first_word(p + 1, r) - 1) as nat;
    let s0: int = lemma_owner_exists(lengths, x0);
    let sj: int = lemma_owner_exists(lengths, xj);
    let s1: int = lemma_owner_exists(lengths, last);
    lemma_covers_ordered(lengths, s0, x0, sj, xj);
    lemma_covers_ordered(lengths, sj, xj, s1, last);
    // the word is the prefix, then the slot's bits, then zeros
    assert(xj == (p * pow2(sw) + q) * unit) by (nonlinear_arith)
        requires
            xj == p * pw + q * unit,
            pw == pow2(sw) * unit,
    ;
    lemma_scaled_div(p * pow2(sw) + q, 0, (15 - r - sw) as nat, 0);
}

/// The table of a complete code is well formed.
pub proof fn lemma_table_wf(entries: Seq<HuffmanCode>, lengths: Seq<u8>, r: nat)
    requires
        is_complete(lengths),
        1 <= r <= 8,
        is_table_of(entries, lengths, r),
    ensures
        (TableModel { entries: entries, root_bits: r }).wf(),
{
    let t: TableModel = TableModel { entries: entries, root_bits: r };
    assert forall|idx: int| 0 <= idx < pow2(r) implies #[trigger] t.root_slot_ok(idx) by {
        lemma_root_slot_ok(entries, lengths, r, idx as nat);
    }
}

/// One root slot of the table of a complete code is well formed.
pub proof fn lemma_root_slot_ok(entries: Seq<HuffmanCode>, lengths: Seq<u8>, r: nat, idx: nat)
    requires
        is_complete(lengths),
        1 <= r <= 8,
        is_table_of(entries, lengths, r),
        idx < pow2(r),
    ensures
        (TableModel { entries: entries, root_bits: r }).root_slot_ok(idx as int),
{
    let t: TableModel = TableModel { entries: entries, root_bits: r };
    let p: nat = rev_bits(idx, r);
    lemma_rev_bound(idx, r);
    lemma_rev_involution(idx, r);
    lemma_prefix_facts(lengths, r, p);
    let x0: nat = first_word(p, r);
    let s0: int = symbol_at(lengths, x0);
    let e: HuffmanCode = entries[idx as int];
    assert(e == root_entry(lengths, r, p));
    lemma_pow2_pos((15 - r) as nat);
    lemma_first_word(p, r, 0);
    if lengths[s0] <= r {
        let b: nat = lengths[s0] as nat;
        assert forall|j: int|
            0 <= j < pow2(r) && j % (pow2(e.bits as nat) as int) == (idx as int) % (pow2(
                e.bits as nat,
            ) as int) implies #[trigger] entries[j] == e by {
            let pj: nat = rev_bits(j as nat, r);
            lemma_rev_bound(j as nat, r);
            lemma_rev_involution(j as nat, r);
            lemma_prefix_facts(lengths, r, pj);
            lemma_first_word(pj, r, 0);
            // both prefixes start with the same b bits
            lemma_rev_same_top(j as nat, idx, b, r);
            lemma_div_pow2_twice(first_word(pj, r), (15 - r) as nat, (r - b) as nat);
            lemma_div_pow2_twice(x0, (15 - r) as nat, (r - b) as nat);
            assert(prefix_of(first_word(pj, r), b) == prefix_of(x0, b));
            lemma_same_prefix_same_owner(lengths, s0, x0, first_word(pj, r), b);
            assert(entries[j] == root_entry(lengths, r, pj));
        }
    } else {
        let sw: nat = sub_width(lengths, r, p);
        let base: nat = sub_base(lengths, r, p);
        lemma_overflow_bound(lengths, r, p);
        lemma_overflow_monotone(lengths, r, p + 1, pow2(r));
        lemma_pow2_monotone(r, 8);
        lemma_pow2_monotone((15 - r) as nat, 14);
        lemma2_to64();
        lemma_pow2_pos(sw);
        assert(sub_size(lengths, r, p) == pow2(sw));
        assert(overflow_before(lengths, r, p + 1) == overflow_before(lengths, r, p) + pow2(sw));
        assert(base - idx == (e.value as int)) by {
            assert(p * pow2((15 - r) as nat) <= 32768);
        }
        assert(e.bits == r + sw);
        assert(idx + e.value == base);
        assert forall|q: int| 0 <= q < pow2(sw) implies {
            let s = #[trigger] entries[base + q];
            &&& 1 <= s.bits <= sw
            &&& forall|k: int|
                0 <= k < pow2(sw) && k % (pow2(s.bits as nat) as int) == q % (pow2(
                    s.bits as nat,
                ) as int) ==> #[trigger] entries[base + k] == s
        } by {
            lemma_sub_slot_ok(entries, lengths, r, p, q as nat);
        }
        assert(t.sub_table_ok(idx + e.value, (e.bits - r) as nat));
    }
}

/// One slot of a second-level table of the table of a complete code is
/// well formed.
pub proof fn lemma_sub_slot_ok(entries: Seq<HuffmanCode>, lengths: Seq<u8>, r: nat, p: nat, q: nat)
    requires
        is_complete(lengths),
        1 <= r <= 8,
        is_table_of(entries, lengths, r),
        p < pow2(r),
        length_at(lengths, first_word(p, r)) > r,
        q < pow2(sub_width(lengths, r, p)),
    ensures
        ({
            let sw = sub_width(lengths, r, p);
            let base = sub_base(lengths, r, p);
            let s = entries[(base + q) as int];
            &&& s == sub_entry(lengths, r, p, q)
            &&& s.bits == length_at(lengths, sub_word(lengths, r, p, q)) - r
            &&& s.value == symbol_at(lengths, sub_word(lengths, r, p, q))
            &&& 1 <= s.bits <= sw
            &&& forall|k: int|
                0 <= k < pow2(sw) && k % (pow2(s.bits as nat) as int) == (q as int) % (pow2(
                    s.bits as nat,
                ) as int) ==> #[trigger] entries[base + k] == s
        }),
{
    let sw: nat = sub_width(lengths, r, p);
    let base: nat = sub_base(lengths, r, p);
    lemma_prefix_facts(lengths, r, p);
    lemma_pow2_pos(sw);
    assert(sub_size(lengths, r, p) == pow2(sw));
    lemma_sub_slot_facts(lengths, r, p, q);
    let xq: nat = sub_word(lengths, r, p, q);
    let sq: int = symbol_at(lengths, xq);
    let s: HuffmanCode = entries[(base + q) as int];
    assert(s == sub_entry(lengths, r, p, q));
    let b: nat = (lengths[sq] - r) as nat;
    assert(s.bits == b);
    assert forall|k: int|
        0 <= k < pow2(sw) && k % (pow2(s.bits as nat) as int) == (q as int) % (pow2(
            s.bits as nat,
        ) as int) implies #[trigger] entries[base + k] == s by {
        lemma_sub_slot_facts(lengths, r, p, k as nat);
        let xk: nat = sub_word(lengths, r, p, k as nat);
        // both words start with the same r + b bits
        lemma_rev_same_top(k as nat, q, b, sw);
        let rest: nat = (sw - b) as nat;
        lemma_div_of_sum(rev_bits(k as nat, sw), p, sw, rest);
        lemma_div_of_sum(rev_bits(q, sw), p, sw, rest);
        lemma_div_pow2_twice(xk, (15 - r - sw) as nat, rest);
        lemma_div_pow2_twice(xq, (15 - r - sw) as nat, rest);
        assert(p * pow2(sw) == pow2(sw) * p) by (nonlinear_arith);
        assert(prefix_of(xk, r + b) == prefix_of(xq, r + b));
        lemma_same_prefix_same_owner(lengths, sq, xq, xk, r + b);
        assert(entries[base + k] == sub_entry(lengths, r, p, k as nat));
    }
}

/// A lookup in the table of a complete code finds, for every stream, the
/// symbol that owns the word made of the stream's first 15 bits, and the
/// length of its code.
pub proof fn lemma_table_decodes(entries: Seq<HuffmanCode>, lengths: Seq<u8>, r: nat, v: nat)
    requires
        is_complete(lengths),
        1 <= r <= 8,
        is_table_of(entries, lengths, r),
        v < code_space(),
    ensures
        ({
            let d = (TableModel { entries: entries, root_bits: r }).decode(v, 15);
            &&& d is Some
            &&& covers(lengths, d->0.value as int, rev_bits(v, 15))
            &&& d->0.nbits == lengths[d->0.value as int]
        }),
{
    let t: TableModel = TableModel { entries: entries, root_bits: r };
    let x: nat = rev_bits(v, 15);
    lemma_rev_bound(v, 15);
    lemma2_to64();
    let idx: nat = v % pow2(r);
    lemma_mod_pow2_twice(v, r, r);
    let p: nat = rev_bits(idx, r);
    lemma_rev_bound(idx, r);
    lemma_rev_involution(idx, r);
    lemma_prefix_facts(lengths, r, p);
    lemma_pow2_pos((15 - r) as nat);
    lemma_first_word(p, r, 0);
    let x0: nat = first_word(p, r);
    let s0: int = symbol_at(lengths, x0);
    let e: HuffmanCode = entries[idx as int];
    assert(e == root_entry(lengths, r, p));
    // the word starts with the prefix p
    lemma_rev_top(v, r, 15);
    assert(prefix_of(x, r) == p);
    if lengths[s0] <= r {
        lemma_same_prefix_same_owner(lengths, s0, x0, x, r);
    } else {
        let sw: nat = sub_width(lengths, r, p);
        let base: nat = sub_base(lengths, r, p);
        lemma_overflow_bound(lengths, r, p);
        lemma_pow2_monotone(r, 8);
        lemma_pow2_monotone((15 - r) as nat, 14);
        lemma_pow2_pos(sw);
        assert(e.bits == r + sw);
        assert(idx + e.value == base);
        let q: nat = (v / pow2(r)) % pow2(sw);
        lemma_mod_div_pow2(v, r, sw);
        lemma_sub_slot_ok(entries, lengths, r, p, q);
        lemma_sub_slot_facts(lengths, r, p, q);
        let xq: nat = sub_word(lengths, r, p, q);
        let sq: int = symbol_at(lengths, xq);
        // the word starts with the prefix, then the slot's bits
        let low: nat = v % pow2(r + sw);
        lemma_rev_top(v, r + sw, 15);
        lemma_rev_split(low, r, sw);
        lemma_mod_pow2_twice(v, r, r + sw);
        assert(prefix_of(x, r + sw) == prefix_of(xq, r + sw));
        lemma_same_prefix_same_owner(lengths, sq, xq, x, r + sw);
    }
}

/// The root prefix whose second-level table holds the overflow slot `i`,
/// searched among the prefixes below `upto`.
pub proof fn lemma_overflow_slot_owner(lengths: Seq<u8>, r: nat, i: nat, upto: nat) -> (p: nat)
    requires
        pow2(r) <= i < pow2(r) + overflow_before(lengths, r, upto),
    ensures
        p < upto,
        sub_base(lengths, r, p) <= i < sub_base(lengths, r, p) + sub_size(lengths, r, p),
    decreases upto,
{
    let t: nat = (upto - 1) as nat;
    if i >= pow2(r) + overflow_before(lengths, r, t) {
        t
    } else {
        lemma_overflow_slot_owner(lengths, r, i, t)
    }
}

/// No overflow slot belongs to two second-level tables, nor twice to one.
pub proof fn lemma_sub_tables_disjoint(lengths: Seq<u8>, r: nat, pa: nat, ja: nat, pb: nat, jb: nat)
    requires
        ja < sub_size(lengths, r, pa),
        jb < sub_size(lengths, r, pb),
        sub_base(lengths, r, pa) + ja == sub_base(lengths, r, pb) + jb,
    ensures
        pa == pb,
        ja == jb,
{
    if pa < pb {
        lemma_overflow_monotone(lengths, r, pa + 1, pb);
    } else if pb < pa {
        lemma_overflow_monotone(lengths, r, pb + 1, pa);
    }
}

/// The overflow slot `i` is the slot `j` of the second-level table of the
/// root prefix `p`, and the root slot of `p` leads to that table.
pub open spec fn is_sub_slot(
    entries: Seq<HuffmanCode>,
    lengths: Seq<u8>,
    r: nat,
    i: nat,
    p: nat,
    j: nat,
) -> bool {
    &&& p < pow2(r)
    &&& j < sub_size(lengths, r, p)
    &&& i == sub_base(lengths, r, p) + j
    &&& entries[i as int] == sub_entry(lengths, r, p, j)
    &&& entries[rev_bits(p, r) as int].bits == r + sub_width(lengths, r, p)
    &&& rev_bits(p, r) + entries[rev_bits(p, r) as int].value == sub_base(lengths, r, p)
}

/// The overflow slot `i` is reached from a root slot.
pub open spec fn is_reached(entries: Seq<HuffmanCode>, lengths: Seq<u8>, r: nat, i: nat) -> bool {
    exists|p: nat, j: nat| #[trigger] is_sub_slot(entries, lengths, r, i, p, j)
}

/// The table of a complete code is complete: every root slot is
/// populated, and the overflow region is the second-level tables one after
/// another, each reached from the root slot of its prefix, with no slot
/// outside them. That no slot is in two of them is
/// `lemma_sub_tables_disjoint`.
pub proof fn lemma_table_complete(entries: Seq<HuffmanCode>, lengths: Seq<u8>, r: nat)
    requires
        is_complete(lengths),
        1 <= r <= 8,
        is_table_of(entries, lengths, r),
    ensures
        forall|idx: nat|
            idx < pow2(r) ==> #[trigger] entries[idx as int] == root_entry(
                lengths,
                r,
                rev_bits(idx, r),
            ),
        forall|i: nat|
            pow2(r) <= i < entries.len() ==> #[trigger] is_reached(entries, lengths, r, i),
{
    assert forall|idx: nat| idx < pow2(r) implies #[trigger] entries[idx as int] == root_entry(
        lengths,
        r,
        rev_bits(idx, r),
    ) by {
        lemma_rev_bound(idx, r);
        lemma_rev_involution(idx, r);
    }
    assert forall|i: nat| pow2(r) <= i < entries.len() implies #[trigger] is_reached(
        entries,
        lengths,
        r,
        i,
    ) by {
        let p: nat = lemma_overflow_slot_owner(lengths, r, i, pow2(r));
        let j: nat = (i - sub_base(lengths, r, p)) as nat;
        lemma_prefix_facts(lengths, r, p);
        lemma_overflow_bound(lengths, r, p);
        lemma_rev_bound(p, r);
        lemma_pow2_monotone(r, 8);
        lemma_pow2_monotone((15 - r) as nat, 14);
        lemma2_to64();
        assert(entries[rev_bits(p, r) as int] == root_entry(lengths, r, p));
        assert(sub_entry(lengths, r, p, j) == entries[(sub_base(lengths, r, p) + j) as int]);
        assert(is_sub_slot(entries, lengths, r, i, p, j));
    }
}

} // verus!
