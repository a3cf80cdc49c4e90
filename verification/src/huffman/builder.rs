//! Building the lookup table of a code from the lengths of its codes.

use vstd::prelude::*;
use vstd::arithmetic::power2::{pow2, lemma_pow2_pos, lemma2_to64};
use crate::arith::{lemma_pow2_monotone, lemma_pow2_split, shift_up};
use crate::huffman::{HuffmanCode, HuffmanTable, HuffmanTableError, TableModel};
use crate::huffman::canonical::{
    code_space, covers, is_complete, kraft_sum, lengths_in_range, only_symbol, rank, symbol_at,
    used, lemma_covers_ordered, lemma_rank_bound, lemma_single_used, lemma_symbol_at,
};
use crate::huffman::soundness::{lemma_table_decodes, lemma_table_wf};
use crate::huffman::index::{
    CodeIndex, check_lengths, count_lengths, offset_table, sort_symbols, space_table,
};
use crate::huffman::layout::{
    first_word, is_table_of, is_table_upto, length_at, overflow_before, root_entry, sub_base,
    sub_entry, sub_size, sub_width, sub_word, lemma_first_word,
};
use crate::huffman::reverse::{rev_bits, reverse_bits, lemma_rev_bound, lemma_rev_involution};

verus! {

/// Two prefixes have two root slots.
proof fn lemma_root_slots_differ(pa: nat, pb: nat, r: nat)
    requires
        pa < pow2(r),
        pb < pow2(r),
        pa != pb,
    ensures
        rev_bits(pa, r) != rev_bits(pb, r),
        rev_bits(pa, r) < pow2(r),
{
    lemma_rev_involution(pa, r);
    lemma_rev_involution(pb, r);
    lemma_rev_bound(pa, r);
}

/// The second-level table of the root prefix `p`, appended to `codes`.
fn fill_sub_table(
    codes: &mut Vec<HuffmanCode>,
    index: &CodeIndex,
    r: u32,
    p: u32,
    sw: u32,
    lengths: Ghost<Seq<u8>>,
)
    requires
        index.describes(lengths@),
        1 <= r <= 8,
        p < pow2(r as nat),
        sw == sub_width(lengths@, r as nat, p as nat),
        1 <= sw <= 15 - r,
        length_at(lengths@, first_word(p as nat, r as nat)) > r,
        old(codes)@.len() == sub_base(lengths@, r as nat, p as nat),
        old(codes)@.len() <= 0x10000,
    ensures
        final(codes)@.len() == old(codes)@.len() + pow2(sw as nat),
        final(codes)@.subrange(0, old(codes)@.len() as int) == old(codes)@,
        forall|j: nat|
            j < pow2(sw as nat) ==> final(codes)@[(old(codes)@.len() + j) as int] == #[trigger] sub_entry(
                lengths@,
                r as nat,
                p as nat,
                j,
            ),
{
    let ghost before: Seq<HuffmanCode> = codes@;
    let ghost rn: nat = r as nat;
    let ghost pn: nat = p as nat;
    proof {
        lemma2_to64();
        lemma_pow2_monotone(rn, 8);
        lemma_pow2_monotone(sw as nat, 14);
        lemma_pow2_monotone((15 - r - sw) as nat, 14);
        lemma_pow2_monotone((15 - r) as nat, 14);
        lemma_pow2_pos(sw as nat);
        lemma_pow2_pos((15 - r - sw) as nat);
        lemma_pow2_split(sw as nat, (15 - r - sw) as nat);
        assert(is_complete(lengths@));
    }
    let size: u32 = shift_up(1, sw);
    let unit: u32 = shift_up(1, 15 - r - sw);
    proof {
        assert(p * pow2((15 - r) as nat) <= 256 * 16384) by (nonlinear_arith)
            requires
                p <= 256,
                pow2((15 - r) as nat) <= 16384,
        ;
    }
    let x0: u32 = shift_up(p, 15 - r);
    let ghost s0: int = symbol_at(lengths@, x0 as nat);
    proof {
        lemma_first_word(pn, rn, 0);
        s0 = crate::huffman::layout::lemma_owner_exists(lengths@, x0 as nat);
    }
    let mut j: u32 = 0;
    while j < size
        invariant
            j <= size,
            size == pow2(sw as nat),
            unit == pow2((15 - r - sw) as nat),
            size * unit == pow2((15 - r) as nat),
            x0 == first_word(pn, rn),
            covers(lengths@, s0, x0 as nat),
            lengths@[s0] > r,
            index.describes(lengths@),
            1 <= r <= 8,
            rn == r,
            pn == p,
            pn < pow2(rn),
            sw == sub_width(lengths@, rn, pn),
            1 <= sw <= 15 - r,
            size <= 16384,
            1 <= unit <= 16384,
            size * unit <= 16384,
            before.len() <= 0x10000,
            codes@.len() == before.len() + j,
            codes@.subrange(0, before.len() as int) == before,
            forall|k: nat|
                k < j ==> codes@[(before.len() + k) as int] == #[trigger] sub_entry(lengths@, rn, pn, k),
        decreases size - j,
    {
        let q: u32 = reverse_bits(j, sw);
        proof {
            assert(q * unit + unit <= size * unit) by (nonlinear_arith)
                requires
                    q + 1 <= size,
            ;
            lemma_first_word(pn, rn, (q * unit) as nat);
        }
        let xj: u32 = x0 + q * unit;
        let (sj, lenj): (u16, u8) = index.lookup(xj, lengths);
        proof {
            assert(xj == sub_word(lengths@, rn, pn, j as nat));
            lemma_symbol_at(lengths@, sj as int, xj as nat);
            lemma_covers_ordered(lengths@, s0, x0 as nat, sj as int, xj as nat);
        }
        let ghost prev: Seq<HuffmanCode> = codes@;
        codes.push(HuffmanCode { value: sj, bits: lenj - r as u8 });
        proof {
            assert(codes@.subrange(0, before.len() as int) =~= prev.subrange(
                0,
                before.len() as int,
            ));
            assert forall|k: nat| k < j + 1 implies codes@[(before.len() + k) as int] == #[trigger] sub_entry(
                lengths@,
                rn,
                pn,
                k,
            ) by {
                if k < j {
                    assert(codes@[(before.len() + k) as int] == prev[(before.len() + k) as int]);
                }
            }
        }
        j = j + 1;
    }
}

/// The table of the complete code that `index` describes, with a root
/// table of `root_bits` bits.
pub(crate) fn fill_table(index: &CodeIndex, root_bits: u8, lengths: Ghost<Seq<u8>>) -> (codes: Vec<
    HuffmanCode,
>)
    requires
        index.describes(lengths@),
        1 <= root_bits <= 8,
    ensures
        is_table_of(codes@, lengths@, root_bits as nat),
        codes@.len() <= 0x10000,
{
    let r: u32 = root_bits as u32;
    let ghost rn: nat = r as nat;
    proof {
        lemma2_to64();
        lemma_pow2_monotone(rn, 8);
        lemma_pow2_monotone((15 - r) as nat, 14);
        lemma_pow2_pos(rn);
        lemma_pow2_pos((15 - r) as nat);
        lemma_pow2_split(rn, (15 - r) as nat);
        assert(is_complete(lengths@));
    }
    let root_size: u32 = shift_up(1, r);
    let prefix_width: u32 = shift_up(1, 15 - r);
    let mut codes: Vec<HuffmanCode> = Vec::new();
    let mut k: u32 = 0;
    while k < root_size
        invariant
            k <= root_size,
            codes@.len() == k,
        decreases root_size - k,
    {
        codes.push(HuffmanCode { value: 0, bits: 0 });
        k = k + 1;
    }
    let mut p: u32 = 0;
    while p < root_size
        invariant
            p <= root_size,
            root_size == pow2(rn),
            prefix_width == pow2((15 - r) as nat),
            root_size * prefix_width == 32768,
            root_size <= 256,
            prefix_width <= 16384,
            rn == r,
            1 <= r <= 8,
            r == root_bits,
            index.describes(lengths@),
            is_complete(lengths@),
            codes@.len() == pow2(rn) + overflow_before(lengths@, rn, p as nat),
            overflow_before(lengths@, rn, p as nat) <= p * prefix_width,
            is_table_upto(codes@, lengths@, rn, p as nat),
        decreases root_size - p,
    {
        let ghost pn: nat = p as nat;
        let ghost prev: Seq<HuffmanCode> = codes@;
        let idx: u32 = reverse_bits(p, r);
        proof {
            assert(p * prefix_width + prefix_width <= root_size * prefix_width)
                by (nonlinear_arith)
                requires
                    p + 1 <= root_size,
            ;
            lemma_first_word(pn, rn, 0);
            lemma_first_word(pn, rn, (prefix_width - 1) as nat);
        }
        let x0: u32 = p * prefix_width;
        let (s, len): (u16, u8) = index.lookup(x0, lengths);
        proof {
            lemma_symbol_at(lengths@, s as int, x0 as nat);
            assert(x0 == first_word(pn, rn));
        }
        if len as u32 <= r {
            codes.set(idx as usize, HuffmanCode { value: s, bits: len });
            proof {
                assert(sub_width(lengths@, rn, pn) == 0);
                assert(sub_size(lengths@, rn, pn) == 0);
                assert(codes@[rev_bits(pn, rn) as int] == root_entry(lengths@, rn, pn));
            }
        } else {
            let last: u32 = x0 + prefix_width - 1;
            let (s2, len2): (u16, u8) = index.lookup(last, lengths);
            proof {
                lemma_symbol_at(lengths@, s2 as int, last as nat);
                lemma_covers_ordered(lengths@, s as int, x0 as nat, s2 as int, last as nat);
                assert(last == (first_word(pn + 1, rn) - 1) as nat);
            }
            let sw: u32 = len2 as u32 - r;
            let base: usize = codes.len();
            proof {
                assert(sw == sub_width(lengths@, rn, pn));
                lemma_pow2_monotone(sw as nat, (15 - r) as nat);
                assert(sub_size(lengths@, rn, pn) == pow2(sw as nat));
            }
            fill_sub_table(&mut codes, index, r, p, sw, lengths);
            let ghost filled: Seq<HuffmanCode> = codes@;
            codes.set(
                idx as usize,
                HuffmanCode { value: (base - idx as usize) as u16, bits: (r + sw) as u8 },
            );
            proof {
                assert(codes@[rev_bits(pn, rn) as int] == root_entry(lengths@, rn, pn));
                assert forall|j: nat| j < sub_size(lengths@, rn, pn) implies codes@[(sub_base(
                    lengths@,
                    rn,
                    pn,
                ) + j) as int] == #[trigger] sub_entry(lengths@, rn, pn, j) by {
                    assert(codes@[(base + j) as int] == filled[(base + j) as int]);
                }
                assert forall|i: int| 0 <= i < prev.len() implies filled[i] == prev[i] by {
                    assert(filled.subrange(0, prev.len() as int)[i] == prev[i]);
                }
            }
        }
        proof {
            // what stood for the smaller prefixes still stands
            assert forall|t: nat| t < pn implies codes@[rev_bits(t, rn) as int] == #[trigger] root_entry(
                lengths@,
                rn,
                t,
            ) by {
                lemma_root_slots_differ(t, pn, rn);
                assert(prev[rev_bits(t, rn) as int] == root_entry(lengths@, rn, t));
            }
            assert forall|t: nat, j: nat|
                t < pn && j < sub_size(lengths@, rn, t) implies codes@[(sub_base(lengths@, rn, t)
                + j) as int] == #[trigger] sub_entry(lengths@, rn, t, j) by {
                lemma_overflow_monotone(lengths@, rn, t + 1, pn);
                assert(prev[(sub_base(lengths@, rn, t) + j) as int] == sub_entry(lengths@, rn, t, j));
                lemma_rev_bound(pn, rn);
            }
            assert(overflow_before(lengths@, rn, pn + 1) == overflow_before(lengths@, rn, pn)
                + sub_size(lengths@, rn, pn));
            assert((p + 1) * prefix_width == p * prefix_width + prefix_width) by (nonlinear_arith);
        }
        p = p + 1;
    }
    codes
}

/// The second-level tables follow one another: the slots before a prefix
/// are at most the slots before a larger prefix.
pub proof fn lemma_overflow_monotone(lengths: Seq<u8>, r: nat, a: nat, b: nat)
    requires
        a <= b,
    ensures
        overflow_before(lengths, r, a) <= overflow_before(lengths, r, b),
    decreases b - a,
{
    if a < b {
        lemma_overflow_monotone(lengths, r, a, (b - 1) as nat);
    }
}

/// Why `lengths` has no table, or `None` where it has one. A list with a
/// single symbol that has a code is the code of that symbol on zero bits,
/// whatever length the list gives it; any other list has a table where
/// its codes fill the code space exactly.
pub open spec fn build_error(lengths: Seq<u8>) -> Option<HuffmanTableError> {
    if lengths.len() > 65536 {
        Some(HuffmanTableError::TooManySymbols)
    } else if !lengths_in_range(lengths) {
        Some(HuffmanTableError::LengthTooLong)
    } else if used(lengths) == 0 {
        Some(HuffmanTableError::NoSymbol)
    } else if used(lengths) == 1 {
        None
    } else if kraft_sum(lengths) > code_space() {
        Some(HuffmanTableError::OverSubscribed)
    } else if kraft_sum(lengths) < code_space() {
        Some(HuffmanTableError::UnderSubscribed)
    } else {
        None
    }
}

/// Every lookup in `t`, with the whole lookahead in the stream, finds the
/// symbol whose code the stream starts with, and says how long the code is.
pub open spec fn decodes_canonically(t: TableModel, lengths: Seq<u8>) -> bool {
    forall|v: nat|
        v < code_space() ==> {
            let d = #[trigger] t.decode(v, 15);
            &&& d is Some
            &&& covers(lengths, d->0.value as int, rev_bits(v, 15))
            &&& d->0.nbits == lengths[d->0.value as int]
        }
}

/// `t` is the table of the code `lengths` with a root table of `r` bits.
pub open spec fn is_table_for(t: TableModel, lengths: Seq<u8>, r: nat) -> bool {
    &&& t.root_bits == r
    &&& t.wf()
    &&& if used(lengths) == 1 {
        &&& t.entries.len() == pow2(r)
        &&& forall|i: int|
            0 <= i < pow2(r) ==> #[trigger] t.entries[i] == (HuffmanCode {
                value: only_symbol(lengths) as u16,
                bits: 0,
            })
    } else {
        &&& is_table_of(t.entries, lengths, r)
        &&& decodes_canonically(t, lengths)
    }
}

/// The table of the code with the single symbol `symbol`: every slot
/// decodes to it on zero bits.
fn singleton_table(symbol: u16, root_bits: u8) -> (codes: Vec<HuffmanCode>)
    requires
        1 <= root_bits <= 8,
    ensures
        codes@.len() == pow2(root_bits as nat),
        forall|i: int|
            0 <= i < codes@.len() ==> #[trigger] codes@[i] == (HuffmanCode {
                value: symbol,
                bits: 0,
            }),
        (TableModel { entries: codes@, root_bits: root_bits as nat }).wf(),
{
    proof {
        lemma2_to64();
        lemma_pow2_monotone(root_bits as nat, 8);
    }
    let root_size: u32 = shift_up(1, root_bits as u32);
    let mut codes: Vec<HuffmanCode> = Vec::new();
    let mut k: u32 = 0;
    while k < root_size
        invariant
            k <= root_size,
            codes@.len() == k,
            forall|i: int|
                0 <= i < k ==> #[trigger] codes@[i] == (HuffmanCode { value: symbol, bits: 0 }),
        decreases root_size - k,
    {
        codes.push(HuffmanCode { value: symbol, bits: 0 });
        k = k + 1;
    }
    proof {
        let t: TableModel = TableModel { entries: codes@, root_bits: root_bits as nat };
        assert forall|idx: int| 0 <= idx < pow2(t.root_bits) implies #[trigger] t.root_slot_ok(
            idx,
        ) by {}
    }
    codes
}

/// The first symbol that has a code.
fn first_used(lengths: &[u8]) -> (s: usize)
    requires
        used(lengths@) >= 1,
    ensures
        s < lengths@.len(),
        lengths@[s as int] != 0,
{
    let mut i: usize = 0;
    proof {
        lemma_rank_bound(lengths@, 0, lengths@.len() as int);
    }
    loop
        invariant
            i <= lengths@.len(),
            rank(lengths@, 0, i as int) == i,
            used(lengths@) >= 1,
        decreases lengths@.len() - i,
    {
        if lengths[i] != 0 {
            return i;
        }
        i = i + 1;
    }
}

/// Builds lookup tables from code lengths.
pub struct HuffmanTableBuilder {}

impl HuffmanTableBuilder {
    /// The table of the code whose symbol `s` has a code of `lengths[s]`
    /// bits, 0 for a symbol without a code, with a root table of 8 bits.
    /// Fails on a list that is not a code: see `build_error`.
    pub fn build(lengths: &[u8]) -> (r: Result<HuffmanTable, HuffmanTableError>)
        ensures
            match build_error(lengths@) {
                Some(e) => r is Err && r->Err_0 == e,
                None => r is Ok && is_table_for(r->Ok_0@, lengths@, 8),
            },
    {
        HuffmanTableBuilder::build_with_root_bits(lengths, 8)
    }

    /// As `build`, with a root table of `root_bits` bits.
    pub fn build_with_root_bits(lengths: &[u8], root_bits: u8) -> (r: Result<
        HuffmanTable,
        HuffmanTableError,
    >)
        requires
            1 <= root_bits <= 8,
        ensures
            match build_error(lengths@) {
                Some(e) => r is Err && r->Err_0 == e,
                None => r is Ok && is_table_for(r->Ok_0@, lengths@, root_bits as nat),
            },
    {
        if lengths.len() > 65536 {
            return Err(HuffmanTableError::TooManySymbols);
        }
        if !check_lengths(lengths) {
            return Err(HuffmanTableError::LengthTooLong);
        }
        let counts: Vec<u32> = count_lengths(lengths);
        proof {
            lemma_rank_bound(lengths@, 0, lengths@.len() as int);
        }
        let used_symbols: usize = lengths.len() - counts[0] as usize;
        if used_symbols == 0 {
            return Err(HuffmanTableError::NoSymbol);
        }
        if used_symbols == 1 {
            let symbol: usize = first_used(lengths);
            proof {
                lemma_single_used(lengths@, symbol as int, only_symbol(lengths@));
            }
            let codes: Vec<HuffmanCode> = singleton_table(symbol as u16, root_bits);
            return Ok(HuffmanTable::from_parts(codes, root_bits));
        }
        let start: Vec<u64> = space_table(&counts, Ghost(lengths@));
        if start[16] > 32768 {
            return Err(HuffmanTableError::OverSubscribed);
        }
        if start[16] < 32768 {
            return Err(HuffmanTableError::UnderSubscribed);
        }
        let offset: Vec<u32> = offset_table(&counts, Ghost(lengths@));
        let sorted: Vec<u16> = sort_symbols(lengths, &offset);
        let index: CodeIndex = CodeIndex { start, offset, sorted };
        let codes: Vec<HuffmanCode> = fill_table(&index, root_bits, Ghost(lengths@));
        proof {
            let t: TableModel = TableModel { entries: codes@, root_bits: root_bits as nat };
            lemma_table_wf(codes@, lengths@, root_bits as nat);
            assert forall|v: nat| v < code_space() implies {
                let d = #[trigger] t.decode(v, 15);
                &&& d is Some
                &&& covers(lengths@, d->0.value as int, rev_bits(v, 15))
                &&& d->0.nbits == lengths@[d->0.value as int]
            } by {
                lemma_table_decodes(codes@, lengths@, root_bits as nat, v);
            }
        }
        Ok(HuffmanTable::from_parts(codes, root_bits))
    }
}

} // verus!
