//! The symbols of a code in canonical order, and the lookup of the owner
//! of a word of the code space.

use vstd::prelude::*;
use vstd::arithmetic::power2::{pow2, lemma_pow2_pos, lemma2_to64};
use vstd::arithmetic::div_mod::lemma_fundamental_div_mod;
use vstd::bits::{lemma_u32_shl_is_mul, lemma_u32_shr_is_div};
use crate::arith::lemma_pow2_monotone;
use crate::huffman::canonical::{
    code_space, count, covers, kraft_sum, lengths_in_range, rank, space_below, width,
    lemma_rank_bound, lemma_rank_monotone,
};

verus! {

/// Number of symbols with a code shorter than `len`.
pub open spec fn symbols_below(lengths: Seq<u8>, len: nat) -> nat
    decreases len,
{
    if len <= 1 {
        0
    } else {
        symbols_below(lengths, (len - 1) as nat) + count(lengths, (len - 1) as nat)
    }
}

/// The place of symbol `s` in canonical order: by length, then by symbol.
pub open spec fn sorted_position(lengths: Seq<u8>, s: int) -> nat {
    symbols_below(lengths, lengths[s] as nat) + rank(lengths, lengths[s] as nat, s)
}

/// `sorted` holds every symbol that has a code at its place in canonical
/// order.
pub open spec fn is_canonical_order(lengths: Seq<u8>, sorted: Seq<u16>, upto: int) -> bool {
    forall|s: int|
        0 <= s < upto && 1 <= lengths[s] <= 15 ==> #[trigger] sorted_position(lengths, s)
            < sorted.len() && sorted[sorted_position(lengths, s) as int] == s
}

/// The number of symbols below a length grows with the length.
pub proof fn lemma_symbols_monotone(lengths: Seq<u8>, a: nat, b: nat)
    requires
        a <= b,
    ensures
        symbols_below(lengths, a) <= symbols_below(lengths, b),
    decreases b - a,
{
    if a < b {
        lemma_symbols_monotone(lengths, a, (b - 1) as nat);
    }
}

/// The symbols with a code are at most as many as the symbols.
pub proof fn lemma_symbols_bound(lengths: Seq<u8>, len: nat)
    ensures
        symbols_below(lengths, len) <= len * lengths.len(),
    decreases len,
{
    if len > 1 {
        lemma_symbols_bound(lengths, (len - 1) as nat);
        lemma_rank_bound(lengths, (len - 1) as nat, lengths.len() as int);
        assert((len - 1) * lengths.len() + lengths.len() == len * lengths.len())
            by (nonlinear_arith);
    } else {
        assert(len * lengths.len() >= 0) by (nonlinear_arith);
    }
}

/// The place of a symbol lies among the places of its length.
pub proof fn lemma_position_within_length(lengths: Seq<u8>, s: int)
    requires
        0 <= s < lengths.len(),
        1 <= lengths[s] <= 15,
    ensures
        symbols_below(lengths, lengths[s] as nat) <= sorted_position(lengths, s),
        sorted_position(lengths, s) < symbols_below(lengths, (lengths[s] + 1) as nat),
        sorted_position(lengths, s) < symbols_below(lengths, 16),
{
    let len: nat = lengths[s] as nat;
    lemma_rank_monotone(lengths, len, s, lengths.len() as int);
    lemma_symbols_monotone(lengths, len + 1, 16);
}

/// Two symbols have two places.
pub proof fn lemma_position_injective(lengths: Seq<u8>, s1: int, s2: int)
    requires
        0 <= s1 < lengths.len(),
        0 <= s2 < lengths.len(),
        1 <= lengths[s1] <= 15,
        1 <= lengths[s2] <= 15,
        sorted_position(lengths, s1) == sorted_position(lengths, s2),
    ensures
        s1 == s2,
{
    let l1: nat = lengths[s1] as nat;
    let l2: nat = lengths[s2] as nat;
    lemma_position_within_length(lengths, s1);
    lemma_position_within_length(lengths, s2);
    if l1 < l2 {
        lemma_symbols_monotone(lengths, l1 + 1, l2);
    } else if l2 < l1 {
        lemma_symbols_monotone(lengths, l2 + 1, l1);
    } else if s1 < s2 {
        lemma_rank_monotone(lengths, l1, s1, s2);
    } else if s2 < s1 {
        lemma_rank_monotone(lengths, l1, s2, s1);
    }
}

/// Below a symbol count with rank above `k` stands the symbol of rank `k`.
pub proof fn lemma_rank_witness(lengths: Seq<u8>, len: nat, k: nat, m: int) -> (s: int)
    requires
        0 <= m <= lengths.len(),
        k < rank(lengths, len, m),
    ensures
        0 <= s < m,
        lengths[s] as nat == len,
        rank(lengths, len, s) == k,
    decreases m,
{
    if lengths[m - 1] as nat == len && rank(lengths, len, m - 1) == k {
        m - 1
    } else {
        lemma_rank_witness(lengths, len, k, m - 1)
    }
}

/// The number of words that a code of `len` bits owns.
pub(crate) fn width_of(len: u32) -> (r: u32)
    requires
        len <= 15,
    ensures
        r == width(len as nat),
        1 <= r <= 32768,
{
    proof {
        lemma_pow2_pos((15 - len) as nat);
        lemma_pow2_monotone((15 - len) as nat, 15);
        lemma2_to64();
        assert(1 * pow2((15 - len) as nat) <= u32::MAX);
        lemma_u32_shl_is_mul(1, (15 - len) as u32);
    }
    1u32 << (15 - len)
}

/// Whether every length is a code length.
pub(crate) fn check_lengths(lengths: &[u8]) -> (r: bool)
    ensures
        r == lengths_in_range(lengths@),
{
    let mut i: usize = 0;
    while i < lengths.len()
        invariant
            i <= lengths.len(),
            forall|s: int| 0 <= s < i ==> #[trigger] lengths@[s] <= 15,
        decreases lengths.len() - i,
    {
        if lengths[i] > 15 {
            return false;
        }
        i = i + 1;
    }
    true
}

/// For each length from 0 to 15, the number of symbols of that length.
pub(crate) fn count_lengths(lengths: &[u8]) -> (counts: Vec<u32>)
    requires
        lengths@.len() <= 65536,
        lengths_in_range(lengths@),
    ensures
        counts@.len() == 16,
        forall|len: int| 0 <= len < 16 ==> #[trigger] counts@[len] == count(lengths@, len as nat),
{
    let mut counts: Vec<u32> = Vec::new();
    let mut k: usize = 0;
    while k < 16
        invariant
            k <= 16,
            counts@.len() == k,
            forall|len: int| 0 <= len < k ==> #[trigger] counts@[len] == 0,
        decreases 16 - k,
    {
        counts.push(0u32);
        k = k + 1;
    }
    let mut i: usize = 0;
    while i < lengths.len()
        invariant
            i <= lengths.len(),
            lengths@.len() <= 65536,
            lengths_in_range(lengths@),
            counts@.len() == 16,
            forall|len: int|
                0 <= len < 16 ==> #[trigger] counts@[len] == rank(lengths@, len as nat, i as int),
        decreases lengths.len() - i,
    {
        let len: usize = lengths[i] as usize;
        proof {
            lemma_rank_bound(lengths@, len as nat, i as int);
        }
        let c: u32 = counts[len];
        counts.set(len, c + 1);
        i = i + 1;
    }
    counts
}

/// For each length from 1 to 16, the number of words that the shorter
/// codes own; the last is the Kraft sum.
pub(crate) fn space_table(counts: &Vec<u32>, lengths: Ghost<Seq<u8>>) -> (start: Vec<u64>)
    requires
        lengths@.len() <= 65536,
        counts@.len() == 16,
        forall|len: int| 0 <= len < 16 ==> #[trigger] counts@[len] == count(lengths@, len as nat),
    ensures
        start@.len() == 17,
        forall|len: int| 1 <= len <= 16 ==> #[trigger] start@[len] == space_below(lengths@, len as nat),
        start@[16] == kraft_sum(lengths@),
{
    let mut start: Vec<u64> = Vec::new();
    start.push(0u64);
    start.push(0u64);
    let mut len: usize = 1;
    while len < 16
        invariant
            1 <= len <= 16,
            lengths@.len() <= 65536,
            counts@.len() == 16,
            forall|l: int| 0 <= l < 16 ==> #[trigger] counts@[l] == count(lengths@, l as nat),
            start@.len() == len + 1,
            forall|l: int| 1 <= l <= len ==> #[trigger] start@[l] == space_below(lengths@, l as nat),
            start@[len as int] <= (len - 1) * 0x8000_0000,
        decreases 16 - len,
    {
        let w: u64 = width_of(len as u32) as u64;
        let c: u64 = counts[len] as u64;
        proof {
            lemma_rank_bound(lengths@, len as nat, lengths@.len() as int);
            assert(c * w <= 0x8000_0000) by (nonlinear_arith)
                requires
                    c <= 65536,
                    w <= 32768,
            ;
            assert(c * w == count(lengths@, len as nat) * width(len as nat));
        }
        let next: u64 = start[len] + c * w;
        start.push(next);
        len = len + 1;
    }
    start
}

/// For each length from 1 to 16, the number of symbols with a shorter code.
pub(crate) fn offset_table(counts: &Vec<u32>, lengths: Ghost<Seq<u8>>) -> (offset: Vec<u32>)
    requires
        lengths@.len() <= 65536,
        counts@.len() == 16,
        forall|len: int| 0 <= len < 16 ==> #[trigger] counts@[len] == count(lengths@, len as nat),
    ensures
        offset@.len() == 17,
        forall|len: int|
            1 <= len <= 16 ==> #[trigger] offset@[len] == symbols_below(lengths@, len as nat),
{
    let mut offset: Vec<u32> = Vec::new();
    offset.push(0u32);
    offset.push(0u32);
    let mut len: usize = 1;
    while len < 16
        invariant
            1 <= len <= 16,
            lengths@.len() <= 65536,
            counts@.len() == 16,
            forall|l: int| 0 <= l < 16 ==> #[trigger] counts@[l] == count(lengths@, l as nat),
            offset@.len() == len + 1,
            forall|l: int|
                1 <= l <= len ==> #[trigger] offset@[l] == symbols_below(lengths@, l as nat),
            offset@[len as int] <= (len - 1) * 65536,
        decreases 16 - len,
    {
        proof {
            lemma_rank_bound(lengths@, len as nat, lengths@.len() as int);
        }
        let next: u32 = offset[len] + counts[len];
        offset.push(next);
        len = len + 1;
    }
    offset
}

/// The symbols that have a code, in canonical order.
pub(crate) fn sort_symbols(lengths: &[u8], offset: &Vec<u32>) -> (sorted: Vec<u16>)
    requires
        lengths@.len() <= 65536,
        lengths_in_range(lengths@),
        offset@.len() == 17,
        forall|len: int|
            1 <= len <= 16 ==> #[trigger] offset@[len] == symbols_below(lengths@, len as nat),
    ensures
        sorted@.len() == symbols_below(lengths@, 16),
        is_canonical_order(lengths@, sorted@, lengths@.len() as int),
{
    let total: usize = offset[16] as usize;
    let mut sorted: Vec<u16> = Vec::new();
    let mut k: usize = 0;
    while k < total
        invariant
            k <= total,
            sorted@.len() == k,
        decreases total - k,
    {
        sorted.push(0u16);
        k = k + 1;
    }
    let mut cursor: Vec<u32> = offset.clone();
    let mut s: usize = 0;
    while s < lengths.len()
        invariant
            s <= lengths.len(),
            lengths@.len() <= 65536,
            lengths_in_range(lengths@),
            offset@.len() == 17,
            forall|len: int|
                1 <= len <= 16 ==> #[trigger] offset@[len] == symbols_below(lengths@, len as nat),
            cursor@.len() == 17,
            forall|len: int|
                1 <= len <= 15 ==> #[trigger] cursor@[len] == symbols_below(lengths@, len as nat)
                    + rank(lengths@, len as nat, s as int),
            sorted@.len() == symbols_below(lengths@, 16),
            is_canonical_order(lengths@, sorted@, s as int),
        decreases lengths.len() - s,
    {
        let len: usize = lengths[s] as usize;
        if len != 0 {
            let pos: u32 = cursor[len];
            proof {
                lemma_position_within_length(lengths@, s as int);
                assert(pos == sorted_position(lengths@, s as int));
                assert forall|t: int| 0 <= t < s && 1 <= lengths@[t] <= 15 implies sorted_position(
                    lengths@,
                    t,
                ) != pos by {
                    if sorted_position(lengths@, t) == pos {
                        lemma_position_injective(lengths@, t, s as int);
                    }
                }
                lemma_symbols_bound(lengths@, 16);
            }
            sorted.set(pos as usize, s as u16);
            cursor.set(len, pos + 1);
        }
        s = s + 1;
    }
    sorted
}

/// The symbols of a code in canonical order, with what is needed to find
/// the owner of a word.
pub(crate) struct CodeIndex {
    /// For each length, the first word of its codes.
    pub start: Vec<u64>,
    /// For each length, the place of its first symbol in `sorted`.
    pub offset: Vec<u32>,
    /// The symbols in canonical order.
    pub sorted: Vec<u16>,
}

impl CodeIndex {
    /// The index is that of the complete code `lengths`.
    pub(crate) open spec fn describes(&self, lengths: Seq<u8>) -> bool {
        &&& lengths.len() <= 65536
        &&& lengths_in_range(lengths)
        &&& self.start@.len() == 17
        &&& forall|len: int|
            1 <= len <= 16 ==> #[trigger] self.start@[len] == space_below(lengths, len as nat)
        &&& self.start@[16] == code_space()
        &&& self.offset@.len() == 17
        &&& forall|len: int|
            1 <= len <= 16 ==> #[trigger] self.offset@[len] == symbols_below(lengths, len as nat)
        &&& self.sorted@.len() == symbols_below(lengths, 16)
        &&& is_canonical_order(lengths, self.sorted@, lengths.len() as int)
    }

    /// The symbol that owns the word `x`, and the length of its code.
    pub(crate) fn lookup(&self, x: u32, lengths: Ghost<Seq<u8>>) -> (r: (u16, u8))
        requires
            self.describes(lengths@),
            x < 32768,
        ensures
            covers(lengths@, r.0 as int, x as nat),
            r.1 == lengths@[r.0 as int],
            1 <= r.1 <= 15,
    {
        let mut len: usize = 1;
        while len < 15 && x as u64 >= self.start[len + 1]
            invariant
                1 <= len <= 15,
                self.describes(lengths@),
                x < 32768,
                self.start@[len as int] <= x,
            decreases 15 - len,
        {
            len = len + 1;
        }
        let first: u32 = self.start[len] as u32;
        let shift: u32 = 15 - len as u32;
        let k: u32 = (x - first) >> shift;
        let ghost w: nat = width(len as nat);
        let ghost s: int;
        proof {
            lemma_pow2_pos((15 - len) as nat);
            lemma_u32_shr_is_div((x - first) as u32, shift);
            lemma_fundamental_div_mod((x - first) as int, w as int);
            let c: nat = count(lengths@, len as nat);
            // the words of this length end where the next length starts
            assert(space_below(lengths@, (len + 1) as nat) == space_below(lengths@, len as nat) + c
                * w);
            assert(self.start@[len + 1] == space_below(lengths@, (len + 1) as nat));
            assert(k < c) by (nonlinear_arith)
                requires
                    x - first < c * w,
                    x - first == w * k + ((x - first) as int % (w as int)),
                    0 <= (x - first) as int % (w as int),
                    w > 0,
            ;
            s = lemma_rank_witness(lengths@, len as nat, k as nat, lengths@.len() as int);
            assert(sorted_position(lengths@, s) == self.offset@[len as int] + k);
            lemma_position_within_length(lengths@, s);
            lemma_symbols_bound(lengths@, 16);
            assert(w * k == k * w) by (nonlinear_arith);
        }
        let sym: u16 = self.sorted[(self.offset[len] + k) as usize];
        (sym, len as u8)
    }
}

} // verus!
