//! Two-level lookup tables for canonical Huffman codes.
//!
//! A table has `2^root_bits` root slots, indexed by the next `root_bits`
//! bits of the stream, followed by an overflow region for the codes that are
//! longer than `root_bits`.

use vstd::prelude::*;
use vstd::arithmetic::power2::{pow2, lemma2_to64};
use crate::arith::{
    high_bits, low_bits, lemma_mod_div_pow2, lemma_mod_pow2_twice, lemma_pow2_monotone,
};

pub mod builder;
pub mod canonical;
pub mod histogram;
pub mod index;
pub mod layout;
pub mod reverse;
pub mod soundness;
pub mod validate;

verus! {

/// Width of the root table used by the symbol decoders.
pub const HUFFMAN_TABLE_BITS: u32 = 8;

/// Mask of the bits that index the root table.
pub const HUFFMAN_TABLE_MASK: u32 = 0xff;

/// Longest code that a table can hold.
pub const HUFFMAN_MAX_CODE_LENGTH: u32 = 15;

/// One slot of a lookup table.
///
/// In a root slot, `bits` up to the root width marks a leaf: `value` is the
/// symbol and `bits` the length of its code. A larger `bits` marks an
/// indirection: `value` plus the slot's own index is where the slot's
/// second-level table starts, and `bits` less the root width is how many
/// further bits index it. A second-level slot is always a leaf, and its
/// `bits` counts the bits after the root width.
#[derive(Clone, Copy, Debug, PartialEq, Eq, Structural)]
pub struct HuffmanCode {
    pub value: u16,
    pub bits: u8,
}

impl HuffmanCode {
    /// The slot as one 32-bit word: the value in the low half, the bit count
    /// in the high half.
    pub open spec fn packed(self) -> nat {
        self.value as nat + 65536 * self.bits as nat
    }

    /// Packs the slot into one 32-bit word.
    pub fn to_packed(&self) -> (r: u32)
        ensures
            r == self.packed(),
    {
        let hi: u32 = self.bits as u32;
        let lo: u32 = self.value as u32;
        hi * 65536 + lo
    }

    /// Unpacks a slot from a 32-bit word; `None` when the high half is not
    /// a bit count, that is above 15.
    pub fn from_packed(word: u32) -> (r: Option<HuffmanCode>)
        ensures
            r is Some <==> word < 0x10_0000,
            r is Some ==> r->0.packed() == word,
    {
        if word >= 0x10_0000 {
            return None;
        }
        let hi: u32 = word / 65536;
        let lo: u32 = word % 65536;
        Some(HuffmanCode { value: lo as u16, bits: hi as u8 })
    }
}

impl Default for HuffmanCode {
    fn default() -> (r: HuffmanCode)
        ensures
            r == (HuffmanCode { value: 0, bits: 0 }),
    {
        HuffmanCode { value: 0, bits: 0 }
    }
}

/// A symbol and the number of stream bits that its code took.
pub struct Decoded {
    pub value: u16,
    pub nbits: nat,
}

/// A lookup table as plain values.
pub struct TableModel {
    pub entries: Seq<HuffmanCode>,
    pub root_bits: nat,
}

impl TableModel {
    /// The second-level table that starts at `base` and is indexed by `width`
    /// bits holds leaves only, each at every index that agrees with it on the
    /// bits of its code.
    pub open spec fn sub_table_ok(self, base: int, width: nat) -> bool {
        &&& 0 <= base
        &&& base + pow2(width) <= self.entries.len()
        &&& forall|q: int|
            0 <= q < pow2(width) ==> {
                let s = #[trigger] self.entries[base + q];
                &&& 1 <= s.bits <= width
                &&& forall|k: int|
                    0 <= k < pow2(width) && k % (pow2(s.bits as nat) as int) == q % (pow2(
                        s.bits as nat,
                    ) as int) ==> #[trigger] self.entries[base + k] == s
            }
    }

    /// The root slot `idx` is a leaf that stands at every root index that
    /// agrees with it on the bits of its code, or an indirection to a
    /// second-level table that lies within the table.
    pub open spec fn root_slot_ok(self, idx: int) -> bool {
        let e = self.entries[idx];
        if e.bits <= self.root_bits {
            forall|j: int|
                0 <= j < pow2(self.root_bits) && j % (pow2(e.bits as nat) as int) == idx % (pow2(
                    e.bits as nat,
                ) as int) ==> #[trigger] self.entries[j] == e
        } else {
            &&& e.bits <= HUFFMAN_MAX_CODE_LENGTH
            &&& self.sub_table_ok(idx + e.value, (e.bits - self.root_bits) as nat)
        }
    }

    /// The table's invariant: every root slot is populated as
    /// `root_slot_ok` says.
    pub open spec fn wf(self) -> bool {
        &&& 1 <= self.root_bits <= 8
        &&& pow2(self.root_bits) <= self.entries.len()
        &&& forall|idx: int| 0 <= idx < pow2(self.root_bits) ==> #[trigger] self.root_slot_ok(idx)
    }

    /// The two-level lookup. `v` holds the next bits of the stream, lowest
    /// first, with zeros beyond the `avail` bits that the stream has.
    /// `None` when the code of the next symbol is longer than `avail`.
    pub open spec fn decode(self, v: nat, avail: nat) -> Option<Decoded> {
        let idx = v % pow2(self.root_bits);
        let e = self.entries[idx as int];
        if e.bits <= self.root_bits {
            if e.bits <= avail {
                Some(Decoded { value: e.value, nbits: e.bits as nat })
            } else {
                None
            }
        } else if avail <= self.root_bits {
            None
        } else {
            let q = (v / pow2(self.root_bits)) % pow2((e.bits - self.root_bits) as nat);
            let s = self.entries[idx + e.value + q];
            if self.root_bits + s.bits <= avail {
                Some(Decoded { value: s.value, nbits: self.root_bits + s.bits as nat })
            } else {
                None
            }
        }
    }
}

/// With the whole lookahead in the stream every lookup finds a symbol, and
/// the same one however many more bits the stream holds.
pub proof fn lemma_decode_full_lookahead(t: TableModel, v: nat, a1: nat, a2: nat)
    requires
        t.wf(),
        a1 >= HUFFMAN_MAX_CODE_LENGTH,
        a2 >= HUFFMAN_MAX_CODE_LENGTH,
    ensures
        t.decode(v, a1) is Some,
        t.decode(v, a1) == t.decode(v, a2),
        t.decode(v, a1)->0.nbits <= HUFFMAN_MAX_CODE_LENGTH,
{
    let idx: nat = v % pow2(t.root_bits);
    lemma_mod_pow2_twice(v, t.root_bits, t.root_bits);
    assert(0 <= idx < pow2(t.root_bits));
    assert(t.root_slot_ok(idx as int));
    let e: HuffmanCode = t.entries[idx as int];
    if e.bits > t.root_bits {
        let width: nat = (e.bits - t.root_bits) as nat;
        let q: nat = (v / pow2(t.root_bits)) % pow2(width);
        lemma_mod_div_pow2(v, t.root_bits, width);
        assert(0 <= q < pow2(width));
        assert(t.sub_table_ok(idx + e.value, width));
        let s: HuffmanCode = t.entries[idx + e.value + q];
        assert(s.bits <= width);
    }
}

/// Why a list of code lengths has no table.
#[derive(Clone, Copy, Debug, PartialEq, Eq, Structural)]
pub enum HuffmanTableError {
    /// More symbols than a slot's 16-bit value can name.
    TooManySymbols,
    /// A length above 15.
    LengthTooLong,
    /// No symbol has a code.
    NoSymbol,
    /// The codes need more than the code space holds.
    OverSubscribed,
    /// The codes leave a part of the code space unused.
    UnderSubscribed,
}

/// A lookup table.
pub struct HuffmanTable {
    codes: Vec<HuffmanCode>,
    root_bits: u8,
}

impl View for HuffmanTable {
    type V = TableModel;

    closed spec fn view(&self) -> TableModel {
        TableModel { entries: self.codes@, root_bits: self.root_bits as nat }
    }
}

impl HuffmanTable {
    /// The table's invariant.
    pub open spec fn wf(&self) -> bool {
        self@.wf()
    }

    /// A table of the given slots.
    pub(crate) fn from_parts(codes: Vec<HuffmanCode>, root_bits: u8) -> (t: HuffmanTable)
        ensures
            t@ == (TableModel { entries: codes@, root_bits: root_bits as nat }),
    {
        HuffmanTable { codes, root_bits }
    }

    /// Width of the root table in bits.
    pub fn root_bits(&self) -> (r: u8)
        ensures
            r == self@.root_bits,
    {
        self.root_bits
    }

    /// Number of slots, root and overflow together.
    pub fn len(&self) -> (r: usize)
        ensures
            r == self@.entries.len(),
    {
        self.codes.len()
    }

    /// The slots, root table first.
    pub fn codes(&self) -> (r: &[HuffmanCode])
        ensures
            r@ == self@.entries,
    {
        self.codes.as_slice()
    }

    /// The two-level lookup of `TableModel::decode` on the low 15 bits `v`
    /// of a stream that holds `avail` bits.
    pub fn lookup(&self, v: u32, avail: u32) -> (r: Option<(u16, u32)>)
        requires
            self.wf(),
            v < 0x8000,
        ensures
            match self@.decode(v as nat, avail as nat) {
                Some(d) => r == Some((d.value, d.nbits as u32)) && d.nbits <= avail && d.nbits
                    <= HUFFMAN_MAX_CODE_LENGTH,
                None => r is None,
            },
    {
        let r: u32 = self.root_bits as u32;
        let idx: u32 = low_bits(v, r);
        proof {
            lemma_pow2_monotone(r as nat, 8);
            lemma2_to64();
            assert(self@.root_slot_ok(idx as int));
        }
        let e: HuffmanCode = self.codes[idx as usize];
        if e.bits as u32 <= r {
            if e.bits as u32 <= avail {
                return Some((e.value, e.bits as u32));
            }
            return None;
        }
        if avail <= r {
            return None;
        }
        let width: u32 = e.bits as u32 - r;
        let q: u32 = low_bits(high_bits(v, r), width);
        proof {
            lemma_pow2_monotone(width as nat, 14);
            assert(q < 16384);
        }
        let at: usize = idx as usize + e.value as usize + q as usize;
        let s: HuffmanCode = self.codes[at];
        if r + s.bits as u32 <= avail {
            return Some((s.value, r + s.bits as u32));
        }
        None
    }
}

} // verus!
