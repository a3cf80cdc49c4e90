//! Taking a table from its slots, as a stored table comes: the slots are
//! checked against the table's invariant before they are trusted.

use vstd::prelude::*;
use vstd::arithmetic::power2::{pow2, lemma_pow2_pos, lemma2_to64};
use crate::arith::{lemma_pow2_monotone, shift_up};
use crate::huffman::{HuffmanCode, HuffmanTable, TableModel, HUFFMAN_MAX_CODE_LENGTH};

verus! {

/// Whether the slot at `at` stands at every index of the table of `size`
/// slots that starts at `base` and agrees with `at` on its low `bits` bits.
fn check_replicated(codes: &Vec<HuffmanCode>, base: usize, size: usize, at: usize, bits: u32) -> (r:
    bool)
    requires
        base + size <= codes@.len(),
        at < size,
        bits <= 15,
        size <= 0x8000,
    ensures
        r == (forall|k: int|
            0 <= k < size && k % (pow2(bits as nat) as int) == (at as int) % (pow2(
                bits as nat,
            ) as int) ==> #[trigger] codes@[base + k] == codes@[base + at]),
{
    proof {
        lemma_pow2_pos(bits as nat);
        lemma_pow2_monotone(bits as nat, 15);
        lemma2_to64();
    }
    let len: usize = codes.len();
    let step: usize = shift_up(1, bits) as usize;
    let want: usize = at % step;
    let e: HuffmanCode = codes[base + at];
    let mut k: usize = 0;
    while k < size
        invariant
            k <= size,
            base + size <= codes@.len(),
            len == codes@.len(),
            at < size,
            step == pow2(bits as nat),
            step > 0,
            want == at % step,
            e == codes@[base + at],
            forall|i: int|
                0 <= i < k && i % (step as int) == (at as int) % (step as int)
                    ==> #[trigger] codes@[base + i] == e,
        decreases size - k,
    {
        if k % step == want {
            let c: HuffmanCode = codes[base + k];
            if c.value != e.value || c.bits != e.bits {
                assert(codes@[base + k] != codes@[base + at]);
                return false;
            }
        }
        k = k + 1;
    }
    true
}

/// Whether the second-level table at `base`, indexed by `width` bits, is
/// as `TableModel::sub_table_ok` says.
fn check_sub_table(codes: &Vec<HuffmanCode>, base: usize, width: u32) -> (r: bool)
    requires
        1 <= width <= 14,
        base < 0x20000,
    ensures
        r == (TableModel { entries: codes@, root_bits: 1 }).sub_table_ok(
            base as int,
            width as nat,
        ),
{
    proof {
        lemma_pow2_pos(width as nat);
        lemma_pow2_monotone(width as nat, 14);
        lemma2_to64();
    }
    let ghost t: TableModel = TableModel { entries: codes@, root_bits: 1 };
    let size: usize = shift_up(1, width) as usize;
    if base > codes.len() || size > codes.len() - base {
        return false;
    }
    let len: usize = codes.len();
    let mut q: usize = 0;
    while q < size
        invariant
            q <= size,
            len == codes@.len(),
            size == pow2(width as nat),
            size <= 0x4000,
            1 <= width <= 14,
            base + size <= codes@.len(),
            forall|i: int|
                0 <= i < q ==> {
                    let s = #[trigger] codes@[base + i];
                    &&& 1 <= s.bits <= width
                    &&& forall|k: int|
                        0 <= k < pow2(width as nat) && k % (pow2(s.bits as nat) as int) == i % (
                        pow2(s.bits as nat) as int) ==> #[trigger] codes@[base + k] == s
                },
        decreases size - q,
    {
        let s: HuffmanCode = codes[base + q];
        if s.bits < 1 || s.bits as u32 > width {
            assert(!(1 <= codes@[base + q].bits <= width));
            return false;
        }
        if !check_replicated(codes, base, size, q, s.bits as u32) {
            return false;
        }
        q = q + 1;
    }
    true
}

/// Whether the root slot `idx` is as `TableModel::root_slot_ok` says.
fn check_root_slot(codes: &Vec<HuffmanCode>, root_bits: u32, idx: usize) -> (r: bool)
    requires
        1 <= root_bits <= 8,
        pow2(root_bits as nat) <= codes@.len(),
        idx < pow2(root_bits as nat),
    ensures
        r == (TableModel { entries: codes@, root_bits: root_bits as nat }).root_slot_ok(idx as int),
{
    proof {
        lemma_pow2_monotone(root_bits as nat, 8);
        lemma2_to64();
    }
    let ghost t: TableModel = TableModel { entries: codes@, root_bits: root_bits as nat };
    let ghost t1: TableModel = TableModel { entries: codes@, root_bits: 1 };
    let e: HuffmanCode = codes[idx];
    if e.bits as u32 <= root_bits {
        let root_size: usize = shift_up(1, root_bits) as usize;
        let same: bool = check_replicated(codes, 0, root_size, idx, e.bits as u32);
        proof {
            let m: int = pow2(e.bits as nat) as int;
            if same {
                assert forall|j: int|
                    0 <= j < pow2(root_bits as nat) && j % m == (idx as int) % m implies #[trigger] codes@[j]
                    == e by {
                    assert(codes@[0 + j] == codes@[0 + idx]);
                }
            } else {
                let j: int = choose|j: int|
                    0 <= j < root_size && j % m == (idx as int) % m && #[trigger] codes@[0 + j]
                        != codes@[0 + idx];
                assert(codes@[j] != e);
            }
        }
        return same;
    }
    if e.bits as u32 > HUFFMAN_MAX_CODE_LENGTH {
        return false;
    }
    let ok: bool = check_sub_table(codes, idx + e.value as usize, e.bits as u32 - root_bits);
    proof {
        assert(t1.sub_table_ok(idx + e.value, (e.bits - root_bits) as nat) == t.sub_table_ok(
            idx + e.value,
            (e.bits - root_bits) as nat,
        ));
    }
    ok
}

impl HuffmanTable {
    /// The table with the slots `codes` and a root table of `root_bits`
    /// bits, if the slots make a table: `None` where they break the
    /// table's invariant.
    pub fn from_codes(codes: Vec<HuffmanCode>, root_bits: u8) -> (r: Option<HuffmanTable>)
        ensures
            r is Some <==> (TableModel { entries: codes@, root_bits: root_bits as nat }).wf(),
            r is Some ==> r->0@ == (TableModel { entries: codes@, root_bits: root_bits as nat }),
    {
        let ghost t: TableModel = TableModel { entries: codes@, root_bits: root_bits as nat };
        if root_bits < 1 || root_bits > 8 {
            return None;
        }
        proof {
            lemma_pow2_monotone(root_bits as nat, 8);
            lemma2_to64();
        }
        let root_size: usize = shift_up(1, root_bits as u32) as usize;
        if codes.len() < root_size {
            return None;
        }
        let mut idx: usize = 0;
        while idx < root_size
            invariant
                idx <= root_size,
                root_size == pow2(root_bits as nat),
                1 <= root_bits <= 8,
                root_size <= codes@.len(),
                t == (TableModel { entries: codes@, root_bits: root_bits as nat }),
                forall|i: int| 0 <= i < idx ==> #[trigger] t.root_slot_ok(i),
            decreases root_size - idx,
        {
            if !check_root_slot(&codes, root_bits as u32, idx) {
                assert(!t.root_slot_ok(idx as int));
                return None;
            }
            idx = idx + 1;
        }
        Some(HuffmanTable::from_parts(codes, root_bits))
    }
}

} // verus!
