//! Decoding undoes encoding: the symbols whose canonical codes were written
//! to a stream, one after the other, are the symbols that come out of it.

use vstd::prelude::*;
use vstd::arithmetic::power2::{pow2, lemma_pow2_pos, lemma2_to64};
use crate::arith::{lemma_div_of_sum, lemma_mod_pow2_small, lemma_pow2_split};
use crate::huffman::{Decoded, HuffmanCode, TableModel};
use crate::huffman::builder::{decodes_canonically, is_table_for};
use crate::huffman::canonical::{
    code, is_complete, used, width, lemma_code_within_length, lemma_covers_is_block,
    lemma_covers_is_code, lemma_covers_unique, lemma_space_monotone,
};
use crate::huffman::reverse::{rev_bits, lemma_rev_bound, lemma_rev_involution};
use crate::bit_reader::ReaderState;
use crate::entropy::chunking::{
    decode_run, symbols_from, lemma_decode_reads_lookahead, lemma_symbols_from_is_decode_run,
};
use crate::entropy::interface::lookahead;

verus! {

/// The code of symbol `s` as it stands in the stream: first bit lowest.
pub open spec fn stream_code(lengths: Seq<u8>, s: int) -> nat {
    rev_bits(code(lengths, s), lengths[s] as nat)
}

/// Every symbol of `symbols` has a code.
pub open spec fn all_coded(lengths: Seq<u8>, symbols: Seq<u16>) -> bool {
    forall|i: int|
        0 <= i < symbols.len() ==> (#[trigger] symbols[i] as int) < lengths.len() && 1
            <= lengths[symbols[i] as int] <= 15
}

/// Number of bits of the codes of `symbols`.
pub open spec fn encoded_len(lengths: Seq<u8>, symbols: Seq<u16>) -> nat
    decreases symbols.len(),
{
    if symbols.len() == 0 {
        0
    } else {
        lengths[symbols[0] as int] as nat + encoded_len(lengths, symbols.drop_first())
    }
}

/// The stream made of the codes of `symbols`, then of `tail`.
pub open spec fn encoded(lengths: Seq<u8>, symbols: Seq<u16>, tail: nat) -> nat
    decreases symbols.len(),
{
    if symbols.len() == 0 {
        tail
    } else {
        stream_code(lengths, symbols[0] as int) + pow2(lengths[symbols[0] as int] as nat) * encoded(
            lengths,
            symbols.drop_first(),
            tail,
        )
    }
}

/// The code of a symbol of a complete code fits its length.
pub proof fn lemma_code_bound(lengths: Seq<u8>, s: int)
    requires
        is_complete(lengths),
        0 <= s < lengths.len(),
        1 <= lengths[s] <= 15,
    ensures
        code(lengths, s) < pow2(lengths[s] as nat),
        stream_code(lengths, s) < pow2(lengths[s] as nat),
{
    let len: nat = lengths[s] as nat;
    lemma_code_within_length(lengths, s);
    lemma_space_monotone(lengths, len + 1, 16);
    lemma_covers_is_block(lengths, s, 0);
    lemma_pow2_split(len, (15 - len) as nat);
    lemma2_to64();
    let c: nat = code(lengths, s);
    let w: nat = width(len);
    assert(c < pow2(len)) by (nonlinear_arith)
        requires
            c * w + w <= pow2(len) * w,
            w > 0,
    ;
    lemma_rev_bound(c, len);
}

/// A lookup in the table of a code finds the symbol whose code the stream
/// starts with, once the stream holds the whole code.
pub proof fn lemma_decodes_code(
    t: TableModel,
    lengths: Seq<u8>,
    r: nat,
    s: int,
    v: nat,
    avail: nat,
)
    requires
        is_complete(lengths),
        used(lengths) != 1,
        is_table_for(t, lengths, r),
        0 <= s < lengths.len(),
        1 <= lengths[s] <= 15,
        v % pow2(lengths[s] as nat) == stream_code(lengths, s),
        avail >= lengths[s],
    ensures
        t.decode(v, avail) == Some(Decoded { value: s as u16, nbits: lengths[s] as nat }),
{
    let len: nat = lengths[s] as nat;
    let low: nat = v % pow2(15);
    lemma2_to64();
    lemma_code_bound(lengths, s);
    lemma_rev_involution(code(lengths, s), len);
    // the stream starts with the code of s, so s owns the word it makes
    crate::arith::lemma_mod_pow2_twice(v, len, 15);
    lemma_covers_is_code(lengths, s, low);
    let d: Decoded = t.decode(low, 15)->0;
    assert(decodes_canonically(t, lengths));
    assert(t.decode(low, 15) is Some);
    lemma_covers_unique(lengths, s, d.value as int, rev_bits(low, 15));
    // the lookup asks for no more bits than the code has
    lemma_decode_reads_lookahead(t, v, avail);
    lemma_decode_reads_lookahead(t, low, 15);
    crate::arith::lemma_mod_pow2_twice(low, 15, 15);
    lemma_lookup_needs_code_only(t, low, 15, avail);
}

/// What a lookup finds with the whole lookahead, it finds as soon as the
/// stream holds the bits of the code it found.
pub proof fn lemma_lookup_needs_code_only(t: TableModel, v: nat, a1: nat, a2: nat)
    requires
        t.wf(),
        t.decode(v, a1) is Some,
        t.decode(v, a1)->0.nbits <= a2,
    ensures
        t.decode(v, a2) == t.decode(v, a1),
{
    let idx: nat = v % pow2(t.root_bits);
    crate::arith::lemma_mod_pow2_twice(v, t.root_bits, t.root_bits);
    assert(t.root_slot_ok(idx as int));
    let e: HuffmanCode = t.entries[idx as int];
    if e.bits > t.root_bits {
        let w: nat = (e.bits - t.root_bits) as nat;
        crate::arith::lemma_mod_div_pow2(v, t.root_bits, w);
        let q: nat = (v / pow2(t.root_bits)) % pow2(w);
        assert(t.sub_table_ok(idx + e.value, w));
        assert(t.entries[idx + e.value + q].bits >= 1);
    }
}

/// Decoding undoes encoding. From the stream made of the codes of
/// `symbols` and whatever follows them, the table of the code decodes
/// `symbols`, one for each code.
pub proof fn lemma_decode_undoes_encode(
    t: TableModel,
    lengths: Seq<u8>,
    r: nat,
    symbols: Seq<u16>,
    tail: nat,
    tail_len: nat,
)
    requires
        is_complete(lengths),
        used(lengths) != 1,
        is_table_for(t, lengths, r),
        all_coded(lengths, symbols),
    ensures
        decode_run(
            t,
            encoded(lengths, symbols, tail),
            encoded_len(lengths, symbols) + tail_len,
            symbols.len(),
        ) == Some(symbols),
    decreases symbols.len(),
{
    if symbols.len() == 0 {
        assert(symbols =~= Seq::<u16>::empty());
    } else {
        let s: int = symbols[0] as int;
        let len: nat = lengths[s] as nat;
        let rest: Seq<u16> = symbols.drop_first();
        let v: nat = encoded(lengths, symbols, tail);
        let after: nat = encoded(lengths, rest, tail);
        let total: nat = encoded_len(lengths, symbols) + tail_len;
        assert(all_coded(lengths, rest)) by {
            assert forall|i: int| 0 <= i < rest.len() implies (#[trigger] rest[i] as int)
                < lengths.len() && 1 <= lengths[rest[i] as int] <= 15 by {
                assert(rest[i] == symbols[i + 1]);
            }
        }
        lemma_code_bound(lengths, s);
        lemma_pow2_pos(len);
        // the first code is the low bits of the stream, the rest lies above it
        lemma_div_of_sum(stream_code(lengths, s), after, len, len);
        lemma_mod_pow2_small(stream_code(lengths, s), len);
        lemma2_to64();
        let c: nat = stream_code(lengths, s);
        crate::arith::lemma_div_pow2_bound(c, len, len);
        assert(c / pow2(len) == 0);
        assert(v == c + pow2(len) * after);
        assert(pow2((len - len) as nat) * after == after) by (nonlinear_arith)
            requires
                pow2((len - len) as nat) == 1,
        ;
        assert(v / pow2(len) == after);
        lemma_decodes_code(t, lengths, r, s, v, total);
        lemma_decode_reads_lookahead(t, v, total);
        lemma_decode_undoes_encode(t, lengths, r, rest, tail, tail_len);
        assert(decode_run(t, v, total, symbols.len()) == Some(seq![symbols[0]] + rest));
        assert(seq![symbols[0]] + rest =~= symbols);
    }
}

/// A reader whose unread stream is the codes of `symbols`, and whatever
/// follows them, decodes `symbols`.
pub proof fn lemma_reader_decodes_encoding(
    s: ReaderState,
    input: Seq<u8>,
    t: TableModel,
    lengths: Seq<u8>,
    r: nat,
    symbols: Seq<u16>,
    tail: nat,
    tail_len: nat,
)
    requires
        s.wf(),
        s.fits(input),
        is_complete(lengths),
        used(lengths) != 1,
        is_table_for(t, lengths, r),
        all_coded(lengths, symbols),
        s.stream_value(input) == encoded(lengths, symbols, tail),
        s.stream_len(input) == encoded_len(lengths, symbols) + tail_len,
    ensures
        symbols_from(s, t, input, symbols.len()) == Some(symbols),
{
    lemma_symbols_from_is_decode_run(s, t, input, symbols.len());
    lemma_decode_undoes_encode(t, lengths, r, symbols, tail, tail_len);
}

} // verus!
