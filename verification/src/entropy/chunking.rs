//! Decoding does not depend on how the input was cut into pieces: whatever
//! is decoded from the part of the stream that has arrived is what is
//! decoded from the whole stream.

use vstd::prelude::*;
use vstd::arithmetic::power2::pow2;
use crate::arith::{
    lemma_div_pow2_bound, lemma_mod_div_pow2, lemma_mod_pow2_small, lemma_mod_pow2_twice,
    lemma_pow2_split,
};
use crate::bit_reader::{
    ReaderState, le_value, lemma_drop_advances_stream, lemma_fill_keeps_stream, lemma_stream_bound,
};
use crate::huffman::{Decoded, HuffmanCode, TableModel};
use crate::entropy::interface::{lookahead, reader_after_symbol, symbol_outcome};

verus! {

/// The stream of `len1` bits with value `value1` is the start of the stream
/// of `len2` bits with value `value2`.
pub open spec fn is_stream_prefix(value1: nat, len1: nat, value2: nat, len2: nat) -> bool {
    &&& len1 <= len2
    &&& value1 < pow2(len1)
    &&& value2 % pow2(len1) == value1
}

/// The first `n` symbols of the stream of `len` bits with value `value`, or
/// `None` when the stream ends before the `n`-th symbol does.
pub open spec fn decode_run(table: TableModel, value: nat, len: nat, n: nat) -> Option<Seq<u16>>
    decreases n,
{
    if n == 0 {
        Some(Seq::empty())
    } else {
        match table.decode(value % pow2(lookahead()), len) {
            None => None,
            Some(d) => match decode_run(
                table,
                value / pow2(d.nbits),
                (len - d.nbits) as nat,
                (n - 1) as nat,
            ) {
                None => None,
                Some(rest) => Some(seq![d.value] + rest),
            },
        }
    }
}

/// A lookup reads no bit beyond the lookahead.
pub proof fn lemma_decode_reads_lookahead(t: TableModel, v: nat, avail: nat)
    requires
        t.wf(),
    ensures
        t.decode(v % pow2(lookahead()), avail) == t.decode(v, avail),
{
    let r: nat = t.root_bits;
    let w: nat = v % pow2(15);
    lemma_mod_pow2_twice(v, r, 15);
    let idx: nat = v % pow2(r);
    assert(w % pow2(r) == idx);
    assert(t.root_slot_ok(idx as int));
    let e: HuffmanCode = t.entries[idx as int];
    if e.bits > r {
        let width: nat = (e.bits - r) as nat;
        // the bits r .. r + width of v and of w are the same
        lemma_mod_div_pow2(v, r, width);
        lemma_mod_div_pow2(w, r, width);
        lemma_mod_pow2_twice(v, r + width, 15);
    }
}

/// What a lookup finds in a stream, it finds in every longer stream that
/// starts with it; and what is left of the shorter stream is the start of
/// what is left of the longer.
pub proof fn lemma_decode_prefix(t: TableModel, value1: nat, len1: nat, value2: nat, len2: nat)
    requires
        t.wf(),
        is_stream_prefix(value1, len1, value2, len2),
        t.decode(value1, len1) is Some,
    ensures
        t.decode(value2, len2) == t.decode(value1, len1),
        t.decode(value1, len1)->0.nbits <= len1,
        is_stream_prefix(
            value1 / pow2(t.decode(value1, len1)->0.nbits),
            (len1 - t.decode(value1, len1)->0.nbits) as nat,
            value2 / pow2(t.decode(value1, len1)->0.nbits),
            (len2 - t.decode(value1, len1)->0.nbits) as nat,
        ),
{
    let r: nat = t.root_bits;
    let idx1: nat = value1 % pow2(r);
    let idx2: nat = value2 % pow2(r);
    lemma_mod_pow2_twice(value1, r, r);
    lemma_mod_pow2_twice(value2, r, r);
    assert(t.root_slot_ok(idx1 as int));
    assert(t.root_slot_ok(idx2 as int));
    let e: HuffmanCode = t.entries[idx1 as int];
    let d: Decoded = t.decode(value1, len1)->0;
    let k: nat = d.nbits;
    if e.bits <= r {
        let b: nat = e.bits as nat;
        assert(k == b);
        // both indexes agree on their low b bits
        lemma_mod_pow2_twice(value1, b, r);
        lemma_mod_pow2_twice(value2, b, r);
        lemma_mod_pow2_twice(value2, b, len1);
        assert(idx2 % pow2(b) == idx1 % pow2(b));
        assert(t.entries[idx2 as int] == e);
    } else {
        let width: nat = (e.bits - r) as nat;
        lemma_mod_pow2_twice(value2, r, len1);
        assert(idx2 == idx1);
        let base: int = idx1 + e.value;
        assert(t.sub_table_ok(base, width));
        let q1: nat = (value1 / pow2(r)) % pow2(width);
        let q2: nat = (value2 / pow2(r)) % pow2(width);
        lemma_mod_div_pow2(value1, r, width);
        lemma_mod_div_pow2(value2, r, width);
        let s: HuffmanCode = t.entries[base + q1];
        let sb: nat = s.bits as nat;
        assert(k == r + sb);
        // q1 and q2 agree on their low sb bits
        lemma_mod_pow2_twice(value1 / pow2(r), sb, width);
        lemma_mod_pow2_twice(value2 / pow2(r), sb, width);
        lemma_mod_div_pow2(value1, r, sb);
        lemma_mod_div_pow2(value2, r, sb);
        lemma_mod_pow2_twice(value2, r + sb, len1);
        assert(q2 % pow2(sb) == q1 % pow2(sb));
        assert(t.entries[base + q2] == s);
    }
    // what is left
    lemma_mod_div_pow2(value2, k, (len1 - k) as nat);
    lemma_div_pow2_bound(value1, len1, k);
}

/// The symbols decoded from a stream are the symbols decoded from every
/// longer stream that starts with it.
pub proof fn lemma_decode_run_prefix(
    t: TableModel,
    value1: nat,
    len1: nat,
    value2: nat,
    len2: nat,
    n: nat,
)
    requires
        t.wf(),
        is_stream_prefix(value1, len1, value2, len2),
        decode_run(t, value1, len1, n) is Some,
    ensures
        decode_run(t, value2, len2, n) == decode_run(t, value1, len1, n),
    decreases n,
{
    if n > 0 {
        lemma_decode_reads_lookahead(t, value1, len1);
        lemma_decode_reads_lookahead(t, value2, len2);
        lemma_decode_prefix(t, value1, len1, value2, len2);
        let k: nat = t.decode(value1, len1)->0.nbits;
        vstd::arithmetic::power2::lemma_pow2_pos(k);
        lemma_decode_run_prefix(
            t,
            value1 / pow2(k),
            (len1 - k) as nat,
            value2 / pow2(k),
            (len2 - k) as nat,
            (n - 1) as nat,
        );
    }
}

/// The unread stream of a reader that stands on `input` is the start of its
/// unread stream on `input` followed by `more`.
pub proof fn lemma_more_input_extends_stream(s: ReaderState, input: Seq<u8>, more: Seq<u8>)
    requires
        s.wf(),
        s.fits(input),
    ensures
        is_stream_prefix(
            s.stream_value(input),
            s.stream_len(input),
            s.stream_value(input + more),
            s.stream_len(input + more),
        ),
    decreases input.len() - s.cursor,
{
    lemma_stream_bound(s, input);
    let whole: Seq<u8> = input + more;
    if s.cursor == input.len() {
        assert(input.skip(s.cursor as int).len() == 0);
        assert(s.stream_value(input) == s.bits) by (nonlinear_arith)
            requires
                s.stream_value(input) == s.bits + pow2(s.count) * 0,
        ;
        crate::arith::lemma_div_of_sum(s.bits, le_value(whole.skip(s.cursor as int)), s.count, s.count);
        lemma_mod_pow2_small(s.bits, s.count);
    } else {
        let next: ReaderState = ReaderState { bits: 0, count: 0, cursor: s.cursor + 1 };
        vstd::arithmetic::power2::lemma2_to64();
        lemma_more_input_extends_stream(next, input, more);
        let b: nat = input[s.cursor as int] as nat;
        let t1: nat = le_value(input.skip(s.cursor as int + 1));
        let t2: nat = le_value(whole.skip(s.cursor as int + 1));
        assert(input.skip(s.cursor as int).drop_first() =~= input.skip(s.cursor as int + 1));
        assert(whole.skip(s.cursor as int).drop_first() =~= whole.skip(s.cursor as int + 1));
        assert(whole[s.cursor as int] == input[s.cursor as int]);
        assert(le_value(input.skip(s.cursor as int)) == b + 256 * t1);
        assert(le_value(whole.skip(s.cursor as int)) == b + 256 * t2);
        let m: nat = (8 * (input.len() - s.cursor - 1)) as nat;
        assert(next.stream_value(input) == t1) by (nonlinear_arith)
            requires
                next.stream_value(input) == 0 + 1 * t1,
        ;
        assert(next.stream_value(whole) == t2) by (nonlinear_arith)
            requires
                next.stream_value(whole) == 0 + 1 * t2,
        ;
        assert(next.stream_len(input) == m);
        // t2 = t1 + 2^m * hi
        let hi: nat = t2 / pow2(m);
        lemma_pow2_split(m, 0);
        vstd::arithmetic::div_mod::lemma_fundamental_div_mod(t2 as int, pow2(m) as int);
        assert(t2 == t1 + pow2(m) * hi);
        let c: nat = s.count;
        let len1: nat = c + 8 + m;
        assert(s.stream_len(input) == len1);
        lemma_pow2_split(c, 8);
        lemma_pow2_split(c + 8, m);
        let v1: nat = s.stream_value(input);
        let v2: nat = s.stream_value(whole);
        assert(v2 == v1 + pow2(len1) * hi) by (nonlinear_arith)
            requires
                v1 == s.bits + pow2(c) * (b + 256 * t1),
                v2 == s.bits + pow2(c) * (b + 256 * t2),
                t2 == t1 + pow2(m) * hi,
                pow2(c + 8) == pow2(c) * 256,
                pow2(len1) == pow2(c + 8) * pow2(m),
        ;
        crate::arith::lemma_div_of_sum(v1, hi, len1, len1);
        lemma_mod_pow2_small(v1, len1);
    }
}

/// A reader that has taken in all of one slice reads on in the next: moved
/// to the start of `next`, its unread stream starts with what it had
/// buffered from `chunk`.
pub proof fn lemma_next_slice_extends_stream(s: ReaderState, chunk: Seq<u8>, next: Seq<u8>)
    requires
        s.wf(),
        s.cursor == chunk.len(),
    ensures
        s.with_cursor(0).wf(),
        s.with_cursor(0).fits(next),
        is_stream_prefix(
            s.stream_value(chunk),
            s.stream_len(chunk),
            s.with_cursor(0).stream_value(next),
            s.with_cursor(0).stream_len(next),
        ),
{
    assert(chunk.skip(s.cursor as int).len() == 0);
    assert(s.stream_value(chunk) == s.bits) by (nonlinear_arith)
        requires
            s.stream_value(chunk) == s.bits + pow2(s.count) * 0,
    ;
    crate::arith::lemma_div_of_sum(s.bits, le_value(next.skip(0)), s.count, s.count);
    lemma_mod_pow2_small(s.bits, s.count);
}

/// Decoding a symbol moves the unread stream past the symbol's code.
pub proof fn lemma_symbol_advances_stream(s: ReaderState, t: TableModel, input: Seq<u8>)
    requires
        s.wf(),
        s.fits(input),
        t.wf(),
    ensures
        reader_after_symbol(s, t, input).wf(),
        reader_after_symbol(s, t, input).fits(input),
        match symbol_outcome(s, t, input) {
            Some(d) => {
                &&& d.nbits <= s.stream_len(input)
                &&& reader_after_symbol(s, t, input).stream_len(input) == s.stream_len(input)
                    - d.nbits
                &&& reader_after_symbol(s, t, input).stream_value(input) == s.stream_value(input)
                    / pow2(d.nbits)
            },
            None => reader_after_symbol(s, t, input) == s,
        },
{
    match symbol_outcome(s, t, input) {
        Some(d) => {
            let v: nat = s.stream_value(input);
            let len: nat = s.stream_len(input);
            lemma_stream_bound(s, input);
            lemma_decode_reads_lookahead(t, v, len);
            lemma_mod_pow2_small(v, len);
            lemma_decode_prefix(t, v, len, v, len);
            lemma_fill_keeps_stream(s, lookahead(), input);
            let filled: ReaderState = s.fill_to(lookahead(), input);
            if len >= 15 {
                crate::huffman::lemma_decode_full_lookahead(t, v, len, len);
            }
            lemma_drop_advances_stream(filled, d.nbits, input);
        },
        None => {},
    }
}

/// The first `n` symbols that a reader decodes from `input`, or `None` when
/// the stream ends before the `n`-th symbol does.
pub open spec fn symbols_from(s: ReaderState, t: TableModel, input: Seq<u8>, n: nat) -> Option<
    Seq<u16>,
>
    decreases n,
{
    if n == 0 {
        Some(Seq::empty())
    } else {
        match symbol_outcome(s, t, input) {
            None => None,
            Some(d) => match symbols_from(reader_after_symbol(s, t, input), t, input, (n - 1) as nat) {
                None => None,
                Some(rest) => Some(seq![d.value] + rest),
            },
        }
    }
}

/// What a reader decodes is what `decode_run` finds in its unread stream.
pub proof fn lemma_symbols_from_is_decode_run(s: ReaderState, t: TableModel, input: Seq<u8>, n: nat)
    requires
        s.wf(),
        s.fits(input),
        t.wf(),
    ensures
        symbols_from(s, t, input, n) == decode_run(
            t,
            s.stream_value(input),
            s.stream_len(input),
            n,
        ),
    decreases n,
{
    if n > 0 {
        lemma_symbol_advances_stream(s, t, input);
        if symbol_outcome(s, t, input) is Some {
            lemma_symbols_from_is_decode_run(reader_after_symbol(s, t, input), t, input, (n - 1) as nat);
        }
    }
}

/// Chunking does not change what is decoded. A reader `early` that has
/// seen only a part of the stream, on its input `part`, decodes the same
/// symbols as a reader `whole_reader` whose unread stream, on `whole`,
/// starts with the unread stream of `early`: however the bytes that came
/// in between were cut, and whatever either reader has buffered.
pub proof fn lemma_chunked_decode_agrees(
    early: ReaderState,
    part: Seq<u8>,
    whole_reader: ReaderState,
    whole: Seq<u8>,
    t: TableModel,
    n: nat,
)
    requires
        early.wf(),
        early.fits(part),
        whole_reader.wf(),
        whole_reader.fits(whole),
        t.wf(),
        is_stream_prefix(
            early.stream_value(part),
            early.stream_len(part),
            whole_reader.stream_value(whole),
            whole_reader.stream_len(whole),
        ),
        symbols_from(early, t, part, n) is Some,
    ensures
        symbols_from(whole_reader, t, whole, n) == symbols_from(early, t, part, n),
{
    lemma_symbols_from_is_decode_run(early, t, part, n);
    lemma_symbols_from_is_decode_run(whole_reader, t, whole, n);
    lemma_decode_run_prefix(
        t,
        early.stream_value(part),
        early.stream_len(part),
        whole_reader.stream_value(whole),
        whole_reader.stream_len(whole),
        n,
    );
}

/// Reads that were undone leave no trace: a reader sent back to the
/// checkpoint `saved`, taken when it was `before`, decodes from then on
/// what it would have decoded had nothing been tried.
pub proof fn lemma_undone_reads_leave_no_trace(
    before: ReaderState,
    saved: ReaderState,
    after: ReaderState,
    t: TableModel,
    input: Seq<u8>,
    n: nat,
)
    requires
        saved == before,
        after == saved,
    ensures
        symbol_outcome(after, t, input) == symbol_outcome(before, t, input),
        reader_after_symbol(after, t, input) == reader_after_symbol(before, t, input),
        symbols_from(after, t, input, n) == symbols_from(before, t, input, n),
        after.stream_value(input) == before.stream_value(input),
        after.stream_len(input) == before.stream_len(input),
{
}

} // verus!
