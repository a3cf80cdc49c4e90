//! The table-driven Huffman decoder.

use vstd::prelude::*;
use vstd::arithmetic::power2::{pow2, lemma2_to64};
use crate::BrotliResult;
use crate::arith::{high_bits, low_bits, lemma_mod_pow2_twice, lemma_pow2_monotone};
use crate::bit_reader::{
    BitReader, ReaderState, SpeculativeCheckpoint, lemma_drop_advances_stream,
    lemma_fill_keeps_stream, lemma_peek_is_stream,
};
use crate::huffman::{HuffmanCode, HuffmanTable, lemma_decode_full_lookahead};
use crate::entropy::interface::{
    BoolTrait, EntropyDecoder, SymbolCast, lookahead, reader_after_symbol, symbol_outcome,
};

verus! {

/// Fills the reader to the lookahead and returns the bits that a lookup
/// indexes with, together with how many of them the stream holds.
fn load_lookahead(br: &mut BitReader, input: &[u8]) -> (r: (u32, u32))
    requires
        old(br).wf(),
        old(br)@.fits(input@),
    ensures
        final(br)@ == old(br)@.fill_to(lookahead(), input@),
        final(br).wf(),
        final(br)@.fits(input@),
        r.0 == old(br)@.stream_value(input@) % pow2(lookahead()),
        r.0 < 0x8000,
        r.1 == final(br)@.count,
        r.1 >= lookahead() <==> old(br)@.stream_len(input@) >= lookahead(),
        r.1 < lookahead() ==> r.1 == old(br)@.stream_len(input@),
{
    proof {
        lemma_fill_keeps_stream(br@, lookahead(), input@);
    }
    br.fill_to(15, input);
    proof {
        lemma_peek_is_stream(br@, lookahead(), input@);
        lemma_mod_pow2_twice(br@.bits, 15, 15);
        lemma2_to64();
    }
    (br.peek_bits(15), br.available_bits())
}

/// Decodes one symbol from `table`. With the whole lookahead buffered the
/// lookup runs unchecked; otherwise every step is held against the bits
/// that the stream still has, and a code that the stream cuts short leaves
/// the reader where it was.
pub fn decode_symbol(br: &mut BitReader, table: &HuffmanTable, input: &[u8]) -> (r: (
    u16,
    BrotliResult,
))
    requires
        old(br).wf(),
        old(br)@.fits(input@),
        table.wf(),
    ensures
        match symbol_outcome(old(br)@, table@, input@) {
            Some(d) => r == (d.value, BrotliResult::ResultSuccess),
            None => r == (0u16, BrotliResult::NeedsMoreInput),
        },
        final(br)@ == reader_after_symbol(old(br)@, table@, input@),
        r.1 == BrotliResult::NeedsMoreInput ==> *final(br) == *old(br),
        final(br).wf(),
        final(br)@.fits(input@),
{
    let saved: SpeculativeCheckpoint = br.begin_speculative();
    let ghost start: ReaderState = br@;
    let (val, available_bits): (u32, u32) = load_lookahead(br, input);
    let codes: &[HuffmanCode] = table.codes();
    let root_bits: u32 = table.root_bits() as u32;
    let table_index: u32 = low_bits(val, root_bits);
    proof {
        lemma_pow2_monotone(root_bits as nat, 8);
        lemma2_to64();
        assert(table@.root_slot_ok(table_index as int));
        lemma_decode_full_lookahead(table@, val as nat, 15, 15);
        if available_bits >= 15 {
            lemma_decode_full_lookahead(table@, val as nat, 15, start.stream_len(input@));
            lemma_decode_full_lookahead(table@, val as nat, 15, available_bits as nat);
        }
    }
    let table_element: HuffmanCode = codes[table_index as usize];
    if available_bits >= 15 {
        let mut total: u32 = table_element.bits as u32;
        let mut value: u16 = table_element.value;
        if table_element.bits as u32 > root_bits {
            let nbits: u32 = table_element.bits as u32 - root_bits;
            let sub_index: u32 = low_bits(high_bits(val, root_bits), nbits);
            proof {
                lemma_pow2_monotone(nbits as nat, 14);
            }
            let sub_element: HuffmanCode = codes[table_index as usize + table_element.value as usize
                + sub_index as usize];
            total = root_bits + sub_element.bits as u32;
            value = sub_element.value;
        }
        proof {
            lemma_drop_advances_stream(br@, total as nat, input@);
        }
        br.drop_bits(total);
        return (value, BrotliResult::ResultSuccess);
    }
    if table_element.bits as u32 <= root_bits {
        if table_element.bits as u32 <= available_bits {
            proof {
                lemma_drop_advances_stream(br@, table_element.bits as nat, input@);
            }
            br.drop_bits(table_element.bits as u32);
            return (table_element.value, BrotliResult::ResultSuccess);
        }
        br.abort_speculative(saved);
        proof {
            BitReader::lemma_view_determines(*br, *old(br));
        }
        return (0, BrotliResult::NeedsMoreInput);
    }
    if available_bits <= root_bits {
        // not enough bits to move to the second level
        br.abort_speculative(saved);
        proof {
            BitReader::lemma_view_determines(*br, *old(br));
        }
        return (0, BrotliResult::NeedsMoreInput);
    }
    let nbits: u32 = table_element.bits as u32 - root_bits;
    let sub_index: u32 = low_bits(high_bits(val, root_bits), nbits);
    proof {
        lemma_pow2_monotone(nbits as nat, 14);
    }
    let sub_element: HuffmanCode = codes[table_index as usize + table_element.value as usize
        + sub_index as usize];
    if available_bits - root_bits < sub_element.bits as u32 {
        // not enough bits for the second level
        br.abort_speculative(saved);
        proof {
            BitReader::lemma_view_determines(*br, *old(br));
        }
        return (0, BrotliResult::NeedsMoreInput);
    }
    proof {
        lemma_drop_advances_stream(br@, (root_bits + sub_element.bits) as nat, input@);
    }
    br.drop_bits(root_bits + sub_element.bits as u32);
    (sub_element.value, BrotliResult::ResultSuccess)
}

/// The decoder for streams coded with canonical Huffman codes.
pub struct HuffmanDecoder {
    br: BitReader,
}

impl Default for HuffmanDecoder {
    fn default() -> (r: HuffmanDecoder)
        ensures
            r.reader() == (ReaderState { bits: 0, count: 0, cursor: 0 }),
            r.reader().wf(),
    {
        HuffmanDecoder { br: BitReader::new() }
    }
}

impl HuffmanDecoder {
    /// A decoder that reads on from where `br` stands.
    pub fn new(br: BitReader) -> (r: HuffmanDecoder)
        ensures
            r.reader() == br@,
    {
        HuffmanDecoder { br }
    }
}

impl EntropyDecoder for HuffmanDecoder {
    type SpeculativeState = SpeculativeCheckpoint;

    closed spec fn reader(&self) -> ReaderState {
        self.br@
    }

    open spec fn saved_reader(state: &SpeculativeCheckpoint) -> ReaderState {
        state@
    }

    fn br(&self) -> (r: &BitReader) {
        &self.br
    }

    fn bit_reader(&mut self) -> (r: &mut BitReader) {
        &mut self.br
    }

    fn warmup(&mut self, input: &[u8]) -> (r: BrotliResult) {
        if !self.br.warmup(input) {
            return BrotliResult::NeedsMoreInput;
        }
        BrotliResult::ResultSuccess
    }

    /// A Huffman decoder has nothing to prepare: it is always ready.
    open spec fn metablock_result(&self, input: Seq<u8>) -> BrotliResult {
        BrotliResult::ResultSuccess
    }

    fn begin_metablock(&mut self, input: &[u8]) -> (r: BrotliResult) {
        BrotliResult::ResultSuccess
    }

    fn sufficient_bits(&mut self, nbits: u8, input: &[u8]) -> (r: bool) {
        self.br.sufficient_bits(nbits as u32, input)
    }

    fn placeholder(&self) -> (r: SpeculativeCheckpoint) {
        BitReader::new().begin_speculative()
    }

    fn preload<Symbol: SymbolCast>(&mut self, group: &[HuffmanTable], prior: u8, input: &[u8]) -> (r:
        (u32, u32)) {
        let table: &HuffmanTable = &group[prior as usize];
        let ghost start: ReaderState = self.br@;
        let (val, available_bits): (u32, u32) = load_lookahead(&mut self.br, input);
        let root_bits: u32 = table.root_bits() as u32;
        let table_index: u32 = low_bits(val, root_bits);
        proof {
            lemma_fill_keeps_stream(start, lookahead(), input@);
            lemma_pow2_monotone(root_bits as nat, 8);
            lemma2_to64();
            lemma_mod_pow2_twice(start.stream_value(input@), root_bits as nat, 15);
        }
        let table_element: HuffmanCode = table.codes()[table_index as usize];
        (table_element.bits as u32, table_element.value as u32)
    }

    fn get_preloaded<Symbol: SymbolCast>(
        &mut self,
        group: &[HuffmanTable],
        prior: u8,
        preloaded: (u32, u32),
        input: &[u8],
    ) -> (r: Symbol) {
        let table: &HuffmanTable = &group[prior as usize];
        let ghost start: ReaderState = self.br@;
        let (val, available_bits): (u32, u32) = load_lookahead(&mut self.br, input);
        let codes: &[HuffmanCode] = table.codes();
        let root_bits: u32 = table.root_bits() as u32;
        proof {
            lemma_pow2_monotone(root_bits as nat, 8);
            lemma2_to64();
            lemma_mod_pow2_twice(start.stream_value(input@), root_bits as nat, 15);
            lemma_decode_full_lookahead(table@, val as nat, 15, start.stream_len(input@));
            let idx: nat = (val as nat) % pow2(root_bits as nat);
            assert(table@.root_slot_ok(idx as int));
        }
        if preloaded.0 > root_bits {
            let table_index: u32 = low_bits(val, root_bits);
            let nbits: u32 = preloaded.0 - root_bits;
            let sub_index: u32 = low_bits(high_bits(val, root_bits), nbits);
            proof {
                lemma_pow2_monotone(nbits as nat, 14);
            }
            let ext: HuffmanCode = codes[table_index as usize + preloaded.1 as usize
                + sub_index as usize];
            proof {
                lemma_drop_advances_stream(self.br@, (root_bits + ext.bits) as nat, input@);
            }
            self.br.drop_bits(root_bits + ext.bits as u32);
            Symbol::cast(ext.value)
        } else {
            proof {
                lemma_drop_advances_stream(self.br@, preloaded.0 as nat, input@);
            }
            self.br.drop_bits(preloaded.0);
            Symbol::cast(preloaded.1 as u16)
        }
    }

    fn get<Symbol: SymbolCast, Speculative: BoolTrait>(
        &mut self,
        group: &[HuffmanTable],
        prior: u8,
        input: &[u8],
        is_speculative: Speculative,
    ) -> (r: (Symbol, BrotliResult))
        ensures
            r.1 == BrotliResult::NeedsMoreInput ==> *final(self) == *old(self),
    {
        let (value, result): (u16, BrotliResult) = decode_symbol(
            &mut self.br,
            &group[prior as usize],
            input,
        );
        (Symbol::cast(value), result)
    }

    fn get_stationary<Symbol: SymbolCast>(&mut self, table: &HuffmanTable, input: &[u8]) -> (r:
        Symbol) {
        let ghost start: ReaderState = self.br@;
        let (val, available_bits): (u32, u32) = load_lookahead(&mut self.br, input);
        let codes: &[HuffmanCode] = table.codes();
        let root_bits: u32 = table.root_bits() as u32;
        let mut table_index: usize = low_bits(val, root_bits) as usize;
        proof {
            lemma_pow2_monotone(root_bits as nat, 8);
            lemma2_to64();
            assert(table@.root_slot_ok(table_index as int));
            lemma_decode_full_lookahead(table@, val as nat, 15, start.stream_len(input@));
        }
        let mut table_element: HuffmanCode = codes[table_index];
        let mut total: u32 = table_element.bits as u32;
        if table_element.bits as u32 > root_bits {
            let nbits: u32 = table_element.bits as u32 - root_bits;
            let sub_index: u32 = low_bits(high_bits(val, root_bits), nbits);
            proof {
                lemma_pow2_monotone(nbits as nat, 14);
            }
            table_index = table_index + table_element.value as usize + sub_index as usize;
            table_element = codes[table_index];
            total = root_bits + table_element.bits as u32;
        }
        proof {
            lemma_drop_advances_stream(self.br@, total as nat, input@);
        }
        self.br.drop_bits(total);
        Symbol::cast(table_element.value)
    }

    fn safe_get_stationary<Symbol: SymbolCast, Speculative: BoolTrait>(
        &mut self,
        table: &HuffmanTable,
        input: &[u8],
        is_speculative: Speculative,
    ) -> (r: (Symbol, BrotliResult))
        ensures
            r.1 == BrotliResult::NeedsMoreInput ==> *final(self) == *old(self),
    {
        let (value, result): (u16, BrotliResult) = decode_symbol(&mut self.br, table, input);
        (Symbol::cast(value), result)
    }

    fn get_uniform<Speculative: BoolTrait>(
        &mut self,
        nbits: u8,
        input: &[u8],
        is_speculative: Speculative,
    ) -> (r: (u32, BrotliResult))
        ensures
            r.1 == BrotliResult::NeedsMoreInput ==> *final(self) == *old(self),
    {
        if nbits == 0 {
            proof {
                lemma2_to64();
            }
            return (0, BrotliResult::ResultSuccess);
        }
        let mut ix: u32 = 0u32;
        if !self.br.safe_read_bits(nbits as u32, &mut ix, input) {
            return (0, BrotliResult::NeedsMoreInput);
        }
        (ix, BrotliResult::ResultSuccess)
    }

    fn begin_speculative(&mut self) -> (r: SpeculativeCheckpoint) {
        self.br.begin_speculative()
    }

    fn commit_speculative(&mut self) {
    }

    fn abort_speculative(&mut self, val: SpeculativeCheckpoint) {
        self.br.abort_speculative(val);
    }

    /// Nothing is pending: a drain reports no byte.
    open spec fn drain_count(&self, out_data: Seq<u8>) -> usize {
        0
    }

    /// Nothing is pending: a drain leaves `out_data` as it is.
    open spec fn drain_output(&self, out_data: Seq<u8>) -> Seq<u8> {
        out_data
    }

    /// Nothing is left over: a finish reports no byte.
    open spec fn finish_count(&self, out_data: Seq<u8>) -> usize {
        0
    }

    /// Nothing is left over: a finish leaves `out_data` as it is.
    open spec fn finish_output(&self, out_data: Seq<u8>) -> Seq<u8> {
        out_data
    }

    fn drain(&mut self, out_data: &mut Vec<u8>) -> (r: usize)
        ensures
            r == 0,
            *final(out_data) == *old(out_data),
    {
        0
    }

    fn finish(&mut self, out_data: &mut Vec<u8>) -> (r: usize)
        ensures
            r == 0,
            *final(out_data) == *old(out_data),
    {
        0
    }
}

} // verus!
