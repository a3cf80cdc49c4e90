//! The tee: a decoder that hands every symbol it decodes to a sink.

use vstd::prelude::*;
use crate::BrotliResult;
use crate::bit_reader::{BitReader, ReaderState};
use crate::huffman::{HuffmanTable, TableModel};
use crate::entropy::interface::{
    BoolTrait, EntropyDecoder, EntropyEncoder, SinkEvent, SymbolCast, Unconditional,
    reader_after_symbol, reader_after_uniform, symbol_outcome,
};

verus! {

/// A source decoder and a sink. Every decode goes to the source; what the
/// source decoded goes to the sink as well; the caller gets what the source
/// returned.
pub struct Tee<Decoder: EntropyDecoder, Encoder: EntropyEncoder> {
    decoder: Decoder,
    encoder: Encoder,
}

impl<Decoder: EntropyDecoder, Encoder: EntropyEncoder> Tee<Decoder, Encoder> {
    /// The source.
    pub closed spec fn source(&self) -> Decoder {
        self.decoder
    }

    /// The sink.
    pub closed spec fn sink(&self) -> Encoder {
        self.encoder
    }

    /// A tee of `decoder` and `encoder`.
    pub fn new(decoder: Decoder, encoder: Encoder) -> (r: Self)
        ensures
            r.source() == decoder,
            r.sink() == encoder,
    {
        Tee { decoder: decoder, encoder: encoder }
    }

    /// The source.
    pub fn decoder(&self) -> (r: &Decoder)
        ensures
            *r == self.source(),
    {
        &self.decoder
    }

    /// The sink.
    pub fn encoder(&self) -> (r: &Encoder)
        ensures
            *r == self.sink(),
    {
        &self.encoder
    }

    /// Takes the tee apart.
    pub fn into_parts(self) -> (r: (Decoder, Encoder))
        ensures
            r.0 == self.source(),
            r.1 == self.sink(),
    {
        (self.decoder, self.encoder)
    }
}

impl<Decoder: EntropyDecoder + Default, Encoder: EntropyEncoder + Default> Default for Tee<
    Decoder,
    Encoder,
> {
    /// A tee of the default source and the default sink.
    fn default() -> (r: Self) {
        Tee { decoder: Decoder::default(), encoder: Encoder::default() }
    }
}

impl<Decoder: EntropyDecoder, Encoder: EntropyEncoder> EntropyDecoder for Tee<Decoder, Encoder> {
    type SpeculativeState = Decoder::SpeculativeState;

    open spec fn reader(&self) -> ReaderState {
        self.source().reader()
    }

    open spec fn saved_reader(state: &Decoder::SpeculativeState) -> ReaderState {
        Decoder::saved_reader(state)
    }

    fn br(&self) -> (r: &BitReader) {
        self.decoder.br()
    }

    fn bit_reader(&mut self) -> (r: &mut BitReader)
        ensures
            final(self).sink() == old(self).sink(),
    {
        self.decoder.bit_reader()
    }

    fn warmup(&mut self, input: &[u8]) -> (r: BrotliResult)
        ensures
            final(self).sink() == old(self).sink(),
    {
        self.decoder.warmup(input)
    }

    fn begin_metablock(&mut self, input: &[u8]) -> (r: BrotliResult)
        ensures
            final(self).sink() == old(self).sink(),
    {
        self.decoder.begin_metablock(input)
    }

    fn sufficient_bits(&mut self, nbits: u8, input: &[u8]) -> (r: bool)
        ensures
            final(self).sink() == old(self).sink(),
    {
        self.decoder.sufficient_bits(nbits, input)
    }

    fn placeholder(&self) -> (r: Decoder::SpeculativeState) {
        self.decoder.placeholder()
    }

    fn preload<Symbol: SymbolCast>(&mut self, group: &[HuffmanTable], prior: u8, input: &[u8]) -> (r:
        (u32, u32))
        ensures
            final(self).sink() == old(self).sink(),
    {
        self.decoder.preload::<Symbol>(group, prior, input)
    }

    fn get_preloaded<Symbol: SymbolCast>(
        &mut self,
        group: &[HuffmanTable],
        prior: u8,
        preloaded: (u32, u32),
        input: &[u8],
    ) -> (r: Symbol)
        ensures
            final(self).sink().events() == old(self).sink().events().push(
                SinkEvent::Put { prior, symbol: r.spec_into_u64(), speculative: false },
            ),
    {
        let ret: Symbol = self.decoder.get_preloaded(group, prior, preloaded, input);
        self.encoder.put(group, prior, ret, Unconditional {  });
        ret
    }

    fn get<Symbol: SymbolCast, Speculative: BoolTrait>(
        &mut self,
        group: &[HuffmanTable],
        prior: u8,
        input: &[u8],
        is_speculative: Speculative,
    ) -> (r: (Symbol, BrotliResult))
        ensures
            final(self).sink().events() == if r.1 == BrotliResult::ResultSuccess {
                old(self).sink().events().push(
                    SinkEvent::Put {
                        prior,
                        symbol: r.0.spec_into_u64(),
                        speculative: Speculative::spec_value(),
                    },
                )
            } else {
                old(self).sink().events()
            },
    {
        let (sym, res): (Symbol, BrotliResult) = self.decoder.get(
            group,
            prior,
            input,
            is_speculative,
        );
        if let BrotliResult::ResultSuccess = res {
            self.encoder.put(group, prior, sym, is_speculative)
        }
        (sym, res)
    }

    fn get_stationary<Symbol: SymbolCast>(&mut self, table: &HuffmanTable, input: &[u8]) -> (r:
        Symbol)
        ensures
            final(self).sink().events() == old(self).sink().events().push(
                SinkEvent::PutStationary {
                    l1numbits: table@.root_bits as u8,
                    symbol: r.spec_into_u64(),
                    speculative: false,
                },
            ),
    {
        let sym: Symbol = self.decoder.get_stationary(table, input);
        self.encoder.put_stationary(table, table.root_bits(), sym, Unconditional {  });
        sym
    }

    fn safe_get_stationary<Symbol: SymbolCast, Speculative: BoolTrait>(
        &mut self,
        table: &HuffmanTable,
        input: &[u8],
        is_speculative: Speculative,
    ) -> (r: (Symbol, BrotliResult))
        ensures
            final(self).sink().events() == if r.1 == BrotliResult::ResultSuccess {
                old(self).sink().events().push(
                    SinkEvent::PutStationary {
                        l1numbits: table@.root_bits as u8,
                        symbol: r.0.spec_into_u64(),
                        speculative: Speculative::spec_value(),
                    },
                )
            } else {
                old(self).sink().events()
            },
    {
        let (sym, res): (Symbol, BrotliResult) = self.decoder.safe_get_stationary(
            table,
            input,
            is_speculative,
        );
        if let BrotliResult::ResultSuccess = res {
            self.encoder.put_stationary(table, table.root_bits(), sym, is_speculative);
        }
        (sym, res)
    }

    fn get_uniform<Speculative: BoolTrait>(
        &mut self,
        nbits: u8,
        input: &[u8],
        is_speculative: Speculative,
    ) -> (r: (u32, BrotliResult))
        ensures
            final(self).sink().events() == if r.1 == BrotliResult::ResultSuccess {
                old(self).sink().events().push(
                    SinkEvent::PutUniform {
                        nbits,
                        symbol: r.0,
                        speculative: Speculative::spec_value(),
                    },
                )
            } else {
                old(self).sink().events()
            },
    {
        let (bits, res): (u32, BrotliResult) = self.decoder.get_uniform(
            nbits,
            input,
            is_speculative,
        );
        if let BrotliResult::ResultSuccess = res {
            self.encoder.put_uniform(nbits, bits, is_speculative);
        }
        (bits, res)
    }

    fn begin_speculative(&mut self) -> (r: Decoder::SpeculativeState)
        ensures
            final(self).sink().events() == old(self).sink().events().push(SinkEvent::Begin),
    {
        self.encoder.begin_speculative();
        self.decoder.begin_speculative()
    }

    fn commit_speculative(&mut self)
        ensures
            final(self).sink().events() == old(self).sink().events().push(SinkEvent::Commit),
    {
        self.encoder.commit_speculative();
        self.decoder.commit_speculative();
    }

    fn abort_speculative(&mut self, val: Decoder::SpeculativeState)
        ensures
            final(self).sink().events() == old(self).sink().events().push(SinkEvent::Abort),
    {
        self.decoder.abort_speculative(val);
        self.encoder.abort_speculative();
    }

    fn drain(&mut self, out_data: &mut Vec<u8>) -> (r: usize)
        ensures
            final(self).sink().events() == old(self).sink().events(),
    {
        let res: usize = self.decoder.drain(out_data);
        self.encoder.drain(out_data).saturating_add(res)
    }

    fn finish(&mut self, out_data: &mut Vec<u8>) -> (r: usize)
        ensures
            final(self).sink().events() == old(self).sink().events(),
    {
        let res: usize = self.decoder.finish(out_data);
        self.encoder.finish(out_data).saturating_add(res)
    }

    /// The tee answers what its source answers.
    open spec fn metablock_result(&self, input: Seq<u8>) -> BrotliResult {
        self.source().metablock_result(input)
    }

    /// The source drains first, the sink after it into what the source
    /// left: the tee reports the two counts added, `usize::MAX` at most.
    open spec fn drain_count(&self, out_data: Seq<u8>) -> usize {
        added_counts(
            self.sink().drain_count(self.source().drain_output(out_data)),
            self.source().drain_count(out_data),
        )
    }

    /// What the sink's drain leaves of what the source's drain left.
    open spec fn drain_output(&self, out_data: Seq<u8>) -> Seq<u8> {
        self.sink().drain_output(self.source().drain_output(out_data))
    }

    /// The source finishes first, the sink after it into what the source
    /// left: the tee reports the two counts added, `usize::MAX` at most.
    open spec fn finish_count(&self, out_data: Seq<u8>) -> usize {
        added_counts(
            self.sink().finish_count(self.source().finish_output(out_data)),
            self.source().finish_count(out_data),
        )
    }

    /// What the sink's finish leaves of what the source's finish left.
    open spec fn finish_output(&self, out_data: Seq<u8>) -> Seq<u8> {
        self.sink().finish_output(self.source().finish_output(out_data))
    }
}

/// A tee reads as its source does: its reader is the source's reader, so
/// what the decoder's contract says of a call on the tee, the value, the
/// status and where the reader is left, is what it says of the same call
/// on the source alone. The sink has no part in it.
pub proof fn lemma_tee_reads_as_source<Decoder: EntropyDecoder, Encoder: EntropyEncoder>(
    tee: Tee<Decoder, Encoder>,
    table: TableModel,
    input: Seq<u8>,
    nbits: nat,
)
    ensures
        tee.reader() == tee.source().reader(),
        symbol_outcome(tee.reader(), table, input) == symbol_outcome(
            tee.source().reader(),
            table,
            input,
        ),
        reader_after_symbol(tee.reader(), table, input) == reader_after_symbol(
            tee.source().reader(),
            table,
            input,
        ),
        reader_after_uniform(tee.reader(), nbits, input) == reader_after_uniform(
            tee.source().reader(),
            nbits,
            input,
        ),
{
}

/// Two byte counts added, `usize::MAX` where the sum is beyond it.
pub open spec fn added_counts(a: usize, b: usize) -> usize {
    if a + b > usize::MAX {
        usize::MAX
    } else {
        (a + b) as usize
    }
}

} // verus!
