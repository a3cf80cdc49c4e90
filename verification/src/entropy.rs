//! Symbol decoders and entropy sinks.

use vstd::prelude::*;
use crate::huffman::HuffmanTable;

pub mod chunking;
pub mod huffman;
pub mod interface;
pub mod roundtrip;
pub mod tee;

pub use self::huffman::{HuffmanDecoder, decode_symbol};
pub use self::tee::Tee;
pub use self::interface::{
    BoolTrait, EntropyDecoder, EntropyEncoder, FalseBoolTrait, SinkEvent, Speculative, SymbolCast, TrueBoolTrait,
    Unconditional,
};

verus! {

/// The sink that does nothing with what it is handed.
pub struct NopEncoder {
    events: Ghost<Seq<SinkEvent>>,
}

impl Default for NopEncoder {
    fn default() -> (r: NopEncoder)
        ensures
            r.events() == Seq::<SinkEvent>::empty(),
    {
        NopEncoder { events: Ghost(Seq::empty()) }
    }
}

impl EntropyEncoder for NopEncoder {
    closed spec fn events(&self) -> Seq<SinkEvent> {
        self.events@
    }

    fn put<Symbol: SymbolCast, Speculative: BoolTrait>(
        &mut self,
        group: &[HuffmanTable],
        prior: u8,
        symbol: Symbol,
        is_speculative: Speculative,
    ) {
        self.events = Ghost(
            self.events@.push(
                SinkEvent::Put {
                    prior,
                    symbol: symbol.spec_into_u64(),
                    speculative: Speculative::spec_value(),
                },
            ),
        );
    }

    fn put_stationary<Symbol: SymbolCast, Speculative: BoolTrait>(
        &mut self,
        group: &HuffmanTable,
        l1numbits: u8,
        symbol: Symbol,
        speculative: Speculative,
    ) {
        self.events = Ghost(
            self.events@.push(
                SinkEvent::PutStationary {
                    l1numbits,
                    symbol: symbol.spec_into_u64(),
                    speculative: Speculative::spec_value(),
                },
            ),
        );
    }

    fn put_uniform<Speculative: BoolTrait>(
        &mut self,
        nbits: u8,
        symbol: u32,
        is_speculative: Speculative,
    ) {
        self.events = Ghost(
            self.events@.push(
                SinkEvent::PutUniform { nbits, symbol, speculative: Speculative::spec_value() },
            ),
        );
    }

    fn begin_speculative(&mut self) {
        self.events = Ghost(self.events@.push(SinkEvent::Begin));
    }

    fn commit_speculative(&mut self) {
        self.events = Ghost(self.events@.push(SinkEvent::Commit));
    }

    fn abort_speculative(&mut self) {
        self.events = Ghost(self.events@.push(SinkEvent::Abort));
    }

    /// Nothing is pending: a drain reports no byte.
    open spec fn drain_count(&self, out_data: Seq<u8>) -> usize {
        0
    }

    /// Nothing is pending: a drain leaves `out_data` as it is.
    open spec fn drain_output(&self, out_data: Seq<u8>) -> Seq<u8> {
        out_data
    }

    /// Nothing is left over: a finish reports no byte.
    open spec fn finish_count(&self, out_data: Seq<u8>) -> usize {
        0
    }

    /// Nothing is left over: a finish leaves `out_data` as it is.
    open spec fn finish_output(&self, out_data: Seq<u8>) -> Seq<u8> {
        out_data
    }

    fn drain(&mut self, out_data: &mut Vec<u8>) -> (r: usize)
        ensures
            r == 0,
            *final(out_data) == *old(out_data),
    {
        0
    }

    fn finish(&mut self, out_data: &mut Vec<u8>) -> (r: usize)
        ensures
            r == 0,
            *final(out_data) == *old(out_data),
    {
        0
    }
}

/// The sink that keeps what it is handed, for a caller to read back.
pub struct RecordingEncoder {
    log: Vec<SinkEvent>,
}

impl Default for RecordingEncoder {
    fn default() -> (r: RecordingEncoder)
        ensures
            r.events() == Seq::<SinkEvent>::empty(),
    {
        RecordingEncoder { log: Vec::new() }
    }
}

impl RecordingEncoder {
    /// What the sink was handed so far, in order.
    pub fn recorded(&self) -> (r: &Vec<SinkEvent>)
        ensures
            r@ == self.events(),
    {
        &self.log
    }
}

impl EntropyEncoder for RecordingEncoder {
    closed spec fn events(&self) -> Seq<SinkEvent> {
        self.log@
    }

    fn put<Symbol: SymbolCast, Speculative: BoolTrait>(
        &mut self,
        group: &[HuffmanTable],
        prior: u8,
        symbol: Symbol,
        is_speculative: Speculative,
    ) {
        self.log.push(
            SinkEvent::Put {
                prior,
                symbol: symbol.into_u64(),
                speculative: is_speculative.value(),
            },
        );
    }

    fn put_stationary<Symbol: SymbolCast, Speculative: BoolTrait>(
        &mut self,
        group: &HuffmanTable,
        l1numbits: u8,
        symbol: Symbol,
        speculative: Speculative,
    ) {
        self.log.push(
            SinkEvent::PutStationary {
                l1numbits,
                symbol: symbol.into_u64(),
                speculative: speculative.value(),
            },
        );
    }

    fn put_uniform<Speculative: BoolTrait>(
        &mut self,
        nbits: u8,
        symbol: u32,
        is_speculative: Speculative,
    ) {
        self.log.push(SinkEvent::PutUniform { nbits, symbol, speculative: is_speculative.value() });
    }

    fn begin_speculative(&mut self) {
        self.log.push(SinkEvent::Begin);
    }

    fn commit_speculative(&mut self) {
        self.log.push(SinkEvent::Commit);
    }

    fn abort_speculative(&mut self) {
        self.log.push(SinkEvent::Abort);
    }

    /// Nothing is pending: a drain reports no byte.
    open spec fn drain_count(&self, out_data: Seq<u8>) -> usize {
        0
    }

    /// Nothing is pending: a drain leaves `out_data` as it is.
    open spec fn drain_output(&self, out_data: Seq<u8>) -> Seq<u8> {
        out_data
    }

    /// Nothing is left over: a finish reports no byte.
    open spec fn finish_count(&self, out_data: Seq<u8>) -> usize {
        0
    }

    /// Nothing is left over: a finish leaves `out_data` as it is.
    open spec fn finish_output(&self, out_data: Seq<u8>) -> Seq<u8> {
        out_data
    }

    fn drain(&mut self, out_data: &mut Vec<u8>) -> (r: usize)
        ensures
            r == 0,
            *final(out_data) == *old(out_data),
    {
        0
    }

    fn finish(&mut self, out_data: &mut Vec<u8>) -> (r: usize)
        ensures
            r == 0,
            *final(out_data) == *old(out_data),
    {
        0
    }
}

} // verus!
