//! What a symbol decoder offers and what an entropy sink takes.

use vstd::prelude::*;
use vstd::arithmetic::power2::pow2;
use crate::BrotliResult;
use crate::bit_reader::{BitReader, ReaderState};
use crate::huffman::{Decoded, HuffmanCode, HuffmanTable, TableModel};

verus! {

/// A boolean carried by a type: whether a call is part of a speculative run.
pub trait BoolTrait: Copy {
    /// The boolean that the type stands for.
    spec fn spec_value() -> bool;

    /// The boolean that the type stands for.
    fn value(&self) -> (r: bool)
        ensures
            r == Self::spec_value(),
    ;
}

/// The type that stands for `true`.
#[derive(Clone, Copy)]
pub struct TrueBoolTrait {}

impl BoolTrait for TrueBoolTrait {
    open spec fn spec_value() -> bool {
        true
    }

    fn value(&self) -> (r: bool) {
        true
    }
}

/// The type that stands for `false`.
#[derive(Clone, Copy)]
pub struct FalseBoolTrait {}

impl BoolTrait for FalseBoolTrait {
    open spec fn spec_value() -> bool {
        false
    }

    fn value(&self) -> (r: bool) {
        false
    }
}

/// Marks a call made inside a speculative run.
pub type Speculative = TrueBoolTrait;

/// Marks a call whose reads are final.
pub type Unconditional = FalseBoolTrait;

/// A symbol type: made from the 16-bit value of a table slot, and widened to
/// 64 bits.
pub trait SymbolCast: Copy {
    /// The symbol for the table value `data`.
    spec fn spec_cast(data: u16) -> Self;

    /// The symbol as a 64-bit number.
    spec fn spec_into_u64(&self) -> u64;

    /// The symbol for the table value `data`.
    fn cast(data: u16) -> (r: Self)
        ensures
            r == Self::spec_cast(data),
    ;

    /// The symbol as a 64-bit number.
    fn into_u64(&self) -> (r: u64)
        ensures
            r == self.spec_into_u64(),
    ;
}

impl SymbolCast for u8 {
    /// The low byte of `data`.
    open spec fn spec_cast(data: u16) -> u8 {
        (data % 256) as u8
    }

    open spec fn spec_into_u64(&self) -> u64 {
        *self as u64
    }

    fn cast(data: u16) -> (r: u8) {
        (data % 256) as u8
    }

    fn into_u64(&self) -> (r: u64) {
        *self as u64
    }
}

impl SymbolCast for u16 {
    open spec fn spec_cast(data: u16) -> u16 {
        data
    }

    open spec fn spec_into_u64(&self) -> u64 {
        *self as u64
    }

    fn cast(data: u16) -> (r: u16) {
        data
    }

    fn into_u64(&self) -> (r: u64) {
        *self as u64
    }
}

/// One thing handed to an entropy sink.
#[allow(inconsistent_fields)]
#[derive(Clone, Copy, Debug, PartialEq, Eq, Structural)]
pub enum SinkEvent {
    /// A symbol decoded under the tree `prior`.
    Put { prior: u8, symbol: u64, speculative: bool },
    /// A symbol decoded from a single table with root width `l1numbits`.
    PutStationary { l1numbits: u8, symbol: u64, speculative: bool },
    /// An `nbits`-wide number.
    PutUniform { nbits: u8, symbol: u32, speculative: bool },
    /// The start of a speculative run.
    Begin,
    /// The end of a speculative run that is kept.
    Commit,
    /// The end of a speculative run that is undone.
    Abort,
}

/// How many bits a symbol decode looks at.
pub open spec fn lookahead() -> nat {
    15
}

/// What decoding one symbol from the unread stream of `s` gives: the symbol
/// and the length of its code, or `None` when the stream ends before the
/// code does.
pub open spec fn symbol_outcome(s: ReaderState, table: TableModel, input: Seq<u8>) -> Option<
    Decoded,
> {
    table.decode(s.stream_value(input) % pow2(lookahead()), s.stream_len(input))
}

/// The reader after one symbol was decoded: filled to the lookahead and
/// advanced past the code, or untouched when the stream ended too early.
pub open spec fn reader_after_symbol(s: ReaderState, table: TableModel, input: Seq<u8>) -> ReaderState {
    match symbol_outcome(s, table, input) {
        Some(d) => s.fill_to(lookahead(), input).drop_bits(d.nbits),
        None => s,
    }
}

/// The reader after `n` bits were read as a number: filled to `n` bits and
/// advanced past them, or untouched when the stream holds fewer.
pub open spec fn reader_after_uniform(s: ReaderState, n: nat, input: Seq<u8>) -> ReaderState {
    if n == 0 || s.stream_len(input) < n {
        s
    } else {
        s.fill_to(n, input).drop_bits(n)
    }
}

/// An entropy sink: it is handed every symbol that a decoder produced.
///
/// `events` is the sink's record of what it was handed, in order; each
/// method appends its own event and nothing else.
pub trait EntropyEncoder {
    /// Everything the sink was handed so far.
    spec fn events(&self) -> Seq<SinkEvent>;

    fn put<Symbol: SymbolCast, Speculative: BoolTrait>(
        &mut self,
        group: &[HuffmanTable],
        prior: u8,
        symbol: Symbol,
        is_speculative: Speculative,
    )
        ensures
            final(self).events() == old(self).events().push(
                SinkEvent::Put {
                    prior,
                    symbol: symbol.spec_into_u64(),
                    speculative: Speculative::spec_value(),
                },
            ),
    ;

    fn put_stationary<Symbol: SymbolCast, Speculative: BoolTrait>(
        &mut self,
        group: &HuffmanTable,
        l1numbits: u8,
        symbol: Symbol,
        speculative: Speculative,
    )
        ensures
            final(self).events() == old(self).events().push(
                SinkEvent::PutStationary {
                    l1numbits,
                    symbol: symbol.spec_into_u64(),
                    speculative: Speculative::spec_value(),
                },
            ),
    ;

    fn put_uniform<Speculative: BoolTrait>(
        &mut self,
        nbits: u8,
        symbol: u32,
        is_speculative: Speculative,
    )
        ensures
            final(self).events() == old(self).events().push(
                SinkEvent::PutUniform { nbits, symbol, speculative: Speculative::spec_value() },
            ),
    ;

    fn begin_speculative(&mut self)
        ensures
            final(self).events() == old(self).events().push(SinkEvent::Begin),
    ;

    fn commit_speculative(&mut self)
        ensures
            final(self).events() == old(self).events().push(SinkEvent::Commit),
    ;

    fn abort_speculative(&mut self)
        ensures
            final(self).events() == old(self).events().push(SinkEvent::Abort),
    ;

    /// How many bytes a drain into `out_data` reports.
    spec fn drain_count(&self, out_data: Seq<u8>) -> usize;

    /// What `out_data` holds after a drain into it.
    spec fn drain_output(&self, out_data: Seq<u8>) -> Seq<u8>;

    /// How many bytes a finish into `out_data` reports.
    spec fn finish_count(&self, out_data: Seq<u8>) -> usize;

    /// What `out_data` holds after a finish into it.
    spec fn finish_output(&self, out_data: Seq<u8>) -> Seq<u8>;

    /// Writes pending output to `out_data` and returns how many bytes it
    /// wrote. The record of events stays.
    fn drain(&mut self, out_data: &mut Vec<u8>) -> (r: usize)
        ensures
            r == old(self).drain_count(old(out_data)@),
            final(out_data)@ == old(self).drain_output(old(out_data)@),
            final(self).events() == old(self).events(),
    ;

    /// Writes the last output to `out_data` and returns how many bytes it
    /// wrote. The record of events stays.
    fn finish(&mut self, out_data: &mut Vec<u8>) -> (r: usize)
        ensures
            r == old(self).finish_count(old(out_data)@),
            final(out_data)@ == old(self).finish_output(old(out_data)@),
            final(self).events() == old(self).events(),
    ;
}

/// The root slot that the next bits of the unread stream select.
pub open spec fn root_slot(s: ReaderState, table: TableModel, input: Seq<u8>) -> HuffmanCode {
    table.entries[(s.stream_value(input) % pow2(table.root_bits)) as int]
}

/// A symbol decoder: it reads symbols and plain numbers from the unread
/// stream of its bit reader. `reader` is the state of that bit reader.
pub trait EntropyDecoder {
    /// What `begin_speculative` hands out and `abort_speculative` takes back.
    type SpeculativeState;

    /// The state of the decoder's bit reader.
    spec fn reader(&self) -> ReaderState;

    /// The reader state that a checkpoint holds.
    spec fn saved_reader(state: &Self::SpeculativeState) -> ReaderState;

    /// The decoder's bit reader.
    fn br(&self) -> (r: &BitReader)
        ensures
            r@ == self.reader(),
    ;

    /// The decoder's bit reader, to read from or to move.
    fn bit_reader(&mut self) -> (r: &mut BitReader)
        ensures
            r@ == old(self).reader(),
            final(self).reader() == final(r)@,
    ;

    /// Makes sure that a bit is buffered. Reports `NeedsMoreInput`, with the
    /// reader as it was, when the unread stream is empty.
    fn warmup(&mut self, input: &[u8]) -> (r: BrotliResult)
        requires
            old(self).reader().wf(),
            old(self).reader().fits(input@),
        ensures
            r == if old(self).reader().stream_len(input@) > 0 {
                BrotliResult::ResultSuccess
            } else {
                BrotliResult::NeedsMoreInput
            },
            final(self).reader() == old(self).reader().fill_to(1, input@),
            r == BrotliResult::NeedsMoreInput ==> final(self).reader() == old(self).reader(),
            final(self).reader().wf(),
            final(self).reader().fits(input@),
    ;

    /// What the decoder answers when a meta-block begins on `input`.
    spec fn metablock_result(&self, input: Seq<u8>) -> BrotliResult;

    /// Called at the start of a meta-block: answers whether the decoder is
    /// ready for it, and reads nothing.
    fn begin_metablock(&mut self, input: &[u8]) -> (r: BrotliResult)
        ensures
            r == old(self).metablock_result(input@),
            final(self).reader() == old(self).reader(),
    ;

    /// Whether the unread stream holds at least `nbits` bits.
    fn sufficient_bits(&mut self, nbits: u8, input: &[u8]) -> (r: bool)
        requires
            old(self).reader().wf(),
            old(self).reader().fits(input@),
        ensures
            r == (old(self).reader().stream_len(input@) >= nbits),
            final(self).reader() == old(self).reader(),
    ;

    /// A checkpoint of an empty reader, to fill a variable before the first
    /// `begin_speculative`.
    fn placeholder(&self) -> (r: Self::SpeculativeState)
        ensures
            Self::saved_reader(&r) == (ReaderState { bits: 0, count: 0, cursor: 0 }),
    ;

    /// Looks up the root slot for the next bits without consuming them, and
    /// returns its bit count and value. For the fast path: the stream holds
    /// the whole lookahead.
    fn preload<Symbol: SymbolCast>(
        &mut self,
        group: &[HuffmanTable],
        prior: u8,
        input: &[u8],
    ) -> (r: (u32, u32))
        requires
            old(self).reader().wf(),
            old(self).reader().fits(input@),
            (prior as int) < group@.len(),
            group@[prior as int].wf(),
            old(self).reader().stream_len(input@) >= lookahead(),
        ensures
            r.0 == root_slot(old(self).reader(), group@[prior as int]@, input@).bits,
            r.1 == root_slot(old(self).reader(), group@[prior as int]@, input@).value,
            final(self).reader() == old(self).reader().fill_to(lookahead(), input@),
            final(self).reader().wf(),
            final(self).reader().fits(input@),
            final(self).reader().stream_len(input@) == old(self).reader().stream_len(input@),
            final(self).reader().stream_value(input@) == old(self).reader().stream_value(input@),
    ;

    /// Finishes the decode that `preload` began with the same table and
    /// stream, and consumes the symbol's code.
    fn get_preloaded<Symbol: SymbolCast>(
        &mut self,
        group: &[HuffmanTable],
        prior: u8,
        preloaded: (u32, u32),
        input: &[u8],
    ) -> (r: Symbol)
        requires
            old(self).reader().wf(),
            old(self).reader().fits(input@),
            (prior as int) < group@.len(),
            group@[prior as int].wf(),
            old(self).reader().stream_len(input@) >= lookahead(),
            preloaded.0 == root_slot(old(self).reader(), group@[prior as int]@, input@).bits,
            preloaded.1 == root_slot(old(self).reader(), group@[prior as int]@, input@).value,
        ensures
            symbol_outcome(old(self).reader(), group@[prior as int]@, input@) is Some,
            r == Symbol::spec_cast(
                symbol_outcome(old(self).reader(), group@[prior as int]@, input@)->0.value,
            ),
            final(self).reader() == reader_after_symbol(
                old(self).reader(),
                group@[prior as int]@,
                input@,
            ),
            final(self).reader().wf(),
            final(self).reader().fits(input@),
    ;

    /// Decodes one symbol with the table that `prior` selects. Reports
    /// `NeedsMoreInput`, with the reader as it was, when the stream ends
    /// before the symbol's code does.
    fn get<Symbol: SymbolCast, Speculative: BoolTrait>(
        &mut self,
        group: &[HuffmanTable],
        prior: u8,
        input: &[u8],
        is_speculative: Speculative,
    ) -> (r: (Symbol, BrotliResult))
        requires
            old(self).reader().wf(),
            old(self).reader().fits(input@),
            (prior as int) < group@.len(),
            group@[prior as int].wf(),
        ensures
            match symbol_outcome(old(self).reader(), group@[prior as int]@, input@) {
                Some(d) => r == (Symbol::spec_cast(d.value), BrotliResult::ResultSuccess),
                None => r == (Symbol::spec_cast(0), BrotliResult::NeedsMoreInput),
            },
            final(self).reader() == reader_after_symbol(
                old(self).reader(),
                group@[prior as int]@,
                input@,
            ),
            r.1 == BrotliResult::NeedsMoreInput ==> final(self).reader() == old(self).reader(),
            final(self).reader().wf(),
            final(self).reader().fits(input@),
    ;

    /// Decodes one symbol from a single table. For the fast path: the
    /// stream holds the whole lookahead.
    fn get_stationary<Symbol: SymbolCast>(&mut self, table: &HuffmanTable, input: &[u8]) -> (r:
        Symbol)
        requires
            old(self).reader().wf(),
            old(self).reader().fits(input@),
            table.wf(),
            old(self).reader().stream_len(input@) >= lookahead(),
        ensures
            symbol_outcome(old(self).reader(), table@, input@) is Some,
            r == Symbol::spec_cast(symbol_outcome(old(self).reader(), table@, input@)->0.value),
            final(self).reader() == reader_after_symbol(old(self).reader(), table@, input@),
            final(self).reader().wf(),
            final(self).reader().fits(input@),
    ;

    /// Decodes one symbol from a single table. Reports `NeedsMoreInput`,
    /// with the reader as it was, when the stream ends before the symbol's
    /// code does.
    fn safe_get_stationary<Symbol: SymbolCast, Speculative: BoolTrait>(
        &mut self,
        table: &HuffmanTable,
        input: &[u8],
        is_speculative: Speculative,
    ) -> (r: (Symbol, BrotliResult))
        requires
            old(self).reader().wf(),
            old(self).reader().fits(input@),
            table.wf(),
        ensures
            match symbol_outcome(old(self).reader(), table@, input@) {
                Some(d) => r == (Symbol::spec_cast(d.value), BrotliResult::ResultSuccess),
                None => r == (Symbol::spec_cast(0), BrotliResult::NeedsMoreInput),
            },
            final(self).reader() == reader_after_symbol(old(self).reader(), table@, input@),
            r.1 == BrotliResult::NeedsMoreInput ==> final(self).reader() == old(self).reader(),
            final(self).reader().wf(),
            final(self).reader().fits(input@),
    ;

    /// Reads an `nbits`-wide number. Zero bits give 0 and change nothing.
    /// Reports `NeedsMoreInput`, with the reader as it was, when the stream
    /// holds fewer than `nbits` bits.
    fn get_uniform<Speculative: BoolTrait>(
        &mut self,
        nbits: u8,
        input: &[u8],
        is_speculative: Speculative,
    ) -> (r: (u32, BrotliResult))
        requires
            old(self).reader().wf(),
            old(self).reader().fits(input@),
            nbits <= 32,
        ensures
            r == if old(self).reader().stream_len(input@) >= nbits {
                (
                    (old(self).reader().stream_value(input@) % pow2(nbits as nat)) as u32,
                    BrotliResult::ResultSuccess,
                )
            } else {
                (0u32, BrotliResult::NeedsMoreInput)
            },
            final(self).reader() == reader_after_uniform(
                old(self).reader(),
                nbits as nat,
                input@,
            ),
            r.1 == BrotliResult::NeedsMoreInput ==> final(self).reader() == old(self).reader(),
            final(self).reader().wf(),
            final(self).reader().fits(input@),
    ;

    /// Saves the reader's position.
    fn begin_speculative(&mut self) -> (r: Self::SpeculativeState)
        ensures
            Self::saved_reader(&r) == old(self).reader(),
            final(self).reader() == old(self).reader(),
    ;

    /// Keeps what was read since `begin_speculative`.
    fn commit_speculative(&mut self)
        ensures
            final(self).reader() == old(self).reader(),
    ;

    /// Returns the reader to the position saved in `val`.
    fn abort_speculative(&mut self, val: Self::SpeculativeState)
        ensures
            final(self).reader() == Self::saved_reader(&val),
    ;

    /// How many bytes a drain into `out_data` reports.
    spec fn drain_count(&self, out_data: Seq<u8>) -> usize;

    /// What `out_data` holds after a drain into it.
    spec fn drain_output(&self, out_data: Seq<u8>) -> Seq<u8>;

    /// How many bytes a finish into `out_data` reports.
    spec fn finish_count(&self, out_data: Seq<u8>) -> usize;

    /// What `out_data` holds after a finish into it.
    spec fn finish_output(&self, out_data: Seq<u8>) -> Seq<u8>;

    /// Writes pending output to `out_data` and returns how many bytes it
    /// wrote. Reads nothing.
    fn drain(&mut self, out_data: &mut Vec<u8>) -> (r: usize)
        ensures
            r == old(self).drain_count(old(out_data)@),
            final(out_data)@ == old(self).drain_output(old(out_data)@),
            final(self).reader() == old(self).reader(),
    ;

    /// Writes the last output to `out_data` and returns how many bytes it
    /// wrote. Reads nothing.
    fn finish(&mut self, out_data: &mut Vec<u8>) -> (r: usize)
        ensures
            r == old(self).finish_count(old(out_data)@),
            final(out_data)@ == old(self).finish_output(old(out_data)@),
            final(self).reader() == old(self).reader(),
    ;
}

} // verus!
