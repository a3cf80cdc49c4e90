//! Bit-level symbol decoding for the Brotli bitstream: a windowed bit reader
//! with checkpoints, canonical Huffman lookup tables, and the symbol decoders
//! built on them.

use vstd::prelude::*;

pub mod arith;
pub mod bit_reader;
pub mod entropy;
pub mod huffman;
pub mod transfer;

verus! {

/// Outcome of one step of the decoder.
#[derive(Clone, Copy, Debug, PartialEq, Eq, Structural)]
pub enum BrotliResult {
    ResultSuccess,
    NeedsMoreInput,
    NeedsMoreOutput,
    ResultFailure,
}

impl BrotliResult {
    /// Whether the step produced its value.
    pub fn is_success(&self) -> (r: bool)
        ensures
            r == (*self == BrotliResult::ResultSuccess),
    {
        match self {
            BrotliResult::ResultSuccess => true,
            _ => false,
        }
    }
}

} // verus!
