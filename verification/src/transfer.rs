//! The decisions of the loop that moves a stream through a decoder: when to
//! fetch input, when to hand on output, when to stop. The loop itself, with
//! its reads and writes, belongs to the caller.

use vstd::prelude::*;
use crate::BrotliResult;

verus! {

/// What the loop does next.
#[derive(Clone, Copy, Debug, PartialEq, Eq, Structural)]
pub enum TransferStep {
    /// Fill the input buffer from the source, from its start.
    ReadInput,
    /// Hand the pending output on.
    WriteOutput,
    /// The stream is decoded: leave the loop.
    Finish,
    /// The stream is corrupt: leave the loop with an error.
    Fail,
}

/// The loop's bookkeeping between two calls of the stream decoder.
#[derive(Clone, Copy, Debug, PartialEq, Eq, Structural)]
pub struct TransferState {
    /// What the stream decoder returned last.
    pub result: BrotliResult,
    /// Bytes of the input buffer that the decoder has not read.
    pub available_in: usize,
    /// Where in the input buffer the decoder reads next.
    pub input_offset: usize,
    /// Room left in the output buffer.
    pub available_out: usize,
    /// Bytes of output that wait in the output buffer.
    pub output_offset: usize,
}

impl TransferState {
    /// The state before the first read, for an output buffer of `output_len`
    /// bytes: the decoder is taken to need input.
    pub fn new(output_len: usize) -> (r: TransferState)
        ensures
            r == (TransferState {
                result: BrotliResult::NeedsMoreInput,
                available_in: 0,
                input_offset: 0,
                available_out: output_len,
                output_offset: 0,
            }),
    {
        TransferState {
            result: BrotliResult::NeedsMoreInput,
            available_in: 0,
            input_offset: 0,
            available_out: output_len,
            output_offset: 0,
        }
    }

    /// What to do before the decoder is called again.
    pub open spec fn spec_next_step(self) -> TransferStep {
        match self.result {
            BrotliResult::NeedsMoreInput => TransferStep::ReadInput,
            BrotliResult::NeedsMoreOutput => TransferStep::WriteOutput,
            BrotliResult::ResultSuccess => TransferStep::Finish,
            BrotliResult::ResultFailure => TransferStep::Fail,
        }
    }

    /// What to do before the decoder is called again.
    pub fn next_step(&self) -> (r: TransferStep)
        ensures
            r == self.spec_next_step(),
    {
        match self.result {
            BrotliResult::NeedsMoreInput => TransferStep::ReadInput,
            BrotliResult::NeedsMoreOutput => TransferStep::WriteOutput,
            BrotliResult::ResultSuccess => TransferStep::Finish,
            BrotliResult::ResultFailure => TransferStep::Fail,
        }
    }

    /// Takes note of a read of `size` bytes into the start of the input
    /// buffer. Returns false, and changes nothing, when the read gave no
    /// byte: the source ended before the stream did.
    pub fn input_read(&mut self, size: usize) -> (r: bool)
        ensures
            r == (size != 0),
            r ==> *final(self) == (TransferState {
                input_offset: 0,
                available_in: size,
                ..*old(self)
            }),
            !r ==> *final(self) == *old(self),
    {
        if size == 0 {
            return false;
        }
        self.input_offset = 0;
        self.available_in = size;
        true
    }

    /// How many bytes of output wait to be handed on.
    pub fn pending_output(&self) -> (r: usize)
        ensures
            r == self.output_offset,
    {
        self.output_offset
    }

    /// Takes note that the pending output was handed on, after the decoder
    /// asked for room: the output buffer is written from its start again.
    pub fn output_written(&mut self)
        ensures
            *final(self) == (TransferState { output_offset: 0, ..*old(self) }),
    {
        self.output_offset = 0;
    }

    /// Takes note of what a call of the decoder returned and left in its
    /// counters.
    pub fn stream_returned(
        &mut self,
        result: BrotliResult,
        available_in: usize,
        input_offset: usize,
        available_out: usize,
        output_offset: usize,
    )
        ensures
            *final(self) == (TransferState {
                result,
                available_in,
                input_offset,
                available_out,
                output_offset,
            }),
    {
        self.result = result;
        self.available_in = available_in;
        self.input_offset = input_offset;
        self.available_out = available_out;
        self.output_offset = output_offset;
    }

    /// Takes note that the output which a call of the decoder left was
    /// handed on: the whole output buffer, of `output_len` bytes, is free
    /// again. Without pending output nothing changes.
    pub fn output_flushed(&mut self, output_len: usize)
        ensures
            *final(self) == if old(self).output_offset != 0 {
                TransferState { output_offset: 0, available_out: output_len, ..*old(self) }
            } else {
                *old(self)
            },
    {
        if self.output_offset != 0 {
            self.output_offset = 0;
            self.available_out = output_len;
        }
    }
}

} // verus!
