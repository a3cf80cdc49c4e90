use brotli_decompressor::transfer::{TransferState, TransferStep};
use brotli_decompressor::BrotliResult;

#[test]
fn the_loop_starts_by_reading() {
    let state = TransferState::new(4096);
    assert_eq!(state.next_step(), TransferStep::ReadInput);
    assert_eq!(state.available_out, 4096);
    assert_eq!(state.pending_output(), 0);
}

#[test]
fn each_result_has_its_step() {
    let mut state = TransferState::new(16);
    state.stream_returned(BrotliResult::NeedsMoreOutput, 3, 5, 0, 16);
    assert_eq!(state.next_step(), TransferStep::WriteOutput);
    state.stream_returned(BrotliResult::ResultSuccess, 0, 8, 10, 6);
    assert_eq!(state.next_step(), TransferStep::Finish);
    state.stream_returned(BrotliResult::ResultFailure, 0, 8, 10, 6);
    assert_eq!(state.next_step(), TransferStep::Fail);
    state.stream_returned(BrotliResult::NeedsMoreInput, 0, 8, 10, 6);
    assert_eq!(state.next_step(), TransferStep::ReadInput);
}

#[test]
fn an_empty_read_ends_the_stream_early() {
    let mut state = TransferState::new(16);
    state.stream_returned(BrotliResult::NeedsMoreInput, 0, 7, 16, 0);
    let before = state;
    assert!(!state.input_read(0));
    assert_eq!(state, before);
    assert!(state.input_read(9));
    assert_eq!(state.available_in, 9);
    assert_eq!(state.input_offset, 0);
    assert_eq!(state.available_out, 16);
}

#[test]
fn flushed_output_frees_the_buffer() {
    let mut state = TransferState::new(16);
    state.stream_returned(BrotliResult::NeedsMoreInput, 0, 7, 4, 12);
    assert_eq!(state.pending_output(), 12);
    state.output_flushed(16);
    assert_eq!(state.pending_output(), 0);
    assert_eq!(state.available_out, 16);
    assert_eq!(state.result, BrotliResult::NeedsMoreInput);
    // nothing pending: nothing changes
    state.stream_returned(BrotliResult::NeedsMoreInput, 0, 7, 4, 0);
    let before = state;
    state.output_flushed(16);
    assert_eq!(state, before);
    state.stream_returned(BrotliResult::NeedsMoreOutput, 1, 7, 0, 16);
    state.output_written();
    assert_eq!(state.pending_output(), 0);
    assert_eq!(state.available_out, 0);
}
