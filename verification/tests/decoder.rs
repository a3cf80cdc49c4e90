use brotli_decompressor::bit_reader::BitReader;
use brotli_decompressor::entropy::{
    decode_symbol, EntropyDecoder, FalseBoolTrait, HuffmanDecoder, TrueBoolTrait,
};
use brotli_decompressor::huffman::builder::HuffmanTableBuilder;
use brotli_decompressor::huffman::HuffmanTable;
use brotli_decompressor::BrotliResult;

const A: u16 = 0;
const B: u16 = 1;
const C: u16 = 2;
const D: u16 = 3;

fn four_symbols() -> HuffmanTable {
    HuffmanTableBuilder::build(&[2, 1, 3, 3]).unwrap()
}

/// Packs bits, given in stream order, into bytes, lowest bit first.
fn pack(bits: &[u8]) -> Vec<u8> {
    let mut bytes = vec![0u8; (bits.len() + 7) / 8];
    for (i, bit) in bits.iter().enumerate() {
        if *bit != 0 {
            bytes[i / 8] |= 1 << (i % 8);
        }
    }
    bytes
}

/// The bits of the canonical codes of `symbols` under `lengths`.
fn encode(lengths: &[u8], symbols: &[u16]) -> Vec<u8> {
    let mut order: Vec<usize> = (0..lengths.len()).filter(|&s| lengths[s] != 0).collect();
    order.sort_by_key(|&s| (lengths[s], s));
    let mut codes = vec![0u32; lengths.len()];
    let mut next: u32 = 0;
    for &s in order.iter() {
        codes[s] = next >> (15 - lengths[s] as u32);
        next += 1 << (15 - lengths[s] as u32);
    }
    let mut bits = Vec::new();
    for &symbol in symbols {
        let len = lengths[symbol as usize] as u32;
        for i in 0..len {
            bits.push(((codes[symbol as usize] >> (len - 1 - i)) & 1) as u8);
        }
    }
    bits
}

#[test]
fn four_symbol_stream_decodes_in_order() {
    // B = 0, A = 10, C = 110, D = 111
    let bits = [0u8, 0, 1, 0, 1, 1, 0, 1, 1, 1];
    assert_eq!(encode(&[2, 1, 3, 3], &[B, B, A, C, D]), bits.to_vec());
    let input = pack(&bits);
    assert_eq!(input, vec![0b1011_0100, 0b0000_0011]);
    let tables = [four_symbols()];
    let mut decoder = HuffmanDecoder::default();
    let mut out = Vec::new();
    for _ in 0..5 {
        let (symbol, result) = decoder.get::<u16, FalseBoolTrait>(&tables, 0, &input, FalseBoolTrait {});
        assert_eq!(result, BrotliResult::ResultSuccess);
        out.push(symbol);
    }
    assert_eq!(out, vec![B, B, A, C, D]);
    // ten bits were consumed
    assert_eq!(decoder.br().available_bits() + 8 * (2 - decoder.br().byte_cursor() as u32), 6);
}

#[test]
fn decode_symbol_returns_value_and_status() {
    let table = four_symbols();
    let input = [0b0000_0110u8];
    let mut br = BitReader::new();
    assert_eq!(decode_symbol(&mut br, &table, &input), (B, BrotliResult::ResultSuccess));
    assert_eq!(decode_symbol(&mut br, &table, &input), (C, BrotliResult::ResultSuccess));
    assert_eq!(br.available_bits(), 4);
    assert_eq!(br.byte_cursor(), 1);
}

#[test]
fn needs_more_input_leaves_the_reader_unchanged() {
    let table = four_symbols();
    // B, then the first two bits of C or D
    let input = [0b0000_0110u8];
    let mut br = BitReader::new();
    assert!(br.pull_byte(&input));
    br.drop_bits(5);
    // three zero bits are left: B, B, B
    for _ in 0..3 {
        assert_eq!(decode_symbol(&mut br, &table, &input), (B, BrotliResult::ResultSuccess));
    }
    let before = br;
    assert_eq!(decode_symbol(&mut br, &table, &input), (0, BrotliResult::NeedsMoreInput));
    assert_eq!(br, before);
    assert_eq!(br.available_bits(), 0);
    assert_eq!(br.byte_cursor(), 1);
}

#[test]
fn a_code_cut_short_is_not_consumed() {
    let tables = [four_symbols()];
    // only the bits 1, 1 are left in the accumulator: the start of C or D
    let mut two = BitReader::new();
    assert!(two.pull_byte(&[0b1100_0000u8]));
    two.drop_bits(6);
    two.set_byte_cursor(0);
    let mut decoder = HuffmanDecoder::new(two);
    let empty: [u8; 0] = [];
    let before = *decoder.br();
    let (symbol, result) = decoder.get::<u16, TrueBoolTrait>(&tables, 0, &empty, TrueBoolTrait {});
    assert_eq!(result, BrotliResult::NeedsMoreInput);
    assert_eq!(symbol, 0);
    assert_eq!(*decoder.br(), before);
    assert_eq!(decoder.br().available_bits(), 2);
    assert_eq!(decoder.br().byte_cursor(), 0);
    // with one more byte the same call succeeds
    let more = [0b0000_0001u8];
    let (symbol, result) = decoder.get::<u16, TrueBoolTrait>(&tables, 0, &more, TrueBoolTrait {});
    assert_eq!(result, BrotliResult::ResultSuccess);
    assert_eq!(symbol, D);
}

fn sample_lengths() -> Vec<u8> {
    vec![3, 3, 3, 3, 3, 3, 4, 4, 5, 5, 5, 0, 9, 9, 10, 10, 10, 10, 8, 8, 8, 8, 7]
}

fn sample_symbols() -> Vec<u16> {
    vec![0, 14, 5, 22, 12, 13, 17, 6, 8, 10, 21, 18, 1, 15, 16, 2, 7, 9, 19, 20, 3, 4, 12, 17, 0, 0, 14]
}

fn decode_all(decoder: &mut HuffmanDecoder, tables: &[HuffmanTable], input: &[u8], out: &mut Vec<u16>, limit: usize) {
    while out.len() < limit {
        let (symbol, result) = decoder.get::<u16, FalseBoolTrait>(tables, 0, input, FalseBoolTrait {});
        if result != BrotliResult::ResultSuccess {
            assert_eq!(result, BrotliResult::NeedsMoreInput);
            return;
        }
        out.push(symbol);
    }
}

#[test]
fn whole_buffer_decodes_what_was_encoded() {
    let lengths = sample_lengths();
    let symbols = sample_symbols();
    let input = pack(&encode(&lengths, &symbols));
    let tables = [HuffmanTableBuilder::build(&lengths).unwrap()];
    let mut decoder = HuffmanDecoder::default();
    let mut out = Vec::new();
    decode_all(&mut decoder, &tables, &input, &mut out, symbols.len());
    assert_eq!(out, symbols);
}

#[test]
fn byte_by_byte_decodes_the_same_as_the_whole_buffer() {
    let lengths = sample_lengths();
    let symbols = sample_symbols();
    let input = pack(&encode(&lengths, &symbols));
    let tables = [HuffmanTableBuilder::build(&lengths).unwrap()];
    // the input grows by one byte at a time
    let mut decoder = HuffmanDecoder::default();
    let mut out = Vec::new();
    for end in 0..=input.len() {
        decode_all(&mut decoder, &tables, &input[..end], &mut out, symbols.len());
    }
    assert_eq!(out, symbols);
}

#[test]
fn separate_chunks_decode_the_same_as_the_whole_buffer() {
    let lengths = sample_lengths();
    let symbols = sample_symbols();
    let input = pack(&encode(&lengths, &symbols));
    let tables = [HuffmanTableBuilder::build(&lengths).unwrap()];
    for chunk_len in 1..=5usize {
        let mut decoder = HuffmanDecoder::default();
        let mut out = Vec::new();
        for chunk in input.chunks(chunk_len) {
            // a fresh slice: the reader starts at its first byte and keeps its bits
            decoder.bit_reader().set_byte_cursor(0);
            decode_all(&mut decoder, &tables, chunk, &mut out, symbols.len());
            // what the decoder left unread goes into the accumulator
            while decoder.bit_reader().pull_byte(chunk) {}
            assert_eq!(decoder.br().byte_cursor(), chunk.len());
        }
        let empty: [u8; 0] = [];
        decoder.bit_reader().set_byte_cursor(0);
        decode_all(&mut decoder, &tables, &empty, &mut out, symbols.len());
        assert_eq!(out, symbols);
    }
}

#[test]
fn aborted_attempts_leave_no_trace() {
    let lengths = sample_lengths();
    let symbols = sample_symbols();
    let input = pack(&encode(&lengths, &symbols));
    let tables = [HuffmanTableBuilder::build(&lengths).unwrap()];
    let mut decoder = HuffmanDecoder::default();
    let mut out = Vec::new();
    decode_all(&mut decoder, &tables, &input, &mut out, 4);
    let before = *decoder.br();
    let checkpoint = decoder.begin_speculative();
    let mut tried = Vec::new();
    decode_all(&mut decoder, &tables, &input, &mut tried, 7);
    assert_eq!(tried, symbols[4..11].to_vec());
    decoder.abort_speculative(checkpoint);
    assert_eq!(*decoder.br(), before);
    decode_all(&mut decoder, &tables, &input, &mut out, symbols.len());
    assert_eq!(out, symbols);
}

#[test]
fn abort_right_after_begin_changes_nothing() {
    let mut decoder = HuffmanDecoder::default();
    let input = [0x35u8, 0x9a];
    assert_eq!(decoder.warmup(&input), BrotliResult::ResultSuccess);
    let before = *decoder.br();
    let checkpoint = decoder.begin_speculative();
    decoder.abort_speculative(checkpoint);
    assert_eq!(*decoder.br(), before);
    let checkpoint = decoder.begin_speculative();
    decoder.commit_speculative();
    assert_eq!(*decoder.br(), before);
    decoder.abort_speculative(checkpoint);
    assert_eq!(*decoder.br(), before);
}

#[test]
fn placeholder_is_an_empty_reader() {
    let mut decoder = HuffmanDecoder::default();
    let input = [0x35u8, 0x9a];
    assert_eq!(decoder.warmup(&input), BrotliResult::ResultSuccess);
    let placeholder = decoder.placeholder();
    decoder.abort_speculative(placeholder);
    assert_eq!(*decoder.br(), BitReader::new());
}

#[test]
fn single_symbol_needs_no_input() {
    let tables = [HuffmanTableBuilder::build(&[0, 0, 0, 7]).unwrap()];
    let empty: [u8; 0] = [];
    let mut decoder = HuffmanDecoder::default();
    for _ in 0..3 {
        let (symbol, result) = decoder.get::<u8, FalseBoolTrait>(&tables, 0, &empty, FalseBoolTrait {});
        assert_eq!((symbol, result), (3u8, BrotliResult::ResultSuccess));
    }
    assert_eq!(*decoder.br(), BitReader::new());
    let input = [0xffu8, 0xff];
    let (symbol, result) = decoder.safe_get_stationary::<u8, FalseBoolTrait>(&tables[0], &input, FalseBoolTrait {});
    assert_eq!((symbol, result), (3u8, BrotliResult::ResultSuccess));
    assert_eq!(decoder.br().available_bits(), 16);
}

#[test]
fn empty_stream_needs_more_input() {
    let tables = [four_symbols()];
    let empty: [u8; 0] = [];
    let mut decoder = HuffmanDecoder::default();
    let (symbol, result) = decoder.get::<u16, FalseBoolTrait>(&tables, 0, &empty, FalseBoolTrait {});
    assert_eq!((symbol, result), (0, BrotliResult::NeedsMoreInput));
    assert_eq!(*decoder.br(), BitReader::new());
    assert_eq!(decoder.warmup(&empty), BrotliResult::NeedsMoreInput);
    assert_eq!(*decoder.br(), BitReader::new());
    assert_eq!(decoder.begin_metablock(&empty), BrotliResult::ResultSuccess);
}

#[test]
fn prior_selects_the_table() {
    let tables = [four_symbols(), HuffmanTableBuilder::build(&[1, 1]).unwrap()];
    let input = [0b0000_0011u8, 0];
    let mut decoder = HuffmanDecoder::default();
    let (symbol, _) = decoder.get::<u16, FalseBoolTrait>(&tables, 1, &input, FalseBoolTrait {});
    assert_eq!(symbol, 1);
    let (symbol, _) = decoder.get::<u16, FalseBoolTrait>(&tables, 0, &input, FalseBoolTrait {});
    assert_eq!(symbol, A);
    let (symbol, _) = decoder.get::<u16, FalseBoolTrait>(&tables, 1, &input, FalseBoolTrait {});
    assert_eq!(symbol, 0);
}

#[test]
fn symbols_narrow_to_bytes() {
    let mut lengths = vec![0u8; 300];
    lengths[299] = 1;
    lengths[44] = 1;
    let tables = [HuffmanTableBuilder::build(&lengths).unwrap()];
    let input = [0b0000_0001u8, 0];
    let mut decoder = HuffmanDecoder::default();
    let (symbol, _) = decoder.get::<u8, FalseBoolTrait>(&tables, 0, &input, FalseBoolTrait {});
    assert_eq!(symbol, (299 % 256) as u8);
    let mut decoder = HuffmanDecoder::default();
    let (symbol, _) = decoder.get::<u16, FalseBoolTrait>(&tables, 0, &input, FalseBoolTrait {});
    assert_eq!(symbol, 299);
}

#[test]
fn get_uniform_reads_plain_numbers() {
    let input = [0b1010_1100u8, 0x0f];
    let mut decoder = HuffmanDecoder::default();
    let before = *decoder.br();
    assert_eq!(
        decoder.get_uniform(0, &input, FalseBoolTrait {}),
        (0, BrotliResult::ResultSuccess)
    );
    assert_eq!(*decoder.br(), before);
    assert_eq!(
        decoder.get_uniform(4, &input, FalseBoolTrait {}),
        (0b1100, BrotliResult::ResultSuccess)
    );
    assert_eq!(
        decoder.get_uniform(8, &input, FalseBoolTrait {}),
        (0xfa, BrotliResult::ResultSuccess)
    );
    let before = *decoder.br();
    assert_eq!(
        decoder.get_uniform(5, &input, FalseBoolTrait {}),
        (0, BrotliResult::NeedsMoreInput)
    );
    assert_eq!(*decoder.br(), before);
    assert_eq!(
        decoder.get_uniform(4, &input, FalseBoolTrait {}),
        (0, BrotliResult::ResultSuccess)
    );
    let empty: [u8; 0] = [];
    assert_eq!(
        decoder.get_uniform(0, &empty, FalseBoolTrait {}),
        (0, BrotliResult::ResultSuccess)
    );
}

#[test]
fn fast_path_decodes_like_the_safe_path() {
    let lengths = sample_lengths();
    let symbols = sample_symbols();
    let mut input = pack(&encode(&lengths, &symbols));
    input.extend_from_slice(&[0, 0, 0, 0]);
    let table = HuffmanTableBuilder::build(&lengths).unwrap();
    let mut fast = HuffmanDecoder::default();
    let mut safe = HuffmanDecoder::default();
    for expected in symbols.iter() {
        assert!(fast.sufficient_bits(15, &input));
        let symbol: u16 = fast.get_stationary(&table, &input);
        let (other, result) = safe.safe_get_stationary::<u16, FalseBoolTrait>(&table, &input, FalseBoolTrait {});
        assert_eq!(result, BrotliResult::ResultSuccess);
        assert_eq!(symbol, *expected);
        assert_eq!(other, *expected);
        assert_eq!(*fast.br(), *safe.br());
    }
}

#[test]
fn preload_and_get_preloaded_decode_one_symbol() {
    let lengths = sample_lengths();
    let symbols = sample_symbols();
    let mut input = pack(&encode(&lengths, &symbols));
    input.extend_from_slice(&[0, 0, 0, 0]);
    let tables = [HuffmanTableBuilder::build(&lengths).unwrap()];
    let mut decoder = HuffmanDecoder::default();
    let mut direct = HuffmanDecoder::default();
    for expected in symbols.iter() {
        let preloaded = decoder.preload::<u16>(&tables, 0, &input);
        let symbol: u16 = decoder.get_preloaded(&tables, 0, preloaded, &input);
        assert_eq!(symbol, *expected);
        let (other, _) = direct.get::<u16, FalseBoolTrait>(&tables, 0, &input, FalseBoolTrait {});
        assert_eq!(other, *expected);
        assert_eq!(*decoder.br(), *direct.br());
    }
    // the first symbol has a code of three bits
    let mut decoder = HuffmanDecoder::default();
    assert_eq!(decoder.preload::<u16>(&tables, 0, &input), (3, 0));
}

#[test]
fn sufficient_bits_asks_the_reader() {
    let input = [1u8, 2];
    let mut decoder = HuffmanDecoder::default();
    assert!(decoder.sufficient_bits(16, &input));
    assert!(!decoder.sufficient_bits(17, &input));
    let mut out = Vec::new();
    assert_eq!(decoder.drain(&mut out), 0);
    assert_eq!(decoder.finish(&mut out), 0);
    assert!(out.is_empty());
}

#[test]
fn only_success_is_success() {
    assert!(BrotliResult::ResultSuccess.is_success());
    assert!(!BrotliResult::NeedsMoreInput.is_success());
    assert!(!BrotliResult::NeedsMoreOutput.is_success());
    assert!(!BrotliResult::ResultFailure.is_success());
}
