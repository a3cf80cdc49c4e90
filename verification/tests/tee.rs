use brotli_decompressor::bit_reader::BitReader;
use brotli_decompressor::entropy::{
    EntropyDecoder, EntropyEncoder, FalseBoolTrait, HuffmanDecoder, NopEncoder, RecordingEncoder,
    SinkEvent, Tee, TrueBoolTrait,
};
use brotli_decompressor::huffman::builder::HuffmanTableBuilder;
use brotli_decompressor::BrotliResult;

fn sample_input() -> Vec<u8> {
    // B, B, A, C, D under the lengths 2, 1, 3, 3, then six zero bits
    vec![0b1011_0100, 0b0000_0011]
}

#[test]
fn tee_returns_what_the_source_returns() {
    let tables = [HuffmanTableBuilder::build(&[2, 1, 3, 3]).unwrap()];
    let input = sample_input();
    let mut direct = HuffmanDecoder::default();
    let mut tee = Tee::new(HuffmanDecoder::default(), RecordingEncoder::default());
    for _ in 0..12 {
        let plain = direct.get::<u16, FalseBoolTrait>(&tables, 0, &input, FalseBoolTrait {});
        let through = tee.get::<u16, FalseBoolTrait>(&tables, 0, &input, FalseBoolTrait {});
        assert_eq!(plain, through);
        assert_eq!(*tee.br(), *direct.br());
    }
    assert_eq!(*tee.decoder().br(), *direct.br());
}

#[test]
fn tee_hands_decoded_symbols_to_the_sink() {
    let tables = [HuffmanTableBuilder::build(&[2, 1, 3, 3]).unwrap()];
    let input = sample_input();
    let mut tee = Tee::new(HuffmanDecoder::default(), RecordingEncoder::default());
    let mut out = Vec::new();
    for _ in 0..5 {
        let (symbol, result) = tee.get::<u16, TrueBoolTrait>(&tables, 0, &input, TrueBoolTrait {});
        assert_eq!(result, BrotliResult::ResultSuccess);
        out.push(symbol);
    }
    assert_eq!(out, vec![1, 1, 0, 2, 3]);
    let expected: Vec<SinkEvent> = out
        .iter()
        .map(|s| SinkEvent::Put { prior: 0, symbol: *s as u64, speculative: true })
        .collect();
    assert_eq!(*tee.encoder().recorded(), expected);
}

#[test]
fn tee_hands_nothing_to_the_sink_without_a_symbol() {
    let tables = [HuffmanTableBuilder::build(&[2, 1, 3, 3]).unwrap()];
    let empty: [u8; 0] = [];
    let mut tee = Tee::new(HuffmanDecoder::default(), RecordingEncoder::default());
    let (symbol, result) = tee.get::<u16, FalseBoolTrait>(&tables, 0, &empty, FalseBoolTrait {});
    assert_eq!((symbol, result), (0, BrotliResult::NeedsMoreInput));
    let (symbol, result) = tee.safe_get_stationary::<u16, FalseBoolTrait>(&tables[0], &empty, FalseBoolTrait {});
    assert_eq!((symbol, result), (0, BrotliResult::NeedsMoreInput));
    assert_eq!(tee.get_uniform(3, &empty, FalseBoolTrait {}), (0, BrotliResult::NeedsMoreInput));
    assert!(tee.encoder().recorded().is_empty());
    assert_eq!(*tee.br(), BitReader::new());
}

#[test]
fn tee_forwards_every_kind_of_read() {
    let tables = [HuffmanTableBuilder::build(&[2, 1, 3, 3]).unwrap()];
    let input = [0b1011_0100u8, 0b0000_0011, 0xa5, 0, 0];
    let mut tee = Tee::new(HuffmanDecoder::default(), RecordingEncoder::default());
    let first: u16 = tee.get_stationary(&tables[0], &input);
    assert_eq!(first, 1);
    let (second, result) = tee.safe_get_stationary::<u8, TrueBoolTrait>(&tables[0], &input, TrueBoolTrait {});
    assert_eq!((second, result), (1, BrotliResult::ResultSuccess));
    let preloaded = tee.preload::<u16>(&tables, 0, &input);
    assert_eq!(preloaded, (2, 0));
    let third: u16 = tee.get_preloaded(&tables, 0, preloaded, &input);
    assert_eq!(third, 0);
    assert_eq!(tee.get_uniform(6, &input, FalseBoolTrait {}), (0b111111 & 0b111011, BrotliResult::ResultSuccess));
    assert_eq!(tee.get_uniform(0, &input, TrueBoolTrait {}), (0, BrotliResult::ResultSuccess));
    let expected = vec![
        SinkEvent::PutStationary { l1numbits: 8, symbol: 1, speculative: false },
        SinkEvent::PutStationary { l1numbits: 8, symbol: 1, speculative: true },
        SinkEvent::Put { prior: 0, symbol: 0, speculative: false },
        SinkEvent::PutUniform { nbits: 6, symbol: 0b111011, speculative: false },
        SinkEvent::PutUniform { nbits: 0, symbol: 0, speculative: true },
    ];
    assert_eq!(*tee.encoder().recorded(), expected);
}

#[test]
fn tee_brackets_speculation_in_the_sink() {
    let tables = [HuffmanTableBuilder::build(&[2, 1, 3, 3]).unwrap()];
    let input = sample_input();
    let mut tee = Tee::new(HuffmanDecoder::default(), RecordingEncoder::default());
    let before = *tee.br();
    let checkpoint = tee.begin_speculative();
    let (symbol, _) = tee.get::<u16, TrueBoolTrait>(&tables, 0, &input, TrueBoolTrait {});
    assert_eq!(symbol, 1);
    tee.abort_speculative(checkpoint);
    assert_eq!(*tee.br(), before);
    let _checkpoint = tee.begin_speculative();
    let (symbol, _) = tee.get::<u16, TrueBoolTrait>(&tables, 0, &input, TrueBoolTrait {});
    assert_eq!(symbol, 1);
    tee.commit_speculative();
    let expected = vec![
        SinkEvent::Begin,
        SinkEvent::Put { prior: 0, symbol: 1, speculative: true },
        SinkEvent::Abort,
        SinkEvent::Begin,
        SinkEvent::Put { prior: 0, symbol: 1, speculative: true },
        SinkEvent::Commit,
    ];
    let (decoder, encoder) = tee.into_parts();
    assert_eq!(*encoder.recorded(), expected);
    assert_eq!(decoder.br().available_bits(), 15);
}

#[test]
fn tee_with_the_sink_that_does_nothing() {
    let tables = [HuffmanTableBuilder::build(&[2, 1, 3, 3]).unwrap()];
    let input = sample_input();
    let mut direct = HuffmanDecoder::default();
    let mut tee = Tee::new(HuffmanDecoder::default(), NopEncoder::default());
    assert_eq!(tee.warmup(&input), direct.warmup(&input));
    assert_eq!(tee.begin_metablock(&input), BrotliResult::ResultSuccess);
    assert_eq!(tee.sufficient_bits(16, &input), direct.sufficient_bits(16, &input));
    for _ in 0..8 {
        let plain = direct.get::<u8, FalseBoolTrait>(&tables, 0, &input, FalseBoolTrait {});
        let through = tee.get::<u8, FalseBoolTrait>(&tables, 0, &input, FalseBoolTrait {});
        assert_eq!(plain, through);
    }
    let mut out = Vec::new();
    assert_eq!(tee.drain(&mut out), 0);
    assert_eq!(tee.finish(&mut out), 0);
    let placeholder = tee.placeholder();
    tee.abort_speculative(placeholder);
    assert_eq!(*tee.br(), BitReader::new());
}

#[test]
fn nop_encoder_takes_everything() {
    let tables = [HuffmanTableBuilder::build(&[1, 1]).unwrap()];
    let mut sink = NopEncoder::default();
    sink.begin_speculative();
    sink.put(&tables, 0, 1u8, TrueBoolTrait {});
    sink.put_stationary(&tables[0], 8, 1u16, FalseBoolTrait {});
    sink.put_uniform(3, 5, FalseBoolTrait {});
    sink.commit_speculative();
    sink.abort_speculative();
    let mut out = vec![1u8, 2];
    assert_eq!(sink.drain(&mut out), 0);
    assert_eq!(sink.finish(&mut out), 0);
    assert_eq!(out, vec![1u8, 2]);
}

#[test]
fn default_tee_starts_empty() {
    let tee: Tee<HuffmanDecoder, RecordingEncoder> = Tee::default();
    assert_eq!(*tee.br(), BitReader::new());
    assert!(tee.encoder().recorded().is_empty());
}
