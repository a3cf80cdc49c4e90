use brotli_decompressor::entropy::{EntropyDecoder, FalseBoolTrait, HuffmanDecoder};
use brotli_decompressor::huffman::builder::HuffmanTableBuilder;
use brotli_decompressor::huffman::HuffmanTable;
use brotli_decompressor::BrotliResult;

// A reader of whole streams, written here on top of the library: it reads
// the headers of the meta-blocks and keeps the output, and asks the library
// for every table, every symbol and every run of bits.

struct Stream<'a> {
    decoder: HuffmanDecoder,
    input: &'a [u8],
}

type Step<T> = Result<T, BrotliResult>;

const CORRUPT: BrotliResult = BrotliResult::ResultFailure;

impl<'a> Stream<'a> {
    fn new(input: &'a [u8]) -> Stream<'a> {
        Stream { decoder: HuffmanDecoder::default(), input }
    }

    fn bits(&mut self, n: u8) -> Step<u32> {
        let (value, result) = self.decoder.get_uniform(n, self.input, FalseBoolTrait {});
        match result {
            BrotliResult::ResultSuccess => Ok(value),
            other => Err(other),
        }
    }

    fn symbol(&mut self, table: &HuffmanTable) -> Step<usize> {
        let (value, result) =
            self.decoder.safe_get_stationary::<u16, FalseBoolTrait>(table, self.input, FalseBoolTrait {});
        match result {
            BrotliResult::ResultSuccess => Ok(value as usize),
            other => Err(other),
        }
    }

    fn symbol_of(&mut self, tables: &[HuffmanTable], tree: u8) -> Step<usize> {
        let (value, result) =
            self.decoder.get::<u16, FalseBoolTrait>(tables, tree, self.input, FalseBoolTrait {});
        match result {
            BrotliResult::ResultSuccess => Ok(value as usize),
            other => Err(other),
        }
    }

    fn align(&mut self) -> Step<()> {
        let pad = (self.decoder.br().available_bits() % 8) as u8;
        if self.bits(pad)? != 0 {
            return Err(CORRUPT);
        }
        Ok(())
    }

    fn bytes_consumed(&self) -> usize {
        self.decoder.br().byte_cursor() - (self.decoder.br().available_bits() / 8) as usize
    }
}

fn table_of(lengths: &[u8]) -> Step<HuffmanTable> {
    HuffmanTableBuilder::build(lengths).map_err(|_| CORRUPT)
}

fn read_count(s: &mut Stream) -> Step<usize> {
    if s.bits(1)? == 0 {
        return Ok(1);
    }
    let n = s.bits(3)? as u8;
    if n == 0 {
        return Ok(2);
    }
    Ok((1usize << n) + 1 + s.bits(n)? as usize)
}

const CODE_LENGTH_ORDER: [usize; 18] = [1, 2, 3, 4, 0, 5, 17, 6, 16, 7, 8, 9, 10, 11, 12, 13, 14, 15];

fn read_code_length_length(s: &mut Stream) -> Step<u8> {
    let first = s.bits(2)?;
    if first == 0 {
        return Ok(0);
    }
    if first == 1 {
        return Ok(4);
    }
    if first == 2 {
        return Ok(3);
    }
    if s.bits(1)? == 0 {
        return Ok(2);
    }
    if s.bits(1)? == 0 {
        return Ok(1);
    }
    Ok(5)
}

fn read_prefix_code(s: &mut Stream, alphabet: usize) -> Step<HuffmanTable> {
    let skip = s.bits(2)? as usize;
    let mut lengths = vec![0u8; alphabet];
    if skip == 1 {
        let count = s.bits(2)? as usize + 1;
        let mut width: u8 = 0;
        while (1usize << width) < alphabet {
            width += 1;
        }
        let mut symbols = Vec::new();
        for _ in 0..count {
            let symbol = s.bits(width)? as usize;
            if symbol >= alphabet || symbols.contains(&symbol) {
                return Err(CORRUPT);
            }
            symbols.push(symbol);
        }
        match count {
            1 => lengths[symbols[0]] = 1,
            2 => {
                lengths[symbols[0]] = 1;
                lengths[symbols[1]] = 1;
            }
            3 => {
                lengths[symbols[0]] = 1;
                lengths[symbols[1]] = 2;
                lengths[symbols[2]] = 2;
            }
            _ => {
                if s.bits(1)? == 0 {
                    for symbol in symbols.iter() {
                        lengths[*symbol] = 2;
                    }
                } else {
                    lengths[symbols[0]] = 1;
                    lengths[symbols[1]] = 2;
                    lengths[symbols[2]] = 3;
                    lengths[symbols[3]] = 3;
                }
            }
        }
        return table_of(&lengths);
    }
    let mut code_length_lengths = [0u8; 18];
    let mut space: i32 = 32;
    let mut used = 0;
    for place in skip..18 {
        let length = read_code_length_length(s)?;
        code_length_lengths[CODE_LENGTH_ORDER[place]] = length;
        if length != 0 {
            space -= 32 >> length;
            used += 1;
            if space <= 0 {
                break;
            }
        }
    }
    if used != 1 && space != 0 {
        return Err(CORRUPT);
    }
    let code_lengths = table_of(&code_length_lengths)?;
    let mut at = 0;
    let mut previous: u8 = 8;
    let mut repeat: usize = 0;
    let mut repeat_length: u8 = 0;
    let mut space: i64 = 32768;
    while at < alphabet && space > 0 {
        let symbol = s.symbol(&code_lengths)?;
        if symbol < 16 {
            repeat = 0;
            lengths[at] = symbol as u8;
            at += 1;
            if symbol != 0 {
                previous = symbol as u8;
                space -= 32768 >> symbol;
            }
        } else {
            let extra: u8 = if symbol == 16 { 2 } else { 3 };
            let new_length = if symbol == 16 { previous } else { 0 };
            if repeat_length != new_length {
                repeat = 0;
                repeat_length = new_length;
            }
            let old = repeat;
            if repeat > 0 {
                repeat = (repeat - 2) << extra;
            }
            repeat += s.bits(extra)? as usize + 3;
            let delta = repeat - old;
            if at + delta > alphabet {
                return Err(CORRUPT);
            }
            for _ in 0..delta {
                lengths[at] = new_length;
                at += 1;
            }
            if new_length != 0 {
                space -= delta as i64 * (32768 >> new_length);
            }
        }
    }
    if space != 0 {
        return Err(CORRUPT);
    }
    table_of(&lengths)
}

fn read_context_map(s: &mut Stream, size: usize, trees: usize) -> Step<Vec<u8>> {
    if trees < 2 {
        return Ok(vec![0u8; size]);
    }
    let mut run_max = 0;
    if s.bits(1)? != 0 {
        run_max = s.bits(4)? as usize + 1;
    }
    let table = read_prefix_code(s, trees + run_max)?;
    let mut map = Vec::new();
    while map.len() < size {
        let symbol = s.symbol(&table)?;
        if symbol == 0 {
            map.push(0);
        } else if symbol <= run_max {
            let run = (1usize << symbol) + s.bits(symbol as u8)? as usize;
            if map.len() + run > size {
                return Err(CORRUPT);
            }
            for _ in 0..run {
                map.push(0);
            }
        } else {
            map.push((symbol - run_max) as u8);
        }
    }
    if s.bits(1)? != 0 {
        let mut front: Vec<u8> = (0..=255u8).collect();
        for entry in map.iter_mut() {
            let index = *entry as usize;
            let value = front.remove(index);
            front.insert(0, value);
            *entry = value;
        }
    }
    Ok(map)
}

const BLOCK_LENGTH: [(u32, u8); 26] = [
    (1, 2), (5, 2), (9, 2), (13, 2), (17, 3), (25, 3), (33, 3), (41, 3), (49, 4), (65, 4),
    (81, 4), (97, 4), (113, 5), (145, 5), (177, 5), (209, 5), (241, 6), (305, 6), (369, 7),
    (497, 8), (753, 9), (1265, 10), (2289, 11), (4385, 12), (8481, 13), (16673, 24),
];

const INSERT_LENGTH: [(u32, u8); 24] = [
    (0, 0), (1, 0), (2, 0), (3, 0), (4, 0), (5, 0), (6, 1), (8, 1), (10, 2), (14, 2), (18, 3),
    (26, 3), (34, 4), (50, 4), (66, 5), (98, 5), (130, 6), (194, 7), (322, 8), (578, 9),
    (1090, 10), (2114, 12), (6210, 14), (22594, 24),
];

const COPY_LENGTH: [(u32, u8); 24] = [
    (2, 0), (3, 0), (4, 0), (5, 0), (6, 0), (7, 0), (8, 0), (9, 0), (10, 1), (12, 1), (14, 2),
    (18, 2), (22, 3), (30, 3), (38, 4), (54, 4), (70, 5), (102, 5), (134, 6), (198, 7),
    (326, 8), (582, 9), (1094, 10), (2118, 24),
];

const CELL: [(usize, usize); 11] =
    [(0, 0), (0, 8), (0, 0), (0, 8), (8, 0), (8, 8), (0, 16), (16, 0), (8, 16), (16, 8), (16, 16)];

fn utf8_class_of_last(byte: u8) -> usize {
    const LOW: [u8; 128] = [
        0, 0, 0, 0, 0, 0, 0, 0, 0, 4, 4, 0, 0, 4, 0, 0, 0, 0, 0, 0, 0, 0, 0, 0, 0, 0, 0, 0, 0, 0,
        0, 0, 8, 12, 16, 12, 12, 20, 12, 16, 24, 28, 12, 12, 32, 12, 36, 12, 44, 44, 44, 44, 44,
        44, 44, 44, 44, 44, 32, 32, 24, 40, 28, 12, 12, 48, 52, 52, 52, 48, 52, 52, 52, 48, 52,
        52, 52, 52, 52, 48, 52, 52, 52, 52, 52, 48, 52, 52, 52, 52, 52, 24, 12, 28, 12, 12, 12,
        56, 60, 60, 60, 56, 60, 60, 60, 56, 60, 60, 60, 60, 60, 56, 60, 60, 60, 60, 60, 56, 60,
        60, 60, 60, 60, 24, 12, 28, 12, 0,
    ];
    if byte < 0x80 {
        LOW[byte as usize] as usize
    } else if byte < 0xc0 {
        (byte & 1) as usize
    } else {
        2 + (byte & 1) as usize
    }
}

fn utf8_class_of_second_last(byte: u8) -> usize {
    const LOW: [u8; 128] = [
        0, 0, 0, 0, 0, 0, 0, 0, 0, 0, 0, 0, 0, 0, 0, 0, 0, 0, 0, 0, 0, 0, 0, 0, 0, 0, 0, 0, 0, 0,
        0, 0, 0, 1, 1, 1, 1, 1, 1, 1, 1, 1, 1, 1, 1, 1, 1, 1, 2, 2, 2, 2, 2, 2, 2, 2, 2, 2, 1, 1,
        1, 1, 1, 1, 1, 2, 2, 2, 2, 2, 2, 2, 2, 2, 2, 2, 2, 2, 2, 2, 2, 2, 2, 2, 2, 2, 2, 2, 2, 2,
        2, 1, 1, 1, 1, 1, 1, 3, 3, 3, 3, 3, 3, 3, 3, 3, 3, 3, 3, 3, 3, 3, 3, 3, 3, 3, 3, 3, 3, 3,
        3, 3, 3, 1, 1, 1, 1, 0,
    ];
    if byte < 0x80 {
        LOW[byte as usize] as usize
    } else if byte < 0xe0 {
        0
    } else {
        2
    }
}

fn signed_class(byte: u8) -> usize {
    match byte {
        0 => 0,
        1..=15 => 1,
        16..=63 => 2,
        64..=127 => 3,
        128..=191 => 4,
        192..=239 => 5,
        240..=254 => 6,
        255 => 7,
    }
}

struct Blocks {
    kinds: usize,
    kind_table: Option<HuffmanTable>,
    length_table: Option<HuffmanTable>,
    left: u32,
    kind: usize,
    previous: usize,
}

impl Blocks {
    fn read(s: &mut Stream) -> Step<Blocks> {
        let kinds = read_count(s)?;
        let mut blocks =
            Blocks { kinds, kind_table: None, length_table: None, left: 1 << 24, kind: 0, previous: 1 };
        if kinds >= 2 {
            blocks.kind_table = Some(read_prefix_code(s, kinds + 2)?);
            let lengths = read_prefix_code(s, 26)?;
            let symbol = s.symbol(&lengths)?;
            blocks.left = BLOCK_LENGTH[symbol].0 + s.bits(BLOCK_LENGTH[symbol].1)?;
            blocks.length_table = Some(lengths);
        }
        Ok(blocks)
    }

    fn take(&mut self, s: &mut Stream) -> Step<()> {
        if self.left == 0 {
            let symbol = s.symbol(self.kind_table.as_ref().unwrap())?;
            let mut kind = match symbol {
                0 => self.previous,
                1 => self.kind + 1,
                other => other - 2,
            };
            if kind >= self.kinds {
                kind -= self.kinds;
            }
            self.previous = self.kind;
            self.kind = kind;
            let symbol = s.symbol(self.length_table.as_ref().unwrap())?;
            self.left = BLOCK_LENGTH[symbol].0 + s.bits(BLOCK_LENGTH[symbol].1)?;
        }
        self.left -= 1;
        Ok(())
    }
}

/// Decodes the stream `input` after the window `dictionary` into `output`,
/// and returns how many bytes of output it wrote.
fn decode(s: &mut Stream, dictionary: &[u8], output: &mut [u8]) -> Step<usize> {
    let mut window: Vec<u8> = dictionary.to_vec();
    let start = window.len();
    let window_bits = if s.bits(1)? == 0 {
        16
    } else {
        let n = s.bits(3)?;
        if n != 0 {
            17 + n
        } else {
            let n = s.bits(3)?;
            if n == 1 {
                return Err(CORRUPT);
            }
            if n != 0 { 8 + n } else { 17 }
        }
    };
    let window_size = (1usize << window_bits) - 16;
    let mut last_distances: [usize; 4] = [16, 15, 11, 4];
    loop {
        let is_last = s.bits(1)? != 0;
        if is_last && s.bits(1)? != 0 {
            break;
        }
        let nibbles_code = s.bits(2)?;
        if nibbles_code == 3 {
            if s.bits(1)? != 0 {
                return Err(CORRUPT);
            }
            let skip_bytes = s.bits(2)? as u8;
            let mut skip = 0;
            if skip_bytes != 0 {
                skip = s.bits(8 * skip_bytes)?;
                if skip_bytes > 1 && (skip >> (8 * (skip_bytes - 1))) == 0 {
                    return Err(CORRUPT);
                }
                skip += 1;
            }
            s.align()?;
            for _ in 0..skip {
                s.bits(8)?;
            }
            if is_last {
                break;
            }
            continue;
        }
        let nibbles = 4 + nibbles_code as u8;
        let mut length = s.bits(4 * nibbles)? as usize;
        if nibbles > 4 && (length >> (4 * (nibbles - 1))) == 0 {
            return Err(CORRUPT);
        }
        length += 1;
        if !is_last && s.bits(1)? != 0 {
            s.align()?;
            for _ in 0..length {
                let byte = s.bits(8)? as u8;
                if window.len() - start >= output.len() {
                    return Err(BrotliResult::NeedsMoreOutput);
                }
                output[window.len() - start] = byte;
                window.push(byte);
            }
            continue;
        }
        let mut literal_blocks = Blocks::read(s)?;
        let mut command_blocks = Blocks::read(s)?;
        let mut distance_blocks = Blocks::read(s)?;
        let postfix = s.bits(2)? as usize;
        let direct = (s.bits(4)? as usize) << postfix;
        let mut modes = Vec::new();
        for _ in 0..literal_blocks.kinds {
            modes.push(s.bits(2)?);
        }
        let literal_trees = read_count(s)?;
        let literal_map = read_context_map(s, 64 * literal_blocks.kinds, literal_trees)?;
        let distance_trees = read_count(s)?;
        let distance_map = read_context_map(s, 4 * distance_blocks.kinds, distance_trees)?;
        let mut literal_tables = Vec::new();
        for _ in 0..literal_trees {
            literal_tables.push(read_prefix_code(s, 256)?);
        }
        let mut command_tables = Vec::new();
        for _ in 0..command_blocks.kinds {
            command_tables.push(read_prefix_code(s, 704)?);
        }
        let mut distance_tables = Vec::new();
        for _ in 0..distance_trees {
            distance_tables.push(read_prefix_code(s, 16 + direct + (48 << postfix))?);
        }
        let mut produced = 0;
        while produced < length {
            command_blocks.take(s)?;
            let command = s.symbol_of(&command_tables, command_blocks.kind as u8)?;
            let cell = CELL[command >> 6];
            let insert_code = cell.0 + ((command >> 3) & 7);
            let copy_code = cell.1 + (command & 7);
            let insert = INSERT_LENGTH[insert_code].0 + s.bits(INSERT_LENGTH[insert_code].1)?;
            let copy = (COPY_LENGTH[copy_code].0 + s.bits(COPY_LENGTH[copy_code].1)?) as usize;
            for _ in 0..insert {
                literal_blocks.take(s)?;
                let written = window.len() - start;
                let last = if written >= 1 { window[window.len() - 1] } else { 0 };
                let second_last = if written >= 2 { window[window.len() - 2] } else { 0 };
                let context = match modes[literal_blocks.kind] {
                    0 => (last & 0x3f) as usize,
                    1 => (last >> 2) as usize,
                    2 => utf8_class_of_last(last) | utf8_class_of_second_last(second_last),
                    _ => (signed_class(last) << 3) | signed_class(second_last),
                };
                let tree = literal_map[literal_blocks.kind * 64 + context];
                let byte = s.symbol_of(&literal_tables, tree)? as u8;
                if produced >= length {
                    return Err(CORRUPT);
                }
                if written >= output.len() {
                    return Err(BrotliResult::NeedsMoreOutput);
                }
                output[written] = byte;
                window.push(byte);
                produced += 1;
            }
            if produced == length {
                break;
            }
            let code = if command < 128 {
                0
            } else {
                distance_blocks.take(s)?;
                let context = if copy < 5 { copy - 2 } else { 3 };
                let tree = distance_map[distance_blocks.kind * 4 + context];
                s.symbol_of(&distance_tables, tree)?
            };
            let distance = if code < 16 {
                const WHICH: [usize; 16] = [3, 2, 1, 0, 3, 3, 3, 3, 3, 3, 2, 2, 2, 2, 2, 2];
                const OFFSET: [i64; 16] = [0, 0, 0, 0, -1, 1, -2, 2, -3, 3, -1, 1, -2, 2, -3, 3];
                let distance = last_distances[WHICH[code]] as i64 + OFFSET[code];
                if distance <= 0 {
                    return Err(CORRUPT);
                }
                distance as usize
            } else if code < 16 + direct {
                code - 15
            } else {
                let index = code - direct - 16;
                let extra_bits = 1 + (index >> (postfix + 1));
                let extra = s.bits(extra_bits as u8)? as usize;
                let high = index >> postfix;
                let low = index & ((1 << postfix) - 1);
                let offset = ((2 + (high & 1)) << extra_bits) - 4;
                ((offset + extra) << postfix) + low + direct + 1
            };
            if distance > window.len() || distance > window_size {
                // a word of the static dictionary, which this reader does not have
                return Err(CORRUPT);
            }
            if code != 0 {
                last_distances = [last_distances[1], last_distances[2], last_distances[3], distance];
            }
            for _ in 0..copy {
                if produced >= length {
                    return Err(CORRUPT);
                }
                let written = window.len() - start;
                if written >= output.len() {
                    return Err(BrotliResult::NeedsMoreOutput);
                }
                let byte = window[window.len() - distance];
                output[written] = byte;
                window.push(byte);
                produced += 1;
            }
        }
        if is_last {
            break;
        }
    }
    Ok(window.len() - start)
}

fn oneshot_with_dictionary(
    input: &[u8],
    dictionary: &[u8],
    output: &mut [u8],
) -> (BrotliResult, usize, usize) {
    let mut stream = Stream::new(input);
    let mut written = 0;
    let result = {
        // the reader reports how far it came even where it stops early
        let mut counted = vec![0u8; output.len()];
        let outcome = decode(&mut stream, dictionary, &mut counted);
        match outcome {
            Ok(size) => {
                written = size;
                output[..size].copy_from_slice(&counted[..size]);
                BrotliResult::ResultSuccess
            }
            Err(stop) => stop,
        }
    };
    (result, stream.bytes_consumed(), written)
}

fn oneshot(input: &mut [u8], output: &mut [u8]) -> (BrotliResult, usize, usize) {
    oneshot_with_dictionary(input, &[], output)
}

fn decompress_custom_dict(input: &[u8], dictionary: Vec<u8>) -> Result<Vec<u8>, BrotliResult> {
    let mut size = 4096;
    loop {
        let mut output = vec![0u8; size];
        match oneshot_with_dictionary(input, &dictionary, &mut output) {
            (BrotliResult::ResultSuccess, _, written) => {
                output.truncate(written);
                return Ok(output);
            }
            (BrotliResult::NeedsMoreOutput, _, _) => size *= 2,
            (other, _, _) => return Err(other),
        }
    }
}

#[test]
fn test_10x10y() {
    const BUFFER_SIZE: usize = 2048;
    let mut input: [u8; 12] =
        [0x1b, 0x13, 0x00, 0x00, 0xa4, 0xb0, 0xb2, 0xea, 0x81, 0x47, 0x02, 0x8a];
    let mut output = [0u8; BUFFER_SIZE];
    let (result, input_offset, output_offset) = oneshot(&mut input[..], &mut output[..]);
    match result {
        BrotliResult::ResultSuccess => {}
        _ => assert!(false),
    }
    let mut i: usize = 0;
    while i < 10 {
        assert_eq!(output[i], 'X' as u8);
        assert_eq!(output[i + 10], 'Y' as u8);
        i += 1;
    }
    assert_eq!(output_offset, 20);
    assert_eq!(input_offset, input.len());
}

#[test]
fn test_x() {
    const BUFFER_SIZE: usize = 128;
    let mut input: [u8; 5] = [0x0b, 0x00, 0x80, 0x58, 0x03];
    let mut output = [0u8; BUFFER_SIZE];
    let (result, input_offset, output_offset) = oneshot(&mut input[..], &mut output[..]);
    match result {
        BrotliResult::ResultSuccess => {}
        _ => assert!(false),
    }
    assert_eq!(output[0], 'X' as u8);
    assert_eq!(output_offset, 1);
    assert_eq!(input_offset, input.len());
}

#[test]
fn test_corrupt_input_large_distance_code() {
    const BUFFER_SIZE: usize = 128;
    let mut input: [u8; 46] = [
        17, 139, 32, 255, 8, 0, 136, 255, 32, 46, 146, 32, 255, 255, 255, 255, 32, 32, 32, 32, 32,
        32, 32, 32, 32, 32, 32, 32, 32, 32, 32, 32, 32, 32, 32, 32, 32, 32, 32, 32, 32, 32, 32,
        32, 32, 32,
    ];
    let mut output = [0u8; BUFFER_SIZE];
    let (result, _, _) = oneshot(&mut input[..], &mut output[..]);
    match result {
        BrotliResult::ResultFailure => {}
        _ => assert!(false),
    }
}

#[test]
fn test_empty() {
    const BUFFER_SIZE: usize = 128;
    let mut input: [u8; 1] = [0x06];
    let mut output = [0u8; BUFFER_SIZE];
    let (result, input_offset, output_offset) = oneshot(&mut input[..], &mut output[..]);
    match result {
        BrotliResult::ResultSuccess => {}
        _ => assert!(false),
    }
    assert_eq!(output_offset, 0);
    assert_eq!(input_offset, input.len());
}

#[test]
fn test_run_out_of_writer_space() {
    // this is a valid compression of [0u8; 2048];
    let compression = [27, 255, 7, 0, 36, 0, 194, 177, 64, 114, 7];
    // output buffer doesn't have enough space
    let mut output_buffer = [0u8; 2047];
    let (result, _, _) = oneshot_with_dictionary(&compression, &[], &mut output_buffer[..]);
    let outcome: Result<(), BrotliResult> = match result {
        BrotliResult::ResultSuccess => Ok(()),
        other => Err(other),
    };
    outcome.unwrap_err();
}

#[test]
fn test_dict() {
    let patch: &[u8] = &[
        27, 103, 0, 96, 47, 14, 120, 211, 142, 228, 22, 15, 167, 193, 55, 28, 228, 226, 254, 54,
        10, 36, 226, 192, 19, 76, 50, 8, 169, 92, 9, 197, 47, 12, 211, 114, 34, 175, 18, 241, 122,
        134, 170, 32, 189, 4, 112, 153, 119, 12, 237, 23, 120, 130, 2,
    ];

    let dict: Vec<u8> = vec![
        2, 0, 0, 0, 0, 213, 195, 31, 121, 231, 225, 250, 238, 34, 174, 158, 246, 208, 145, 187,
        92, 2, 0, 0, 4, 0, 0, 0, 46, 0, 0, 0, 0, 0, 11, 123, 105, 100, 125, 46, 105, 102, 116, 95,
        116, 107, 20, 0, 0, 52, 40, 103, 221, 215, 223, 255, 95, 54, 15, 13, 85, 53, 206, 115,
        249, 165, 159, 159, 16, 29, 37, 17, 114, 1, 163, 2, 16, 33, 51, 4, 32, 0, 226, 29, 19, 88,
        254, 195, 129, 23, 25, 22, 8, 19, 21, 41, 130, 136, 51, 8, 67, 209, 52, 204, 204, 70, 199,
        130, 252, 47, 16, 40, 186, 251, 62, 63, 19, 236, 147, 240, 211, 215, 59,
    ];

    let res = decompress_custom_dict(patch, dict);

    assert!(res.is_ok(), "Unexpected error {:?}", res);
    let output = res.unwrap();
    assert_eq!(
        output,
        vec![
            0x02, 0x00, 0x00, 0x00, 0x00, 0x8c, 0x16, 0xa6, 0x25, 0x18, 0xf8, 0x68, 0x63, 0x4e,
            0xe4, 0x09, 0x2b, 0xa1, 0xe2, 0x4b, 0xba, 0x02, 0x00, 0x00, 0x03, 0x00, 0x00, 0x00,
            0x2e, 0x00, 0x00, 0x00, 0x00, 0x00, 0x0b, 0x7b, 0x69, 0x64, 0x7d, 0x2e, 0x69, 0x66,
            0x74, 0x5f, 0x74, 0x6b, 0x14, 0x00, 0x00, 0x38, 0x1d, 0x25, 0x11, 0x72, 0x01, 0xa3,
            0x02, 0x10, 0x21, 0x33, 0x04, 0x20, 0x00, 0xe2, 0x1d, 0x13, 0x58, 0xfe, 0xc3, 0x81,
            0x17, 0x19, 0x16, 0x08, 0x13, 0x15, 0x29, 0x82, 0x88, 0x33, 0x08, 0x43, 0xd1, 0x34,
            0xcc, 0xcc, 0x46, 0xc7, 0x82, 0xfc, 0x2f, 0x10, 0x28, 0xba, 0xfb, 0x3e, 0x3f, 0x13,
            0xec, 0x93, 0xf0, 0xd3, 0xd7, 0x3b,
        ]
    );
}

#[test]
fn test_dict_medium() {
    let br: &[u8] = &[
        27, 250, 0, 64, 44, 11, 108, 247, 52, 24, 142, 163, 204, 142, 80, 252, 182, 120, 165, 79,
        250, 13, 158, 3, 30, 234, 40, 250, 29, 20, 77, 120, 230, 200, 129, 115, 130, 14, 64, 215,
        56, 237, 122, 86, 138, 52, 110, 119, 30, 215, 82, 74, 30, 171, 105, 88, 99, 31, 14, 167,
        214, 226, 231, 246, 248, 42, 94, 190, 205, 223, 231, 243, 213, 253, 63, 108, 192, 137,
        120, 140, 143, 190, 202, 64, 147, 222, 31, 143, 132, 147, 173, 58, 1, 126, 218, 171, 171,
        199, 239, 64, 16, 232, 46, 13, 155, 237, 189, 161, 186, 4, 147, 245, 53, 148, 218, 183,
        80, 50, 59, 249, 130, 113, 103, 219, 228, 206, 36, 150, 127, 93, 210, 225, 40, 54, 247,
        51, 28, 139, 149, 194, 210, 171, 62, 190, 158, 203, 35, 87, 91, 43, 9, 5, 0, 28, 217, 82,
        157, 50, 63, 118, 229, 72, 167, 108, 155, 216, 214, 2, 116, 200, 103, 42, 194, 63, 159,
        85, 202, 72, 167, 142, 139, 27, 106, 104, 251, 151, 64, 122, 231, 226, 114, 39, 28, 49,
        117, 70, 13, 65, 119, 69, 181, 42, 87, 152, 223, 0,
    ];

    let mut dict: Vec<u8> = vec![0u8; 256];
    for (index, val) in dict[..].iter_mut().enumerate() {
        *val = index as u8;
    }

    let res = decompress_custom_dict(br, dict);

    assert!(res.is_ok(), "Unexpected error {:?}", res);
    let output = res.unwrap();
    assert_eq!(
        output,
        vec![
            148, 100, 52, 4, 5, 6, 7, 214, 165, 116, 67, 18, 225, 176, 127, 78, 29, 235, 185, 135,
            85, 35, 241, 191, 141, 91, 41, 247, 196, 145, 94, 43, 248, 197, 146, 95, 44, 249, 198,
            146, 94, 42, 246, 194, 142, 90, 38, 242, 190, 138, 85, 32, 235, 182, 129, 76, 23, 226,
            173, 120, 67, 13, 215, 161, 107, 53, 255, 201, 147, 93, 39, 241, 186, 131, 76, 21,
            222, 167, 112, 57, 2, 3, 4, 5, 6, 7, 8, 9, 10, 11, 12, 13, 14, 15, 16, 215, 158, 101,
            44, 243, 186, 129, 72, 15, 16, 17, 215, 157, 99, 41, 239, 181, 123, 65, 7, 8, 9, 10,
            11, 12, 13, 14, 15, 16, 17, 18, 19, 215, 155, 95, 35, 231, 171, 111, 51, 247, 187,
            127, 66, 5, 6, 7, 8, 9, 10, 11, 12, 13, 14, 15, 16, 17, 18, 19, 20, 21, 22, 216, 154,
            92, 29, 222, 159, 96, 33, 226, 163, 100, 37, 230, 167, 103, 39, 231, 167, 103, 39,
            231, 167, 103, 39, 231, 166, 101, 36, 227, 162, 97, 32, 223, 158, 93, 28, 218, 152,
            86, 20, 21, 22, 23, 24, 25, 26, 27, 216, 149, 82, 15, 16, 17, 18, 19, 20, 21, 22, 23,
            24, 25, 26, 27, 28, 29, 217, 149, 81, 13, 14, 15, 16, 17, 18, 19, 20, 21, 22, 23, 24,
            25, 26, 27, 28, 29, 30, 31, 217, 147, 77, 7, 8, 9, 10
        ]
    );
}
