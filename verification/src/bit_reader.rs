//! The windowed bit reader: a 64-bit accumulator of bits taken from the
//! caller's input slice, a cursor into that slice, and checkpoints that undo
//! a run of reads.
//!
//! Bits are numbered least significant first within a byte, and bytes are
//! taken in stream order, so the unread stream is the little-endian number
//! made of the buffered bits followed by the unread bytes.

use vstd::prelude::*;
use vstd::arithmetic::power2::{pow2, lemma_pow2_pos, lemma2_to64};
use crate::arith::{
    lemma_div_of_sum, lemma_div_pow2_bound, lemma_mask_is_mod, lemma_or_byte_is_add,
    lemma_pow2_monotone, lemma_pow2_split, lemma_shl_one, lemma_shr_is_div,
};

pub mod billing;

verus! {

/// The little-endian value of a run of bytes.
pub open spec fn le_value(bytes: Seq<u8>) -> nat
    decreases bytes.len(),
{
    if bytes.len() == 0 {
        0
    } else {
        bytes[0] as nat + 256 * le_value(bytes.drop_first())
    }
}

/// What a reader holds, as numbers.
pub struct ReaderState {
    /// The buffered bits, as a number below `2^count`.
    pub bits: nat,
    /// How many bits are buffered.
    pub count: nat,
    /// Index of the next unread byte of the input slice.
    pub cursor: nat,
}

impl ReaderState {
    /// The buffered bits fit the accumulator and nothing lies above them.
    pub open spec fn wf(self) -> bool {
        self.count <= 64 && self.bits < pow2(self.count)
    }

    /// The cursor lies within `input`.
    pub open spec fn fits(self, input: Seq<u8>) -> bool {
        self.cursor <= input.len()
    }

    /// Number of bits of the unread stream: buffered bits and unread bytes.
    pub open spec fn stream_len(self, input: Seq<u8>) -> nat {
        (self.count + 8 * (input.len() - self.cursor)) as nat
    }

    /// The unread stream as a little-endian number.
    pub open spec fn stream_value(self, input: Seq<u8>) -> nat {
        self.bits + pow2(self.count) * le_value(input.skip(self.cursor as int))
    }

    /// A byte can be moved from `input` into the accumulator.
    pub open spec fn can_pull(self, input: Seq<u8>) -> bool {
        self.cursor < input.len() && self.count <= 56
    }

    /// The state after one byte moved into the accumulator.
    pub open spec fn pull(self, input: Seq<u8>) -> ReaderState {
        ReaderState {
            bits: self.bits + input[self.cursor as int] as nat * pow2(self.count),
            count: self.count + 8,
            cursor: self.cursor + 1,
        }
    }

    /// The state after bytes were pulled, one at a time, until `n` bits are
    /// buffered or no byte can be pulled.
    pub open spec fn fill_to(self, n: nat, input: Seq<u8>) -> ReaderState
        decreases input.len() - self.cursor,
    {
        if self.count >= n || !self.can_pull(input) {
            self
        } else {
            self.pull(input).fill_to(n, input)
        }
    }

    /// The low `n` buffered bits.
    pub open spec fn peek(self, n: nat) -> nat {
        self.bits % pow2(n)
    }

    /// The state after the low `n` buffered bits were dropped.
    pub open spec fn drop_bits(self, n: nat) -> ReaderState {
        ReaderState { bits: self.bits / pow2(n), count: (self.count - n) as nat, cursor: self.cursor }
    }

    /// The state with the cursor moved to `cursor`.
    pub open spec fn with_cursor(self, cursor: nat) -> ReaderState {
        ReaderState { bits: self.bits, count: self.count, cursor: cursor }
    }
}

/// Pulling a byte leaves the unread stream as it was.
pub proof fn lemma_pull_keeps_stream(s: ReaderState, input: Seq<u8>)
    requires
        s.wf(),
        s.can_pull(input),
    ensures
        s.pull(input).wf(),
        s.pull(input).fits(input),
        s.pull(input).stream_len(input) == s.stream_len(input),
        s.pull(input).stream_value(input) == s.stream_value(input),
{
    let rest: Seq<u8> = input.skip(s.cursor as int);
    let b: nat = input[s.cursor as int] as nat;
    let tail: nat = le_value(input.skip(s.cursor as int + 1));
    assert(rest.drop_first() =~= input.skip(s.cursor as int + 1));
    assert(rest[0] == input[s.cursor as int]);
    assert(le_value(rest) == b + 256 * tail);
    lemma_pow2_split(s.count, 8);
    lemma2_to64();
    let p: nat = pow2(s.count);
    assert(pow2(s.count + 8) == p * 256);
    assert(p * (b + 256 * tail) == b * p + (p * 256) * tail) by (nonlinear_arith);
    assert(s.bits + b * p < p * 256) by (nonlinear_arith)
        requires
            s.bits < p,
            b <= 255,
    ;
    lemma_pow2_monotone(s.count + 8, 64);
}

/// Filling leaves the unread stream as it was, and stops only when enough
/// bits are buffered or the input is used up.
pub proof fn lemma_fill_keeps_stream(s: ReaderState, n: nat, input: Seq<u8>)
    requires
        s.wf(),
        s.fits(input),
        n <= 57,
    ensures
        s.fill_to(n, input).wf(),
        s.fill_to(n, input).fits(input),
        s.fill_to(n, input).stream_len(input) == s.stream_len(input),
        s.fill_to(n, input).stream_value(input) == s.stream_value(input),
        s.fill_to(n, input).count >= s.count,
        s.fill_to(n, input).count >= n || s.fill_to(n, input).cursor == input.len(),
        s.fill_to(n, input).count >= n <==> s.stream_len(input) >= n,
        s.count >= n ==> s.fill_to(n, input) == s,
    decreases input.len() - s.cursor,
{
    if s.count >= n || !s.can_pull(input) {
    } else {
        lemma_pull_keeps_stream(s, input);
        lemma_fill_keeps_stream(s.pull(input), n, input);
    }
}

/// The unread stream is below `2^stream_len`.
pub proof fn lemma_stream_bound(s: ReaderState, input: Seq<u8>)
    requires
        s.wf(),
        s.fits(input),
    ensures
        s.stream_value(input) < pow2(s.stream_len(input)),
    decreases input.len() - s.cursor,
{
    if s.cursor == input.len() {
        assert(input.skip(s.cursor as int).len() == 0);
        assert(s.stream_value(input) == s.bits) by (nonlinear_arith)
            requires
                s.stream_value(input) == s.bits + pow2(s.count) * 0,
        ;
    } else {
        let rest: Seq<u8> = input.skip(s.cursor as int);
        let b: nat = input[s.cursor as int] as nat;
        let next: ReaderState = ReaderState { bits: 0, count: 0, cursor: s.cursor + 1 };
        lemma2_to64();
        lemma_stream_bound(next, input);
        let tail: nat = le_value(input.skip(s.cursor as int + 1));
        assert(rest.drop_first() =~= input.skip(s.cursor as int + 1));
        assert(le_value(rest) == b + 256 * tail);
        let m: nat = (8 * (input.len() - s.cursor - 1)) as nat;
        assert(next.stream_len(input) == m);
        assert(next.stream_value(input) == tail) by (nonlinear_arith)
            requires
                next.stream_value(input) == 0 + 1 * tail,
        ;
        lemma_pow2_split(8, m);
        lemma_pow2_split(s.count, 8 + m);
        let p: nat = pow2(s.count);
        let q: nat = pow2(m);
        assert(s.bits + p * (b + 256 * tail) < p * (256 * q)) by (nonlinear_arith)
            requires
                s.bits < p,
                b <= 255,
                tail < q,
        ;
        assert(s.stream_len(input) == s.count + (8 + m));
    }
}

/// Dropping `n` buffered bits takes the low `n` bits off the unread stream.
pub proof fn lemma_drop_advances_stream(s: ReaderState, n: nat, input: Seq<u8>)
    requires
        s.wf(),
        s.fits(input),
        n <= s.count,
    ensures
        s.drop_bits(n).wf(),
        s.drop_bits(n).fits(input),
        s.drop_bits(n).stream_len(input) == s.stream_len(input) - n,
        s.drop_bits(n).stream_value(input) == s.stream_value(input) / pow2(n),
        s.peek(n) == s.stream_value(input) % pow2(n),
{
    let hi: nat = le_value(input.skip(s.cursor as int));
    lemma_div_of_sum(s.bits, hi, s.count, n);
    lemma_div_pow2_bound(s.bits, s.count, n);
}

/// Peeking `n` bits gives the low `n` bits of the unread stream, once `n`
/// bits are buffered or the input is used up.
pub proof fn lemma_peek_is_stream(s: ReaderState, n: nat, input: Seq<u8>)
    requires
        s.wf(),
        s.fits(input),
        n <= s.count || s.cursor == input.len(),
    ensures
        s.peek(n) == s.stream_value(input) % pow2(n),
{
    if n <= s.count {
        lemma_drop_advances_stream(s, n, input);
    } else {
        assert(input.skip(s.cursor as int).len() == 0);
        assert(s.stream_value(input) == s.bits) by (nonlinear_arith)
            requires
                s.stream_value(input) == s.bits + pow2(s.count) * 0,
        ;
    }
}

/// A saved position of a reader, to give back once: to `commit_speculative`
/// or to `abort_speculative`.
#[derive(Debug, PartialEq, Eq, Structural)]
pub struct SpeculativeCheckpoint {
    buffered_bits: u64,
    bit_count: u32,
    byte_cursor: usize,
}

impl View for SpeculativeCheckpoint {
    type V = ReaderState;

    closed spec fn view(&self) -> ReaderState {
        ReaderState {
            bits: self.buffered_bits as nat,
            count: self.bit_count as nat,
            cursor: self.byte_cursor as nat,
        }
    }
}

/// The bit reader.
#[derive(Clone, Copy, Debug, PartialEq, Eq, Structural)]
pub struct BitReader {
    buffered_bits: u64,
    bit_count: u32,
    byte_cursor: usize,
}

impl View for BitReader {
    type V = ReaderState;

    closed spec fn view(&self) -> ReaderState {
        ReaderState {
            bits: self.buffered_bits as nat,
            count: self.bit_count as nat,
            cursor: self.byte_cursor as nat,
        }
    }
}

impl BitReader {
    /// The reader's invariant: at most 64 bits are buffered, and the
    /// accumulator is zero above them.
    pub open spec fn wf(&self) -> bool {
        self@.wf()
    }

    /// Two readers with the same state are the same reader.
    pub proof fn lemma_view_determines(a: BitReader, b: BitReader)
        requires
            a@ == b@,
        ensures
            a == b,
    {
    }

    /// An empty reader at the start of its input.
    pub fn new() -> (r: BitReader)
        ensures
            r.wf(),
            r@ == (ReaderState { bits: 0, count: 0, cursor: 0 }),
    {
        proof {
            lemma2_to64();
        }
        BitReader { buffered_bits: 0, bit_count: 0, byte_cursor: 0 }
    }

    /// Number of buffered bits not yet consumed.
    pub fn available_bits(&self) -> (r: u32)
        ensures
            r == self@.count,
    {
        self.bit_count
    }

    /// Index of the next unread byte of the input slice.
    pub fn byte_cursor(&self) -> (r: usize)
        ensures
            r == self@.cursor,
    {
        self.byte_cursor
    }

    /// The accumulator: the buffered bits, lowest first.
    pub fn buffered_bits(&self) -> (r: u64)
        ensures
            r == self@.bits,
    {
        self.buffered_bits
    }

    /// Points the reader at another position of the input, for a caller that
    /// hands over a new slice. The buffered bits stay.
    pub fn set_byte_cursor(&mut self, cursor: usize)
        ensures
            final(self)@ == old(self)@.with_cursor(cursor as nat),
    {
        self.byte_cursor = cursor;
    }

    /// Moves one byte from `input` into the accumulator, if one is unread
    /// and eight more bits fit. Returns whether it did.
    pub fn pull_byte(&mut self, input: &[u8]) -> (r: bool)
        requires
            old(self).wf(),
        ensures
            r == old(self)@.can_pull(input@),
            r ==> final(self)@ == old(self)@.pull(input@),
            !r ==> *final(self) == *old(self),
            final(self).wf(),
    {
        if self.byte_cursor >= input.len() || self.bit_count > 56 {
            return false;
        }
        let b: u8 = input[self.byte_cursor];
        proof {
            lemma_or_byte_is_add(self.buffered_bits, b, self.bit_count as u64);
            lemma_pow2_monotone((self.bit_count + 8) as nat, 64);
            lemma2_to64();
        }
        self.buffered_bits = self.buffered_bits | ((b as u64) << (self.bit_count as u64));
        self.bit_count = self.bit_count + 8;
        self.byte_cursor = self.byte_cursor + 1;
        true
    }

    /// Pulls bytes until `n` bits are buffered or none can be pulled.
    pub fn fill_to(&mut self, n: u32, input: &[u8])
        requires
            old(self).wf(),
            old(self)@.fits(input@),
        ensures
            final(self)@ == old(self)@.fill_to(n as nat, input@),
            final(self).wf(),
            final(self)@.fits(input@),
    {
        let ghost start: ReaderState = self@;
        while self.bit_count < n
            invariant
                self.wf(),
                self@.fits(input@),
                self@.fill_to(n as nat, input@) == start.fill_to(n as nat, input@),
            ensures
                self@ == start.fill_to(n as nat, input@),
            decreases input@.len() - self@.cursor,
        {
            proof {
                if self@.can_pull(input@) {
                    lemma_pull_keeps_stream(self@, input@);
                }
            }
            if !self.pull_byte(input) {
                break;
            }
        }
    }

    /// The low `n` buffered bits, with zeros where fewer are buffered.
    pub fn peek_bits(&self, n: u32) -> (r: u32)
        requires
            self.wf(),
            n <= 32,
        ensures
            r == self@.peek(n as nat),
    {
        proof {
            lemma_mask_is_mod(self.buffered_bits, n as u64);
            lemma_shl_one(n as u64);
            lemma_pow2_monotone(n as nat, 32);
            lemma2_to64();
            lemma_pow2_pos(n as nat);
        }
        let mask: u64 = (1u64 << (n as u64)) - 1;
        (self.buffered_bits & mask) as u32
    }

    /// Drops the low `n` buffered bits.
    pub fn drop_bits(&mut self, n: u32)
        requires
            old(self).wf(),
            n <= old(self)@.count,
        ensures
            final(self)@ == old(self)@.drop_bits(n as nat),
            final(self).wf(),
    {
        proof {
            lemma_div_pow2_bound(self@.bits, self@.count, n as nat);
        }
        if n >= 64 {
            proof {
                lemma2_to64();
                assert(self@.bits / pow2(64) == 0);
            }
            self.buffered_bits = 0;
            self.bit_count = 0;
        } else {
            proof {
                lemma_shr_is_div(self.buffered_bits, n as u64);
            }
            self.buffered_bits = self.buffered_bits >> (n as u64);
            self.bit_count = self.bit_count - n;
        }
    }

    /// Whether the unread stream, buffered bits and unread bytes together,
    /// holds at least `n` bits.
    pub fn sufficient_bits(&self, n: u32, input: &[u8]) -> (r: bool)
        requires
            self.wf(),
            self@.fits(input@),
        ensures
            r == (self@.stream_len(input@) >= n),
    {
        if self.bit_count >= n {
            return true;
        }
        let missing: u32 = n - self.bit_count;
        let left: usize = input.len() - self.byte_cursor;
        // `missing` bits need `ceil(missing / 8)` bytes
        left >= ((missing - 1) / 8 + 1) as usize
    }

    /// Makes sure that at least one bit is buffered, pulling one byte if the
    /// accumulator is empty. Returns false, with the reader as it was, when
    /// the accumulator is empty and no byte is left to pull.
    pub fn warmup(&mut self, input: &[u8]) -> (r: bool)
        requires
            old(self).wf(),
            old(self)@.fits(input@),
        ensures
            r == (old(self)@.stream_len(input@) > 0),
            final(self)@ == old(self)@.fill_to(1, input@),
            !r ==> *final(self) == *old(self),
            r ==> final(self)@.count > 0,
            final(self).wf(),
            final(self)@.fits(input@),
    {
        proof {
            lemma_fill_keeps_stream(self@, 1, input@);
            if self@.count == 0 && self@.can_pull(input@) {
                lemma_pull_keeps_stream(self@, input@);
                assert(self@.pull(input@).fill_to(1, input@) == self@.pull(input@));
            }
        }
        if self.bit_count == 0 {
            if !self.pull_byte(input) {
                return false;
            }
        }
        true
    }

    /// Reads `n` bits into `val` and consumes them. Returns false, and
    /// changes neither the reader nor `val`, when the unread stream is
    /// shorter than `n` bits: the caller then needs more input.
    pub fn safe_read_bits(&mut self, n: u32, val: &mut u32, input: &[u8]) -> (r: bool)
        requires
            old(self).wf(),
            old(self)@.fits(input@),
            n <= 32,
        ensures
            r == (old(self)@.stream_len(input@) >= n),
            r ==> *final(val) == old(self)@.stream_value(input@) % pow2(n as nat),
            r ==> final(self)@ == old(self)@.fill_to(n as nat, input@).drop_bits(n as nat),
            r ==> final(self)@.stream_value(input@) == old(self)@.stream_value(input@) / pow2(n as nat),
            r ==> final(self)@.stream_len(input@) == old(self)@.stream_len(input@) - n,
            !r ==> *final(self) == *old(self) && *final(val) == *old(val),
            final(self).wf(),
            final(self)@.fits(input@),
    {
        let saved: SpeculativeCheckpoint = self.begin_speculative();
        proof {
            lemma_fill_keeps_stream(self@, n as nat, input@);
        }
        self.fill_to(n, input);
        if self.bit_count < n {
            self.abort_speculative(saved);
            return false;
        }
        proof {
            lemma_drop_advances_stream(self@, n as nat, input@);
        }
        *val = self.peek_bits(n);
        self.drop_bits(n);
        true
    }

    /// Saves the reader's position.
    pub fn begin_speculative(&self) -> (c: SpeculativeCheckpoint)
        ensures
            c@ == self@,
    {
        SpeculativeCheckpoint {
            buffered_bits: self.buffered_bits,
            bit_count: self.bit_count,
            byte_cursor: self.byte_cursor,
        }
    }

    /// Keeps what was read since the checkpoint was taken: the reader stays
    /// as it is and the checkpoint is used up.
    pub fn commit_speculative(&mut self, checkpoint: SpeculativeCheckpoint)
        ensures
            *final(self) == *old(self),
    {
    }

    /// Returns to the position saved in `checkpoint`, which is used up.
    pub fn abort_speculative(&mut self, checkpoint: SpeculativeCheckpoint)
        ensures
            final(self)@ == checkpoint@,
    {
        self.buffered_bits = checkpoint.buffered_bits;
        self.bit_count = checkpoint.bit_count;
        self.byte_cursor = checkpoint.byte_cursor;
    }
}

/// A reader that returns to a checkpoint taken from it is the reader it
/// was, bit for bit, whatever it read in between: `checkpoint` is what
/// `begin_speculative` gave for `before`, and `after` is what
/// `abort_speculative` left.
pub proof fn lemma_abort_restores(
    before: BitReader,
    checkpoint: SpeculativeCheckpoint,
    after: BitReader,
)
    requires
        checkpoint@ == before@,
        after@ == checkpoint@,
    ensures
        after == before,
{
    BitReader::lemma_view_determines(after, before);
}

} // verus!
