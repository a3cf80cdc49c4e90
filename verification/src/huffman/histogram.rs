//! Frequencies of the symbols of an alphabet, packed for a table.

use vstd::prelude::*;

verus! {

/// A frequency out of `TOT_FREQ`.
pub type Freq = u16;

/// The binary logarithm of `TOT_FREQ`.
pub const TF_SHIFT: Freq = 12;

/// What the frequencies of an alphabet add up to.
pub const TOT_FREQ: Freq = 4096;

/// A symbol's place in a cumulative table: where its range starts, in the
/// low 16 bits, and its frequency, in the high 16 bits.
#[derive(Copy, Clone, Debug, PartialEq, Eq, Structural)]
pub struct HistEnt(pub u32);

impl Default for HistEnt {
    fn default() -> (r: HistEnt)
        ensures
            r.0 == 0,
    {
        HistEnt(0)
    }
}

impl HistEnt {
    /// The start of the symbol's range.
    pub open spec fn spec_start(self) -> nat {
        self.0 as nat % 65536
    }

    /// The symbol's frequency.
    pub open spec fn spec_freq(self) -> nat {
        self.0 as nat / 65536
    }

    /// The start of the symbol's range.
    pub fn start(&self) -> (r: Freq)
        ensures
            r == self.spec_start(),
    {
        (self.0 % 65536) as Freq
    }

    /// The symbol's frequency.
    pub fn freq(&self) -> (r: Freq)
        ensures
            r == self.spec_freq(),
    {
        (self.0 / 65536) as Freq
    }

    /// Sets the start of the symbol's range, keeps the frequency, and
    /// returns the new entry.
    pub fn set_start(&mut self, start: Freq) -> (r: HistEnt)
        ensures
            final(self).spec_start() == start,
            final(self).spec_freq() == old(self).spec_freq(),
            r == *final(self),
    {
        let high: u32 = self.0 / 65536;
        self.0 = high * 65536 + start as u32;
        *self
    }

    /// Sets the symbol's frequency, keeps the start of the range, and
    /// returns the new entry.
    pub fn set_freq(&mut self, freq: Freq) -> (r: HistEnt)
        ensures
            final(self).spec_freq() == freq,
            final(self).spec_start() == old(self).spec_start(),
            r == *final(self),
    {
        let low: u32 = self.0 % 65536;
        self.0 = freq as u32 * 65536 + low;
        *self
    }

    /// The entry packed in `data`.
    pub fn from(data: u32) -> (r: HistEnt)
        ensures
            r.0 == data,
    {
        HistEnt(data)
    }

    /// The entry as one word.
    pub fn into(self) -> (r: u32)
        ensures
            r == self.0,
    {
        self.0
    }
}

/// An alphabet, known by its size.
pub trait HistogramSpec: Default {
    /// Number of symbols of the alphabet.
    spec fn spec_alphabet_size() -> usize;

    /// Number of symbols of the alphabet.
    fn alphabet_size(&self) -> (r: usize)
        ensures
            r == Self::spec_alphabet_size(),
    ;
}

/// A probability as a fraction.
pub struct RationalProb {
    pub num: u16,
    pub denom: u16,
}

/// The alphabet of the prefixes of code lengths.
#[derive(Clone, Copy)]
pub struct CodeLengthPrefixSpec {}

impl Default for CodeLengthPrefixSpec {
    fn default() -> (r: CodeLengthPrefixSpec) {
        CodeLengthPrefixSpec {  }
    }
}

impl HistogramSpec for CodeLengthPrefixSpec {
    open spec fn spec_alphabet_size() -> usize {
        6
    }

    fn alphabet_size(&self) -> (r: usize) {
        6
    }
}

/// The alphabet of literal bytes.
#[derive(Clone, Copy)]
pub struct LiteralSpec {}

impl Default for LiteralSpec {
    fn default() -> (r: LiteralSpec) {
        LiteralSpec {  }
    }
}

impl HistogramSpec for LiteralSpec {
    open spec fn spec_alphabet_size() -> usize {
        256
    }

    fn alphabet_size(&self) -> (r: usize) {
        256
    }
}

/// The alphabet of context map entries: that of literal bytes.
pub type ContextMapSpec = LiteralSpec;

/// The alphabet of block lengths.
#[derive(Clone, Copy)]
pub struct BlockLenSpec {}

impl Default for BlockLenSpec {
    fn default() -> (r: BlockLenSpec) {
        BlockLenSpec {  }
    }
}

impl HistogramSpec for BlockLenSpec {
    open spec fn spec_alphabet_size() -> usize {
        26
    }

    fn alphabet_size(&self) -> (r: usize) {
        26
    }
}

/// The alphabet of block types.
#[derive(Clone, Copy)]
pub struct BlockTypeSpec {}

impl Default for BlockTypeSpec {
    fn default() -> (r: BlockTypeSpec) {
        BlockTypeSpec {  }
    }
}

impl HistogramSpec for BlockTypeSpec {
    open spec fn spec_alphabet_size() -> usize {
        258
    }

    fn alphabet_size(&self) -> (r: usize) {
        258
    }
}

/// The alphabet of distances.
#[derive(Clone, Copy)]
pub struct DistanceSpec {}

impl Default for DistanceSpec {
    fn default() -> (r: DistanceSpec) {
        DistanceSpec {  }
    }
}

impl HistogramSpec for DistanceSpec {
    open spec fn spec_alphabet_size() -> usize {
        704
    }

    fn alphabet_size(&self) -> (r: usize) {
        704
    }
}

/// The alphabet of block lengths, under its other name.
#[derive(Clone, Copy)]
pub struct BlockLengthSpec {}

impl Default for BlockLengthSpec {
    fn default() -> (r: BlockLengthSpec) {
        BlockLengthSpec {  }
    }
}

impl HistogramSpec for BlockLengthSpec {
    open spec fn spec_alphabet_size() -> usize {
        26
    }

    fn alphabet_size(&self) -> (r: usize) {
        26
    }
}

/// The alphabet of insert-and-copy lengths.
#[derive(Clone, Copy)]
pub struct InsertCopySpec {}

impl Default for InsertCopySpec {
    fn default() -> (r: InsertCopySpec) {
        InsertCopySpec {  }
    }
}

impl HistogramSpec for InsertCopySpec {
    open spec fn spec_alphabet_size() -> usize {
        704
    }

    fn alphabet_size(&self) -> (r: usize) {
        704
    }
}

/// The alphabet of code length symbols.
#[derive(Clone, Copy)]
pub struct CodeLengthSymbolSpec {}

impl Default for CodeLengthSymbolSpec {
    fn default() -> (r: CodeLengthSymbolSpec) {
        CodeLengthSymbolSpec {  }
    }
}

impl HistogramSpec for CodeLengthSymbolSpec {
    open spec fn spec_alphabet_size() -> usize {
        18
    }

    fn alphabet_size(&self) -> (r: usize) {
        18
    }
}

/// The frequency of `num` as a part of the frequency of `denom`, out of
/// `TOT_FREQ`: all of it where the two are equal, else the quotient rounded
/// up, less one. The part must come to more than one: `num` times
/// `TOT_FREQ` exceeds `denom`.
pub fn approx_freq(denom: HistEnt, num: HistEnt) -> (r: usize)
    requires
        denom.spec_freq() == num.spec_freq() || (denom.spec_freq() != 0 && num.spec_freq() * 4096
            > denom.spec_freq()),
    ensures
        denom.spec_freq() == num.spec_freq() ==> r == 4096,
        denom.spec_freq() != num.spec_freq() ==> r == (num.spec_freq() * 4096 + denom.spec_freq()
            - 1) / (denom.spec_freq() as int) - 1,
        denom.spec_freq() != num.spec_freq() ==> r * denom.spec_freq() < num.spec_freq() * 4096
            <= (r + 1) * denom.spec_freq(),
{
    let num_u16: Freq = num.freq();
    let denom_u16: Freq = denom.freq();
    if denom_u16 == num_u16 {
        return 4096;
    }
    let num_u32: u32 = num_u16 as u32 * 4096;
    let d: u32 = denom_u16 as u32;
    let mut ret: u32 = (num_u32 + (d - 1)) / d;
    proof {
        let n: int = num_u32 as int;
        let c: int = ret as int;
        vstd::arithmetic::div_mod::lemma_fundamental_div_mod(n + d - 1, d as int);
        let rem: int = (n + d - 1) % (d as int);
        assert(n + d - 1 == d * c + rem);
        assert(c >= 2) by (nonlinear_arith)
            requires
                n + d - 1 == d * c + rem,
                0 <= rem < d,
                n > d,
                d > 0,
        ;
        assert((c - 1) * d < n && n <= c * d) by (nonlinear_arith)
            requires
                n + d - 1 == d * c + rem,
                0 <= rem < d,
        ;
    }
    if ret > 1 {
        ret = ret - 1;
    }
    ret as usize
}

} // verus!
