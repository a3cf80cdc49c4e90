//! Accounting of the bits read, by what they were read for.

use vstd::prelude::*;

verus! {

/// What a run of bits was read for.
#[derive(Debug, Clone, Copy, PartialEq, Eq, PartialOrd, Ord, Hash, Structural)]
pub enum Categories {
    Uncompressed,
    MetablockHeader,
    BlockTypeMetadata,
    LiteralContextMode,
    DistanceContextMode,
    LiteralHuffmanTable,
    InsertCopyHuffmanTable,
    DistanceHuffmanTable,
    Literals,
    ComplexLiterals,
    CopyLength,
    CopyDistance,
    DictLength,
    DictIndex,
    Misc,
}

/// Number of categories.
pub const NUM_CATEGORIES: usize = 15;

impl Categories {
    /// The place of the category in the order of its declaration.
    pub open spec fn spec_index(self) -> int {
        match self {
            Categories::Uncompressed => 0,
            Categories::MetablockHeader => 1,
            Categories::BlockTypeMetadata => 2,
            Categories::LiteralContextMode => 3,
            Categories::DistanceContextMode => 4,
            Categories::LiteralHuffmanTable => 5,
            Categories::InsertCopyHuffmanTable => 6,
            Categories::DistanceHuffmanTable => 7,
            Categories::Literals => 8,
            Categories::ComplexLiterals => 9,
            Categories::CopyLength => 10,
            Categories::CopyDistance => 11,
            Categories::DictLength => 12,
            Categories::DictIndex => 13,
            Categories::Misc => 14,
        }
    }

    /// The place of the category in the order of its declaration.
    pub fn index(&self) -> (r: usize)
        ensures
            r == self.spec_index(),
            r < NUM_CATEGORIES,
    {
        match self {
            Categories::Uncompressed => 0,
            Categories::MetablockHeader => 1,
            Categories::BlockTypeMetadata => 2,
            Categories::LiteralContextMode => 3,
            Categories::DistanceContextMode => 4,
            Categories::LiteralHuffmanTable => 5,
            Categories::InsertCopyHuffmanTable => 6,
            Categories::DistanceHuffmanTable => 7,
            Categories::Literals => 8,
            Categories::ComplexLiterals => 9,
            Categories::CopyLength => 10,
            Categories::CopyDistance => 11,
            Categories::DictLength => 12,
            Categories::DictIndex => 13,
            Categories::Misc => 14,
        }
    }

    /// The category at place `index`.
    pub fn from_index(index: usize) -> (r: Categories)
        requires
            index < NUM_CATEGORIES,
        ensures
            r.spec_index() == index,
    {
        if index == 0 {
            Categories::Uncompressed
        } else if index == 1 {
            Categories::MetablockHeader
        } else if index == 2 {
            Categories::BlockTypeMetadata
        } else if index == 3 {
            Categories::LiteralContextMode
        } else if index == 4 {
            Categories::DistanceContextMode
        } else if index == 5 {
            Categories::LiteralHuffmanTable
        } else if index == 6 {
            Categories::InsertCopyHuffmanTable
        } else if index == 7 {
            Categories::DistanceHuffmanTable
        } else if index == 8 {
            Categories::Literals
        } else if index == 9 {
            Categories::ComplexLiterals
        } else if index == 10 {
            Categories::CopyLength
        } else if index == 11 {
            Categories::CopyDistance
        } else if index == 12 {
            Categories::DictLength
        } else if index == 13 {
            Categories::DictIndex
        } else {
            Categories::Misc
        }
    }
}

/// A bill as plain values: the category that bits are charged to, and for
/// each category, by its place, the bits charged and not yet committed and
/// the bits committed. A category that was never charged has no entry.
pub struct BillingModel {
    pub category: Categories,
    pub pending: Seq<Option<u64>>,
    pub bill: Seq<Option<u64>>,
}

/// The amount of an entry, 0 where there is none.
pub open spec fn amount(entry: Option<u64>) -> nat {
    match entry {
        Some(v) => v as nat,
        None => 0,
    }
}

impl BillingModel {
    /// Both tables have a place for every category.
    pub open spec fn wf(self) -> bool {
        self.pending.len() == NUM_CATEGORIES && self.bill.len() == NUM_CATEGORIES
    }

    /// The bill after `count` bits were charged to the current category.
    pub open spec fn tally(self, count: u64) -> BillingModel {
        let at = self.category.spec_index();
        BillingModel {
            pending: self.pending.update(at, Some((amount(self.pending[at]) + count) as u64)),
            ..self
        }
    }

    /// The bill after the uncommitted bits of `old` were moved to `fixed`.
    pub open spec fn remap(self, old: Categories, fixed: Categories) -> BillingModel {
        let from = old.spec_index();
        let to = fixed.spec_index();
        let delta = amount(self.pending[from]);
        let cleared = if self.pending[from] is Some {
            self.pending.update(from, Some(0u64))
        } else {
            self.pending
        };
        if delta != 0 {
            BillingModel {
                pending: cleared.update(to, Some((amount(cleared[to]) + delta) as u64)),
                ..self
            }
        } else {
            BillingModel { pending: cleared, ..self }
        }
    }

    /// The committed entry of place `k` after a commit.
    pub open spec fn committed_entry(self, k: int) -> Option<u64> {
        if self.pending[k] is Some {
            Some((amount(self.bill[k]) + amount(self.pending[k])) as u64)
        } else {
            self.bill[k]
        }
    }

    /// The uncommitted entry of place `k` after a commit.
    pub open spec fn cleared_entry(self, k: int) -> Option<u64> {
        if self.pending[k] is Some {
            Some(0u64)
        } else {
            None
        }
    }

    /// The bill after everything uncommitted was committed.
    pub open spec fn commit(self) -> BillingModel {
        BillingModel {
            category: self.category,
            pending: Seq::new(NUM_CATEGORIES as nat, |k: int| self.cleared_entry(k)),
            bill: Seq::new(NUM_CATEGORIES as nat, |k: int| self.committed_entry(k)),
        }
    }

    /// No commit overflows a counter.
    pub open spec fn commit_fits(self) -> bool {
        forall|k: int|
            0 <= k < NUM_CATEGORIES ==> amount(#[trigger] self.bill[k]) + amount(self.pending[k])
                <= u64::MAX
    }

    /// The lines of the bill, in the order of the categories: for each
    /// category with a committed entry, the category and its bits.
    pub open spec fn lines(self, upto: int) -> Seq<(Categories, u64)>
        decreases upto,
    {
        if upto <= 0 {
            Seq::empty()
        } else {
            let before = self.lines(upto - 1);
            match self.bill[upto - 1] {
                Some(v) => before.push((category_at(upto - 1), v)),
                None => before,
            }
        }
    }
}

/// The category at place `k`.
pub open spec fn category_at(k: int) -> Categories {
    choose|c: Categories| c.spec_index() == k
}

/// The bill of a decoding session.
pub struct Billing {
    category: Categories,
    pending_bill: Vec<Option<u64>>,
    bill: Vec<Option<u64>>,
}

impl View for Billing {
    type V = BillingModel;

    closed spec fn view(&self) -> BillingModel {
        BillingModel { category: self.category, pending: self.pending_bill@, bill: self.bill@ }
    }
}

impl Default for Billing {
    fn default() -> (r: Billing)
        ensures
            r@.wf(),
            r@.category == Categories::Misc,
            forall|k: int| 0 <= k < NUM_CATEGORIES ==> #[trigger] r@.pending[k] is None,
            forall|k: int| 0 <= k < NUM_CATEGORIES ==> #[trigger] r@.bill[k] is None,
    {
        let mut pending_bill: Vec<Option<u64>> = Vec::new();
        let mut bill: Vec<Option<u64>> = Vec::new();
        let mut k: usize = 0;
        while k < NUM_CATEGORIES
            invariant
                k <= NUM_CATEGORIES,
                pending_bill@.len() == k,
                bill@.len() == k,
                forall|i: int| 0 <= i < k ==> #[trigger] pending_bill@[i] is None,
                forall|i: int| 0 <= i < k ==> #[trigger] bill@[i] is None,
            decreases NUM_CATEGORIES - k,
        {
            pending_bill.push(None);
            bill.push(None);
            k = k + 1;
        }
        Billing { category: Categories::Misc, pending_bill, bill }
    }
}

/// The amount of an entry, 0 where there is none.
fn amount_of(entry: &Option<u64>) -> (r: u64)
    ensures
        r == amount(*entry),
{
    match entry {
        Some(v) => *v,
        None => 0,
    }
}

impl Billing {
    /// The bill's invariant: a place for every category.
    pub open spec fn wf(&self) -> bool {
        self@.wf()
    }

    /// Whether `count` more bits fit the counter of the current category.
    pub fn can_tally(&self, count: u64) -> (r: bool)
        requires
            self.wf(),
        ensures
            r == (amount(self@.pending[self@.category.spec_index()]) + count <= u64::MAX),
    {
        let at: usize = self.category.index();
        amount_of(&self.pending_bill[at]) <= u64::MAX - count
    }

    /// Whether the uncommitted bits of `stale` fit the counter of `fixed`.
    pub fn can_remap(&self, stale: Categories, fixed: Categories) -> (r: bool)
        requires
            self.wf(),
        ensures
            r == (stale != fixed ==> amount(self@.pending[stale.spec_index()]) + amount(
                self@.pending[fixed.spec_index()],
            ) <= u64::MAX),
    {
        let from: usize = stale.index();
        let to: usize = fixed.index();
        if from == to {
            proof {
                lemma_category_at(stale);
                lemma_category_at(fixed);
            }
            return true;
        }
        amount_of(&self.pending_bill[from]) <= u64::MAX - amount_of(&self.pending_bill[to])
    }

    /// Whether every uncommitted entry fits its committed counter.
    pub fn can_commit(&self) -> (r: bool)
        requires
            self.wf(),
        ensures
            r == self@.commit_fits(),
    {
        let mut k: usize = 0;
        while k < NUM_CATEGORIES
            invariant
                k <= NUM_CATEGORIES,
                self.wf(),
                forall|i: int|
                    0 <= i < k ==> amount(#[trigger] self@.bill[i]) + amount(self@.pending[i])
                        <= u64::MAX,
            decreases NUM_CATEGORIES - k,
        {
            if amount_of(&self.bill[k]) > u64::MAX - amount_of(&self.pending_bill[k]) {
                return false;
            }
            k = k + 1;
        }
        true
    }

    /// Charges `count` bits to the current category.
    pub fn tally(&mut self, count: u64)
        requires
            old(self).wf(),
            amount(old(self)@.pending[old(self)@.category.spec_index()]) + count <= u64::MAX,
        ensures
            final(self)@ == old(self)@.tally(count),
            final(self).wf(),
    {
        let at: usize = self.category.index();
        let counter: u64 = amount_of(&self.pending_bill[at]);
        self.pending_bill.set(at, Some(counter + count));
    }

    /// Moves the uncommitted bits of `stale` to `fixed`.
    pub fn remap(&mut self, stale: Categories, fixed: Categories)
        requires
            old(self).wf(),
            stale != fixed ==> amount(old(self)@.pending[stale.spec_index()]) + amount(
                old(self)@.pending[fixed.spec_index()],
            ) <= u64::MAX,
        ensures
            final(self)@ == old(self)@.remap(stale, fixed),
            final(self).wf(),
    {
        let from: usize = stale.index();
        let to: usize = fixed.index();
        let mut delta: u64 = 0u64;
        match self.pending_bill[from] {
            Some(counter) => {
                delta = counter;
                self.pending_bill.set(from, Some(0));
            },
            None => {},
        }
        if delta != 0 {
            let counter: u64 = amount_of(&self.pending_bill[to]);
            self.pending_bill.set(to, Some(counter + delta));
        }
    }

    /// Commits what was charged: every uncommitted entry is added to the
    /// committed entry of its category and set to 0.
    pub fn commit(&mut self)
        requires
            old(self).wf(),
            old(self)@.commit_fits(),
        ensures
            final(self)@ == old(self)@.commit(),
            final(self).wf(),
    {
        let ghost start: BillingModel = self@;
        let mut k: usize = 0;
        while k < NUM_CATEGORIES
            invariant
                k <= NUM_CATEGORIES,
                start.wf(),
                start.commit_fits(),
                self@.wf(),
                self@.category == start.category,
                forall|i: int| 0 <= i < k ==> #[trigger] self@.bill[i] == start.committed_entry(i),
                forall|i: int|
                    0 <= i < k ==> #[trigger] self@.pending[i] == start.cleared_entry(i),
                forall|i: int| k <= i < NUM_CATEGORIES ==> #[trigger] self@.bill[i] == start.bill[i],
                forall|i: int|
                    k <= i < NUM_CATEGORIES ==> #[trigger] self@.pending[i] == start.pending[i],
            decreases NUM_CATEGORIES - k,
        {
            match self.pending_bill[k] {
                Some(v) => {
                    assert(amount(start.bill[k as int]) + amount(start.pending[k as int])
                        <= u64::MAX);
                    let counter: u64 = amount_of(&self.bill[k]);
                    self.bill.set(k, Some(counter + v));
                    self.pending_bill.set(k, Some(0));
                },
                None => {},
            }
            k = k + 1;
        }
        assert(self@.pending =~= start.commit().pending);
        assert(self@.bill =~= start.commit().bill);
    }

    /// Starts to charge to `categories`. Only from `Misc`.
    pub fn push_attrib(&mut self, categories: Categories)
        requires
            old(self)@.category == Categories::Misc,
        ensures
            final(self)@ == (BillingModel { category: categories, ..old(self)@ }),
    {
        self.category = categories;
    }

    /// Goes back to charging to `categories`. Not from `Misc`.
    pub fn restore_attrib(&mut self, categories: Categories)
        requires
            old(self)@.category != Categories::Misc,
        ensures
            final(self)@ == (BillingModel { category: categories, ..old(self)@ }),
    {
        self.category = categories;
    }

    /// Charges to `Misc` again.
    pub fn pop_attrib(&mut self)
        ensures
            final(self)@ == (BillingModel { category: Categories::Misc, ..old(self)@ }),
    {
        self.category = Categories::Misc;
    }

    /// The category that bits are charged to.
    pub fn get_attrib(&self) -> (r: Categories)
        ensures
            r == self@.category,
    {
        self.category
    }

    /// Commits, and returns the lines of the bill for the caller to
    /// print: for each category with an entry, the category and its bits.
    pub fn print(&mut self) -> (r: Vec<(Categories, u64)>)
        requires
            old(self).wf(),
            old(self)@.commit_fits(),
        ensures
            final(self)@ == old(self)@.commit(),
            r@ == final(self)@.lines(NUM_CATEGORIES as int),
    {
        self.commit();
        let mut rows: Vec<(Categories, u64)> = Vec::new();
        let mut k: usize = 0;
        while k < NUM_CATEGORIES
            invariant
                k <= NUM_CATEGORIES,
                self@.wf(),
                rows@ == self@.lines(k as int),
            decreases NUM_CATEGORIES - k,
        {
            match self.bill[k] {
                Some(v) => {
                    let c: Categories = Categories::from_index(k);
                    proof {
                        lemma_category_at(c);
                    }
                    rows.push((c, v));
                },
                None => {},
            }
            k = k + 1;
        }
        rows
    }
}

/// A category is the category at its place.
pub proof fn lemma_category_at(c: Categories)
    ensures
        category_at(c.spec_index()) == c,
{
    let d: Categories = category_at(c.spec_index());
    assert(d.spec_index() == c.spec_index());
}

} // verus!
