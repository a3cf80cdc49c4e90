use brotli_decompressor::bit_reader::billing::{Billing, Categories};

#[test]
fn new_bill_charges_to_misc() {
    let mut bill = Billing::default();
    assert_eq!(bill.get_attrib(), Categories::Misc);
    assert!(bill.print().is_empty());
}

#[test]
fn tally_and_commit_add_up() {
    let mut bill = Billing::default();
    bill.push_attrib(Categories::Literals);
    assert_eq!(bill.get_attrib(), Categories::Literals);
    bill.tally(7);
    bill.tally(5);
    bill.restore_attrib(Categories::CopyLength);
    bill.tally(3);
    bill.pop_attrib();
    assert_eq!(bill.get_attrib(), Categories::Misc);
    bill.tally(1);
    assert_eq!(
        bill.print(),
        vec![(Categories::Literals, 12), (Categories::CopyLength, 3), (Categories::Misc, 1)]
    );
    // committed bits stay, and nothing is pending
    bill.tally(2);
    bill.commit();
    bill.commit();
    assert_eq!(
        bill.print(),
        vec![(Categories::Literals, 12), (Categories::CopyLength, 3), (Categories::Misc, 3)]
    );
}

#[test]
fn remap_moves_pending_bits() {
    let mut bill = Billing::default();
    bill.push_attrib(Categories::Literals);
    bill.tally(9);
    bill.remap(Categories::Literals, Categories::ComplexLiterals);
    bill.remap(Categories::DictIndex, Categories::DictLength);
    assert_eq!(
        bill.print(),
        vec![(Categories::Literals, 0), (Categories::ComplexLiterals, 9)]
    );
    // remapping a category to itself keeps its bits
    bill.tally(4);
    bill.remap(Categories::Literals, Categories::Literals);
    assert_eq!(
        bill.print(),
        vec![(Categories::Literals, 4), (Categories::ComplexLiterals, 9)]
    );
}

#[test]
fn a_tally_of_nothing_makes_an_entry() {
    let mut bill = Billing::default();
    bill.tally(0);
    assert_eq!(bill.print(), vec![(Categories::Misc, 0)]);
}

#[test]
fn categories_keep_their_order() {
    assert_eq!(Categories::Uncompressed.index(), 0);
    assert_eq!(Categories::Misc.index(), 14);
    for index in 0..15 {
        assert_eq!(Categories::from_index(index).index(), index);
    }
    assert!(Categories::Literals < Categories::ComplexLiterals);
}

#[test]
fn counters_are_guarded_against_overflow() {
    let mut bill = Billing::default();
    assert!(bill.can_tally(u64::MAX));
    bill.tally(u64::MAX - 1);
    assert!(bill.can_tally(1));
    assert!(!bill.can_tally(2));
    assert!(bill.can_commit());
    bill.commit();
    bill.tally(2);
    assert!(!bill.can_commit());
    bill.push_attrib(Categories::Literals);
    bill.tally(u64::MAX);
    assert!(!bill.can_remap(Categories::Misc, Categories::Literals));
    assert!(!bill.can_remap(Categories::Literals, Categories::Misc));
    assert!(bill.can_remap(Categories::Literals, Categories::Literals));
    assert!(bill.can_remap(Categories::Literals, Categories::CopyLength));
    assert!(bill.can_remap(Categories::DictIndex, Categories::Literals));
}
