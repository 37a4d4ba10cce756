use wazm::RangeVec;
use wazm::RangeVecEntry::{RangeEntry, SingleEntry};

#[test]
fn test_to_ranges() {
    let ranges = RangeVec::from(&vec![1, 2, 4, 5, 7, 9, 10]);
    assert_eq!(
        ranges,
        RangeVec(vec![RangeEntry(1, 2), RangeEntry(4, 5), SingleEntry(7), RangeEntry(9, 10)])
    );
}

#[test]
fn test_to_ranges_end_single() {
    let ranges = RangeVec::from(&vec![1, 2, 4, 5, 7, 9]);
    assert_eq!(
        ranges,
        RangeVec(vec![RangeEntry(1, 2), RangeEntry(4, 5), SingleEntry(7), SingleEntry(9)])
    );
}

#[test]
fn ranges_of_empty_list() {
    let ranges = RangeVec::from(&vec![]);
    assert_eq!(ranges, RangeVec(vec![]));
    assert_eq!(ranges.to_text(), "[]");
}

#[test]
fn ranges_of_single_value() {
    let ranges = RangeVec::from(&vec![42]);
    assert_eq!(ranges, RangeVec(vec![SingleEntry(42)]));
}

#[test]
fn ranges_of_one_run() {
    let ranges = RangeVec::from(&vec![3, 4, 5, 6]);
    assert_eq!(ranges, RangeVec(vec![RangeEntry(3, 6)]));
}

#[test]
fn ranges_text_groups() {
    let ranges = RangeVec::from(&vec![1, 2, 4, 5, 7, 9, 10]);
    assert_eq!(ranges.to_text(), "[1..2, 4..5, 7, 9..10]");
    let ranges = RangeVec::from(&vec![1, 2, 4, 5, 7, 9]);
    assert_eq!(ranges.to_text(), "[1..2, 4..5, 7, 9]");
}

#[test]
fn ranges_with_largest_index() {
    let ranges = RangeVec::from(&vec![usize::MAX - 1, usize::MAX]);
    assert_eq!(ranges, RangeVec(vec![RangeEntry(usize::MAX - 1, usize::MAX)]));
}
