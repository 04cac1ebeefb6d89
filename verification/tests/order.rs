use rename_files::inventory::FileRecord;
use rename_files::order::selection_sort;

fn records(items: &[(&str, u64)]) -> Vec<FileRecord> {
    items.iter().map(|(name, time)| FileRecord::new(name, *time)).collect()
}

fn names(records: &[FileRecord]) -> Vec<String> {
    records.iter().map(|r| r.name.clone()).collect()
}

#[test]
fn sort_orders_by_timestamp() {
    let mut v = records(&[("c", 30), ("a", 10), ("d", 40), ("b", 20)]);
    selection_sort(&mut v);
    assert_eq!(v, records(&[("a", 10), ("b", 20), ("c", 30), ("d", 40)]));
}

#[test]
fn sort_of_empty_and_single() {
    let mut v: Vec<FileRecord> = Vec::new();
    selection_sort(&mut v);
    assert!(v.is_empty());
    let mut w = records(&[("only", 5)]);
    selection_sort(&mut w);
    assert_eq!(w, records(&[("only", 5)]));
}

#[test]
fn sort_keeps_name_and_time_together() {
    let mut v = records(&[("late.txt", u64::MAX), ("early.txt", 0), ("mid.txt", 77)]);
    selection_sort(&mut v);
    assert_eq!(v, records(&[("early.txt", 0), ("mid.txt", 77), ("late.txt", u64::MAX)]));
}

#[test]
fn sort_leaves_ascending_input_with_ties_alone() {
    let mut v = records(&[("a", 1), ("b", 1), ("c", 2), ("d", 2), ("e", 2)]);
    selection_sort(&mut v);
    assert_eq!(names(&v), ["a", "b", "c", "d", "e"]);
}

#[test]
fn sort_two_equal_timestamps_keep_scan_order() {
    let mut v = records(&[("first", 9), ("second", 9)]);
    selection_sort(&mut v);
    assert_eq!(names(&v), ["first", "second"]);
}

#[test]
fn sort_ties_follow_the_leftmost_minimum_not_a_stable_sort() {
    // The first pass exchanges "a" with "c" and so carries "a" behind "b".
    let mut v = records(&[("a", 2), ("b", 2), ("c", 1)]);
    selection_sort(&mut v);
    assert_eq!(names(&v), ["c", "b", "a"]);
}

#[test]
fn sort_picks_the_leftmost_of_equal_minima() {
    let mut v = records(&[("x", 5), ("m1", 1), ("y", 5), ("m2", 1)]);
    selection_sort(&mut v);
    assert_eq!(names(&v), ["m1", "m2", "y", "x"]);
}

#[test]
fn sort_is_a_permutation_in_ascending_order() {
    let mut v = records(&[("a", 7), ("b", 3), ("c", 7), ("d", 1), ("e", 3), ("f", 0), ("g", 9)]);
    let mut before = names(&v);
    selection_sort(&mut v);
    for pair in v.windows(2) {
        assert!(pair[0].timestamp <= pair[1].timestamp);
    }
    let mut after = names(&v);
    before.sort();
    after.sort();
    assert_eq!(before, after);
}

#[test]
fn duplicate_copies_name_and_time() {
    let r = FileRecord::new("a.txt", 42);
    let d = r.duplicate();
    assert_eq!(d.name, "a.txt");
    assert_eq!(d.timestamp, 42);
    assert_eq!(d, r);
}
