use rename_files::inventory::{collect, older_time, FileRecord, ScannedEntry};

fn entry(name: &str, regular: bool, created: u64, modified: u64) -> ScannedEntry {
    ScannedEntry { name: name.to_string(), regular, created, modified }
}

#[test]
fn older_time_is_the_minimum() {
    assert_eq!(older_time(10, 20), 10);
    assert_eq!(older_time(20, 10), 10);
    assert_eq!(older_time(15, 15), 15);
    assert_eq!(older_time(0, u64::MAX), 0);
}

#[test]
fn collect_keeps_regular_files_in_scan_order() {
    let entries = vec![
        entry("b.png", true, 200, 150),
        entry("sub", false, 1, 1),
        entry("a.txt", true, 100, 300),
        entry("link", false, 0, 0),
        entry("README", true, 5, 5),
    ];
    let inventory = collect(&entries);
    assert_eq!(
        inventory,
        vec![
            FileRecord::new("b.png", 150),
            FileRecord::new("a.txt", 100),
            FileRecord::new("README", 5),
        ]
    );
}

#[test]
fn collect_of_nothing_or_of_no_files_is_empty() {
    assert!(collect(&Vec::new()).is_empty());
    assert!(collect(&vec![entry("d1", false, 1, 2), entry("d2", false, 3, 4)]).is_empty());
}

#[test]
fn collect_of_only_files_keeps_every_entry() {
    let entries = vec![entry(".hidden", true, 9, 8), entry("x", true, 1, 2)];
    let inventory = collect(&entries);
    assert_eq!(inventory, vec![FileRecord::new(".hidden", 8), FileRecord::new("x", 1)]);
}
