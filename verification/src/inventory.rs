//! The inventory: what a scan of the directory found, and the records of the
//! regular files among it.

use vstd::prelude::*;

verus! {

/// What a file record stands for: a name and a time in seconds since the
/// epoch.
pub struct Record {
    pub name: Seq<char>,
    pub timestamp: u64,
}

/// One regular file of the directory: its name, extension included, and the
/// older of its creation and modification times in whole seconds since the
/// epoch.
#[derive(Debug, PartialEq, Eq)]
pub struct FileRecord {
    pub name: String,
    pub timestamp: u64,
}

impl View for FileRecord {
    type V = Record;

    open spec fn view(&self) -> Record {
        Record { name: self.name@, timestamp: self.timestamp }
    }
}

impl FileRecord {
    /// A record of the file `name` with the given time.
    pub fn new(name: &str, timestamp: u64) -> (record: FileRecord)
        ensures
            record@ == (Record { name: name@, timestamp }),
    {
        FileRecord { name: name.to_owned(), timestamp }
    }

    /// A second record with the same name and time.
    pub fn duplicate(&self) -> (copy: FileRecord)
        ensures
            copy == *self,
    {
        FileRecord { name: self.name.clone(), timestamp: self.timestamp }
    }
}

/// What a sequence of file records stands for, record by record.
pub open spec fn views(records: Seq<FileRecord>) -> Seq<Record> {
    Seq::new(records.len(), |i: int| records[i]@)
}

/// The names of a sequence of records, in its order.
pub open spec fn names(records: Seq<Record>) -> Seq<Seq<char>> {
    Seq::new(records.len(), |i: int| records[i].name)
}

/// One entry of the directory as the scan found it. The two times are in
/// whole seconds since the epoch and matter only for a regular file.
#[derive(Debug, PartialEq, Eq)]
pub struct ScannedEntry {
    pub name: String,
    pub regular: bool,
    pub created: u64,
    pub modified: u64,
}

/// The smaller of two times.
pub open spec fn older(created: u64, modified: u64) -> u64 {
    if created < modified {
        created
    } else {
        modified
    }
}

/// The record that a regular entry gives: its name, with the older of its
/// two times.
pub open spec fn record_of(entry: ScannedEntry) -> Record {
    Record { name: entry.name@, timestamp: older(entry.created, entry.modified) }
}

/// The records of the regular entries among `entries`, in the order of the
/// scan.
pub open spec fn records_of(entries: Seq<ScannedEntry>) -> Seq<Record>
    decreases entries.len(),
{
    if entries.len() == 0 {
        Seq::empty()
    } else if entries.last().regular {
        records_of(entries.drop_last()).push(record_of(entries.last()))
    } else {
        records_of(entries.drop_last())
    }
}

/// The older of a file's creation and modification times.
pub fn older_time(created: u64, modified: u64) -> (time: u64)
    ensures
        time == older(created, modified),
        time <= created,
        time <= modified,
        time == created || time == modified,
{
    if created < modified {
        created
    } else {
        modified
    }
}

/// Builds the inventory from the entries of a scan: one record for each
/// regular file, in the order of the scan; every other entry is left out.
pub fn collect(entries: &Vec<ScannedEntry>) -> (inventory: Vec<FileRecord>)
    ensures
        views(inventory@) == records_of(entries@),
{
    let mut inventory: Vec<FileRecord> = Vec::new();
    let mut i: usize = 0;
    assert(entries@.take(0) =~= Seq::empty());
    assert(views(inventory@) =~= Seq::empty());
    while i < entries.len()
        invariant
            i <= entries.len(),
            views(inventory@) == records_of(entries@.take(i as int)),
        decreases entries.len() - i,
    {
        let entry = &entries[i];
        let ghost before = inventory@;
        assert(entries@.take(i + 1).drop_last() =~= entries@.take(i as int));
        assert(entries@.take(i + 1).last() == entries@[i as int]);
        if entry.regular {
            let record = FileRecord {
                name: entry.name.clone(),
                timestamp: older_time(entry.created, entry.modified),
            };
            inventory.push(record);
            assert(views(inventory@) =~= views(before).push(record_of(entries@[i as int])));
        }
        i = i + 1;
    }
    assert(entries@.take(entries.len() as int) =~= entries@);
    inventory
}

/// The inventory holds exactly the regular entries: it has one record for
/// each of them and none for any other entry, so it is never longer than
/// the scan, and as long only where every entry is a regular file.
pub proof fn lemma_records_of_regular(entries: Seq<ScannedEntry>)
    ensures
        records_of(entries).len() <= entries.len(),
        records_of(entries).len() == entries.len() <==> (forall|i: int|
            0 <= i < entries.len() ==> entries[i].regular),
        (forall|i: int| 0 <= i < entries.len() ==> entries[i].regular) ==> records_of(entries)
            == Seq::new(entries.len(), |i: int| record_of(entries[i])),
        forall|k: int|
            0 <= k < records_of(entries).len() ==> exists|i: int|
                0 <= i < entries.len() && entries[i].regular && #[trigger] records_of(entries)[k]
                    == record_of(entries[i]),
    decreases entries.len(),
{
    if entries.len() > 0 {
        let rest = entries.drop_last();
        lemma_records_of_regular(rest);
        let n = entries.len() - 1;
        if forall|i: int| 0 <= i < entries.len() ==> entries[i].regular {
            assert forall|i: int| 0 <= i < rest.len() implies rest[i].regular by {
                assert(entries[i].regular);
            }
            assert(records_of(entries) =~= Seq::new(
                entries.len(),
                |i: int| record_of(entries[i]),
            ));
        }
        if records_of(entries).len() == entries.len() {
            assert(entries.last().regular);
            assert forall|i: int| 0 <= i < entries.len() implies entries[i].regular by {
                if i < n {
                    assert(rest[i].regular);
                }
            }
        }
        assert forall|k: int| 0 <= k < records_of(entries).len() implies exists|i: int|
            0 <= i < entries.len() && entries[i].regular && #[trigger] records_of(entries)[k]
                == record_of(entries[i]) by {
            if k < records_of(rest).len() {
                let i = choose|i: int|
                    0 <= i < rest.len() && rest[i].regular && records_of(rest)[k] == record_of(
                        rest[i],
                    );
                assert(entries[i] == rest[i]);
            } else {
                assert(records_of(entries)[k] == record_of(entries[n]));
            }
        }
    }
}

} // verus!
