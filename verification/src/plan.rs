//! The plan: which name each file of the inventory gets.

use vstd::prelude::*;
use crate::inventory::{names, views, FileRecord, Record};
use crate::name::{
    dated, dated_name, decimal, extension_of, lemma_numbered_distinct, numbered, numbered_name,
};
use crate::order::{ascending, lemma_selection_sorted, selection_sort, selection_sorted};
use crate::stamp::{stamp_of, stamp_text};

verus! {

/// What a rename stands for: the old name and the new one.
pub struct Move {
    pub source: Seq<char>,
    pub destination: Seq<char>,
}

/// One rename of the plan: the file named `source` is to be named
/// `destination`. Both are names inside the directory, not paths.
#[derive(Debug, PartialEq, Eq)]
pub struct Rename {
    pub source: String,
    pub destination: String,
}

impl View for Rename {
    type V = Move;

    open spec fn view(&self) -> Move {
        Move { source: self.source@, destination: self.destination@ }
    }
}

/// What a sequence of renames stands for, rename by rename.
pub open spec fn moves(renames: Seq<Rename>) -> Seq<Move> {
    Seq::new(renames.len(), |i: int| renames[i]@)
}

/// The old names of a sequence of renames, in its order.
pub open spec fn sources(plan: Seq<Move>) -> Seq<Seq<char>> {
    Seq::new(plan.len(), |i: int| plan[i].source)
}

/// The numbered plan of an inventory: the records sorted by timestamp, and
/// the record at position `i` of that order renamed to prefix, `i`,
/// extension.
pub open spec fn numbered_plan(prefix: Seq<char>, inventory: Seq<Record>) -> Seq<Move> {
    let sorted = selection_sorted(inventory);
    Seq::new(
        sorted.len(),
        |i: int|
            Move {
                source: sorted[i].name,
                destination: numbered(prefix, i as nat, sorted[i].name),
            },
    )
}

/// The dated rename of one record, where its timestamp has a calendar date:
/// prefix, a space, date and time, extension.
pub open spec fn dated_move(prefix: Seq<char>, record: Record) -> Option<Move> {
    match stamp_of(record.timestamp) {
        Some(stamp) => Some(
            Move { source: record.name, destination: dated(prefix, stamp, record.name) },
        ),
        None => None,
    }
}

/// `done` is the dated plan of `inventory`: the dated renames of its
/// records in the order of the inventory, up to the first record whose
/// timestamp has no calendar date, and of all of them where there is no
/// such record.
pub open spec fn is_dated_plan(prefix: Seq<char>, inventory: Seq<Record>, done: Seq<Move>) -> bool {
    &&& done.len() <= inventory.len()
    &&& forall|i: int|
        0 <= i < done.len() ==> dated_move(prefix, inventory[i]) == Some(#[trigger] done[i])
    &&& done.len() < inventory.len() ==> dated_move(prefix, inventory[done.len() as int]) is None
}

/// The numbered plan renames every file of the inventory once: its
/// sources are the names of the inventory, each as often as it occurs
/// there. They stand in the order of the sorted records, which ascend by
/// timestamp, and the source at position `i` gets the number `i`, so the
/// numbers run from zero to one less than the number of records.
pub proof fn lemma_numbered_plan(prefix: Seq<char>, inventory: Seq<Record>)
    ensures
        numbered_plan(prefix, inventory).len() == inventory.len(),
        sources(numbered_plan(prefix, inventory)).to_multiset() == names(inventory).to_multiset(),
        selection_sorted(inventory).to_multiset() == inventory.to_multiset(),
        ascending(selection_sorted(inventory)),
        forall|i: int|
            0 <= i < inventory.len() ==> (#[trigger] numbered_plan(prefix, inventory)[i]).source
                == selection_sorted(inventory)[i].name,
        forall|i: int|
            0 <= i < inventory.len() ==> (#[trigger] numbered_plan(
                prefix,
                inventory,
            )[i]).destination == prefix + decimal(i as nat) + extension_of(
                numbered_plan(prefix, inventory)[i].source,
            ),
{
    lemma_selection_sorted(inventory);
    assert(sources(numbered_plan(prefix, inventory)) =~= names(selection_sorted(inventory)));
}

/// No two renames of the numbered plan whose files have the same extension
/// share a destination.
pub proof fn lemma_numbered_plan_distinct(
    prefix: Seq<char>,
    inventory: Seq<Record>,
    i: int,
    j: int,
)
    requires
        0 <= i < inventory.len(),
        0 <= j < inventory.len(),
        i != j,
        extension_of(numbered_plan(prefix, inventory)[i].source) == extension_of(
            numbered_plan(prefix, inventory)[j].source,
        ),
    ensures
        numbered_plan(prefix, inventory)[i].destination != numbered_plan(
            prefix,
            inventory,
        )[j].destination,
{
    lemma_selection_sorted(inventory);
    let sorted = selection_sorted(inventory);
    if numbered_plan(prefix, inventory)[i].destination == numbered_plan(
        prefix,
        inventory,
    )[j].destination {
        lemma_numbered_distinct(prefix, i as nat, j as nat, sorted[i].name, sorted[j].name);
    }
}

/// The dated plan follows the scan: its rename at position `i` is that of
/// the record at position `i` of the inventory, whatever the timestamps
/// are, and a plan that covers the inventory holds a rename for each record.
pub proof fn lemma_dated_plan_in_scan_order(
    prefix: Seq<char>,
    inventory: Seq<Record>,
    done: Seq<Move>,
)
    requires
        is_dated_plan(prefix, inventory, done),
    ensures
        forall|i: int| 0 <= i < done.len() ==> (#[trigger] done[i]).source == inventory[i].name,
        forall|i: int|
            0 <= i < done.len() ==> (stamp_of(inventory[i].timestamp) is Some),
        forall|i: int|
            0 <= i < done.len() ==> (#[trigger] done[i]).destination == dated(
                prefix,
                stamp_of(inventory[i].timestamp).unwrap(),
                inventory[i].name,
            ),
        done.len() == inventory.len() <==> (forall|i: int|
            0 <= i < inventory.len() ==> stamp_of((#[trigger] inventory[i]).timestamp) is Some),
        done.len() == inventory.len() ==> sources(done) == names(inventory),
{
    assert forall|i: int| 0 <= i < done.len() implies (#[trigger] done[i]).source
        == inventory[i].name && (stamp_of(inventory[i].timestamp) is Some) && done[i].destination
        == dated(prefix, stamp_of(inventory[i].timestamp).unwrap(), inventory[i].name) by {
        assert(dated_move(prefix, inventory[i]) == Some(done[i]));
    }
    assert forall|i: int| 0 <= i < done.len() implies (stamp_of(inventory[i].timestamp) is Some) by {
        assert(dated_move(prefix, inventory[i]) == Some(done[i]));
    }
    if done.len() == inventory.len() {
        assert(sources(done) =~= names(inventory));
        assert forall|i: int| 0 <= i < inventory.len() implies stamp_of(
            (#[trigger] inventory[i]).timestamp,
        ) is Some by {
            assert(dated_move(prefix, inventory[i]) == Some(done[i]));
        }
    }
}

/// An inventory has one dated plan.
pub proof fn lemma_dated_plan_unique(
    prefix: Seq<char>,
    inventory: Seq<Record>,
    first: Seq<Move>,
    second: Seq<Move>,
)
    requires
        is_dated_plan(prefix, inventory, first),
        is_dated_plan(prefix, inventory, second),
    ensures
        first == second,
{
    if first.len() < second.len() {
        assert(dated_move(prefix, inventory[first.len() as int]) == Some(
            second[first.len() as int],
        ));
    }
    if second.len() < first.len() {
        assert(dated_move(prefix, inventory[second.len() as int]) == Some(
            first[second.len() as int],
        ));
    }
    assert forall|i: int| 0 <= i < first.len() implies first[i] == second[i] by {
        assert(dated_move(prefix, inventory[i]) == Some(first[i]));
        assert(dated_move(prefix, inventory[i]) == Some(second[i]));
    }
    assert(first =~= second);
}

/// The renames of a dated plan, and whether they cover the inventory.
#[derive(Debug, PartialEq, Eq)]
pub struct DatedPlan {
    /// The renames, in the order of the inventory.
    pub renames: Vec<Rename>,
    /// Whether every record has its rename. Where it is `false`, the record
    /// behind the last rename has a timestamp without a calendar date.
    pub complete: bool,
}

/// Plans the numbered renames: sorts the inventory by timestamp with the
/// selection sort and gives the record at position `i` the name prefix,
/// `i`, extension.
pub fn sequential_plan(prefix: &str, inventory: Vec<FileRecord>) -> (plan: Vec<Rename>)
    ensures
        moves(plan@) == numbered_plan(prefix@, views(inventory@)),
        plan@.len() == inventory@.len(),
{
    let mut records = inventory;
    selection_sort(&mut records);
    let ghost sorted = views(records@);
    let mut plan: Vec<Rename> = Vec::new();
    let mut i: usize = 0;
    while i < records.len()
        invariant
            i <= records.len(),
            plan@.len() == i,
            views(records@) == sorted,
            forall|k: int|
                0 <= k < i ==> (#[trigger] plan@[k])@ == (Move {
                    source: sorted[k].name,
                    destination: numbered(prefix@, k as nat, sorted[k].name),
                }),
        decreases records.len() - i,
    {
        let record = &records[i];
        assert(sorted[i as int] == record@);
        let rename = Rename {
            source: record.name.clone(),
            destination: numbered_name(prefix, i, record.name.as_str()),
        };
        plan.push(rename);
        i = i + 1;
    }
    assert(moves(plan@) =~= numbered_plan(prefix@, views(inventory@)));
    plan
}

/// The dated rename of one record: `None` exactly where its timestamp has
/// no calendar date.
pub fn dated_rename(prefix: &str, record: &FileRecord) -> (rename: Option<Rename>)
    ensures
        match rename {
            Some(r) => dated_move(prefix@, record@) == Some(r@),
            None => dated_move(prefix@, record@) is None,
        },
{
    match stamp_text(record.timestamp) {
        Some(stamp) => Some(
            Rename {
                source: record.name.clone(),
                destination: dated_name(prefix, stamp.as_str(), record.name.as_str()),
            },
        ),
        None => None,
    }
}

/// Plans the dated renames, in the order of the inventory and without
/// sorting it. The plan stops before the first record whose timestamp has
/// no calendar date, and says so.
pub fn datetime_plan(prefix: &str, inventory: &Vec<FileRecord>) -> (plan: DatedPlan)
    ensures
        is_dated_plan(prefix@, views(inventory@), moves(plan.renames@)),
        plan.complete <==> plan.renames@.len() == inventory@.len(),
{
    let mut renames: Vec<Rename> = Vec::new();
    let mut i: usize = 0;
    while i < inventory.len()
        invariant
            i <= inventory.len(),
            renames@.len() == i,
            forall|k: int|
                0 <= k < i ==> dated_move(prefix@, inventory@[k]@) == Some(
                    (#[trigger] renames@[k])@,
                ),
        decreases inventory.len() - i,
    {
        match dated_rename(prefix, &inventory[i]) {
            Some(rename) => {
                renames.push(rename);
            },
            None => {
                return DatedPlan { renames, complete: false };
            },
        }
        i = i + 1;
    }
    DatedPlan { renames, complete: true }
}

} // verus!
