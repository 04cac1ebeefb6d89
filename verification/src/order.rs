//! The order of the inventory: a selection sort by timestamp that takes,
//! at each position, the leftmost least record of those that remain.

use vstd::prelude::*;
use crate::inventory::{names, views, FileRecord, Record};

verus! {

/// The index of the leftmost record with the least timestamp among those at
/// `from`, ..., `to - 1`: a later record displaces an earlier one only where
/// its timestamp is strictly smaller.
pub open spec fn leftmost_min(s: Seq<Record>, from: int, to: int) -> int
    decreases to - from,
{
    if to - from <= 1 {
        from
    } else {
        let m = leftmost_min(s, from, to - 1);
        if s[to - 1].timestamp < s[m].timestamp {
            to - 1
        } else {
            m
        }
    }
}

/// `s` with the items at `i` and `j` exchanged.
pub open spec fn swapped<A>(s: Seq<A>, i: int, j: int) -> Seq<A> {
    s.update(i, s[j]).update(j, s[i])
}

/// `s` after the pass of the selection sort for position `i`: the record
/// there is exchanged with the leftmost least of those from `i` on.
pub open spec fn pass(s: Seq<Record>, i: int) -> Seq<Record> {
    swapped(s, i, leftmost_min(s, i, s.len() as int))
}

/// `s` after the passes for the first `k` positions.
pub open spec fn passes(s: Seq<Record>, k: nat) -> Seq<Record>
    decreases k,
{
    if k == 0 {
        s
    } else {
        pass(passes(s, (k - 1) as nat), k - 1)
    }
}

/// The inventory after the whole selection sort: one pass for each position.
pub open spec fn selection_sorted(s: Seq<Record>) -> Seq<Record> {
    passes(s, s.len())
}

/// The timestamps never fall from one record to a later one.
pub open spec fn ascending(s: Seq<Record>) -> bool {
    forall|a: int, b: int| 0 <= a <= b < s.len() ==> s[a].timestamp <= s[b].timestamp
}

/// The records before `i` are in their final places: none of them is later
/// than any record behind it.
pub open spec fn settled(s: Seq<Record>, i: int) -> bool {
    forall|a: int, b: int| 0 <= a < i && a <= b < s.len() ==> s[a].timestamp <= s[b].timestamp
}

/// The scan picks a least record, and the leftmost of the least: every
/// record of the range before the one picked is strictly later than it.
pub proof fn lemma_leftmost_min(s: Seq<Record>, from: int, to: int)
    requires
        0 <= from < to <= s.len(),
    ensures
        from <= leftmost_min(s, from, to) < to,
        forall|j: int|
            from <= j < to ==> s[leftmost_min(s, from, to)].timestamp <= (#[trigger] s[j]).timestamp,
        forall|j: int|
            from <= j < leftmost_min(s, from, to) ==> s[leftmost_min(s, from, to)].timestamp < (
            #[trigger] s[j]).timestamp,
    decreases to - from,
{
    if to - from > 1 {
        lemma_leftmost_min(s, from, to - 1);
    }
}

/// Of two records with the same timestamp among those that remain, the
/// pass never picks the one that stands further right.
pub proof fn lemma_tie_goes_left(s: Seq<Record>, from: int, left: int, right: int)
    requires
        0 <= from <= left < right < s.len(),
        s[left].timestamp == s[right].timestamp,
    ensures
        leftmost_min(s, from, s.len() as int) != right,
{
    lemma_leftmost_min(s, from, s.len() as int);
    if leftmost_min(s, from, s.len() as int) == right {
        assert(s[right].timestamp < s[left].timestamp);
    }
}

/// Exchanging two items keeps the items and how often each occurs.
pub proof fn lemma_swapped_permutes<A>(s: Seq<A>, i: int, j: int)
    requires
        0 <= i < s.len(),
        0 <= j < s.len(),
    ensures
        swapped(s, i, j).to_multiset() == s.to_multiset(),
        swapped(s, i, j).len() == s.len(),
{
    broadcast use vstd::seq_lib::group_to_multiset_ensures;

    if i == j {
        assert(swapped(s, i, j) =~= s);
    } else {
        let mid = s.update(i, s[j]);
        let end = swapped(s, i, j);
        lemma_update_multiset(s, i, s[j]);
        lemma_update_multiset(mid, j, s[i]);
        assert(end.to_multiset() =~= s.to_multiset());
    }
}

/// Replacing one item takes the old one out of the multiset and puts the
/// new one in.
proof fn lemma_update_multiset<A>(s: Seq<A>, i: int, r: A)
    requires
        0 <= i < s.len(),
    ensures
        s.update(i, r).to_multiset() == s.to_multiset().remove(s[i]).insert(r),
        s.to_multiset().count(s[i]) > 0,
{
    broadcast use vstd::seq_lib::group_to_multiset_ensures;

    let u = s.update(i, r);
    assert(u.remove(i) =~= s.remove(i));
    assert(u[i] == r);
    assert(u.contains(r));
    assert(s.contains(s[i]));
    assert(u.remove(i).to_multiset() == u.to_multiset().remove(r));
    assert(s.remove(i).to_multiset() == s.to_multiset().remove(s[i]));
    assert(u.to_multiset() =~= u.to_multiset().remove(r).insert(r));
}

/// After the passes for the first `k` positions the records before `k`
/// are settled, and the records, and so their names, are those of the
/// inventory, each as often as it occurred.
pub proof fn lemma_passes(s: Seq<Record>, k: nat)
    requires
        k <= s.len(),
    ensures
        settled(passes(s, k), k as int),
        passes(s, k).to_multiset() == s.to_multiset(),
        names(passes(s, k)).to_multiset() == names(s).to_multiset(),
        passes(s, k).len() == s.len(),
    decreases k,
{
    if k > 0 {
        let i = k - 1;
        let p = passes(s, i as nat);
        lemma_passes(s, i as nat);
        let n = p.len() as int;
        let m = leftmost_min(p, i, n);
        lemma_leftmost_min(p, i, n);
        lemma_swapped_permutes(p, i, m);
        lemma_swapped_permutes(names(p), i, m);
        let t = swapped(p, i, m);
        assert(names(t) =~= swapped(names(p), i, m));
        assert forall|a: int, b: int| 0 <= a < k && a <= b < t.len() implies t[a].timestamp
            <= t[b].timestamp by {
            if a < i {
                assert(t[a] == p[a]);
                if b == i {
                    assert(t[b] == p[m]);
                } else if b == m {
                    assert(t[b] == p[i]);
                } else {
                    assert(t[b] == p[b]);
                }
            } else {
                assert(t[a] == p[m]);
                if b == m {
                    assert(t[b] == p[i]);
                } else if b == i {
                    assert(t[b] == p[m]);
                } else {
                    assert(t[b] == p[b]);
                }
            }
        }
    }
}

/// The sort gives the records of the inventory, each as often as it
/// occurred, in ascending order of their timestamps.
pub proof fn lemma_selection_sorted(s: Seq<Record>)
    ensures
        ascending(selection_sorted(s)),
        selection_sorted(s).to_multiset() == s.to_multiset(),
        names(selection_sorted(s)).to_multiset() == names(s).to_multiset(),
        selection_sorted(s).len() == s.len(),
{
    lemma_passes(s, s.len());
}

/// On an inventory that already ascends, no pass changes anything.
pub proof fn lemma_passes_keep_ascending(s: Seq<Record>, k: nat)
    requires
        k <= s.len(),
        ascending(s),
    ensures
        passes(s, k) == s,
    decreases k,
{
    if k > 0 {
        let i = k - 1;
        lemma_passes_keep_ascending(s, i as nat);
        let n = s.len() as int;
        let m = leftmost_min(s, i, n);
        lemma_leftmost_min(s, i, n);
        if i < m {
            assert(s[m].timestamp < s[i].timestamp);
            assert(s[i].timestamp <= s[m].timestamp);
        }
        assert(swapped(s, i, m) =~= s);
    }
}

/// Records with equal timestamps that the scan found in ascending order
/// keep the order of the scan: the sort leaves an ascending inventory as it
/// is, whatever ties it holds.
pub proof fn lemma_ascending_unchanged(s: Seq<Record>)
    requires
        ascending(s),
    ensures
        selection_sorted(s) == s,
{
    lemma_passes_keep_ascending(s, s.len());
}

/// Sorts the inventory in place by ascending timestamp. At each position
/// the leftmost of the least records that remain is exchanged with the
/// record there, so the outcome on equal timestamps is that of this
/// selection sort and of no other.
pub fn selection_sort(records: &mut Vec<FileRecord>)
    ensures
        views(final(records)@) == selection_sorted(views(old(records)@)),
        final(records)@.len() == old(records)@.len(),
        ascending(views(final(records)@)),
        views(final(records)@).to_multiset() == views(old(records)@).to_multiset(),
{
    let n = records.len();
    let mut i: usize = 0;
    while i < n
        invariant
            i <= n,
            n == records@.len(),
            n == old(records)@.len(),
            views(records@) == passes(views(old(records)@), i as nat),
        decreases n - i,
    {
        let mut min: usize = i;
        let mut j: usize = i;
        while j < n
            invariant
                i <= min < n,
                i <= j <= n,
                n == records@.len(),
                min == leftmost_min(views(records@), i as int, j as int),
            decreases n - j,
        {
            if records[j].timestamp < records[min].timestamp {
                min = j;
            }
            j = j + 1;
        }
        let ghost before = views(records@);
        let low = records[min].duplicate();
        let high = records[i].duplicate();
        records.set(i, low);
        records.set(min, high);
        assert(views(records@) =~= pass(before, i as int));
        i = i + 1;
    }
    proof {
        lemma_selection_sorted(views(old(records)@));
    }
}

} // verus!
