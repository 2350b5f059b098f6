//! Netting the records of a range of commits: one record per path.
//!
//! A path that several commits touch carries, after each of them, the change
//! that the changes so far merge to. What is left of a path at the end is one
//! record, at the place of the last commit that touched it, or nothing where
//! its changes cancel.

use vstd::prelude::*;
use vstd::hash_map::StringHashMap;
use crate::entry::{RepoEntry, RepoEntryView};
use crate::kind::{merge_change, merged, ChangeKind};

verus! {

/// The change that `path` carries once the first `n` records are merged, in
/// their order; `None` where none of them touches it or they cancel.
pub open spec fn net_change(records: Seq<RepoEntryView>, path: Seq<char>, n: int) -> Option<
    ChangeKind,
>
    decreases n,
{
    if n <= 0 {
        None
    } else if records[n - 1].path == path {
        merged(net_change(records, path, n - 1), records[n - 1].change_kind)
    } else {
        net_change(records, path, n - 1)
    }
}

/// Whether none of the first `n` records behind position `i` touches the
/// path of the record at `i`.
pub open spec fn is_last_touch(records: Seq<RepoEntryView>, i: int, n: int) -> bool {
    forall|j: int| i < j < n ==> (#[trigger] records[j]).path != records[i].path
}

/// The record that stands at position `i` once the first `n` records are
/// netted: the last record of its path, with the path's net change; `None`
/// for a record that a later one replaces or whose path cancels out.
pub open spec fn net_record(records: Seq<RepoEntryView>, i: int, n: int) -> Option<RepoEntryView> {
    match net_change(records, records[i].path, n) {
        Some(change_kind) if is_last_touch(records, i, n) => Some(
            RepoEntryView { change_kind, ..records[i] },
        ),
        _ => None,
    }
}

/// The net records that stand at the first `m` positions, in order.
pub open spec fn net_records(records: Seq<RepoEntryView>, m: int) -> Seq<RepoEntryView>
    decreases m,
{
    if m <= 0 {
        Seq::empty()
    } else {
        match net_record(records, m - 1, records.len() as int) {
            Some(record) => net_records(records, m - 1).push(record),
            None => net_records(records, m - 1),
        }
    }
}

/// The records netted: for each path whose changes do not cancel, its last
/// record with the change that all its records merge to; in the order of
/// those last records.
pub open spec fn pruned(records: Seq<RepoEntryView>) -> Seq<RepoEntryView> {
    net_records(records, records.len() as int)
}

/// What the walk holds once the first `n` records are merged: `slots` has
/// the net record of each position, and `last` knows for each live path
/// where its record stands.
spec fn walk_inv(
    records: Seq<RepoEntryView>,
    slots: Seq<Option<RepoEntry>>,
    last: Map<Seq<char>, usize>,
    n: int,
) -> bool {
    &&& slots.len() == n
    &&& forall|j: int|
        0 <= j < n ==> match #[trigger] slots[j] {
            Some(entry) => net_record(records, j, n) == Some(entry@),
            None => net_record(records, j, n) is None,
        }
    &&& forall|path: Seq<char>| #[trigger]
        last.contains_key(path) <==> net_change(records, path, n) is Some
    &&& forall|path: Seq<char>| #[trigger]
        last.contains_key(path) ==> {
            &&& 0 <= last[path] < n
            &&& records[last[path] as int].path == path
            &&& is_last_touch(records, last[path] as int, n)
        }
}

/// Two last records of one path are the same record.
proof fn lemma_last_touch_unique(records: Seq<RepoEntryView>, a: int, b: int, n: int)
    requires
        0 <= a < n,
        0 <= b < n,
        records[a].path == records[b].path,
        is_last_touch(records, a, n),
        is_last_touch(records, b, n),
    ensures
        a == b,
{
    if a < b {
        assert(records[b].path != records[a].path);
    } else if b < a {
        assert(records[a].path != records[b].path);
    }
}

/// Nets `records`: the records of one path merge into one, which stands
/// where the last of them stood and carries the change they merge to; a path
/// whose changes cancel leaves nothing.
pub fn prune(records: Vec<RepoEntry>) -> (net: Vec<RepoEntry>)
    ensures
        net.deep_view() == pruned(records.deep_view()),
{
    let ghost views = records.deep_view();
    let ghost all = records@;
    let n = records.len();
    let mut last: StringHashMap<usize> = StringHashMap::new();
    let mut slots: Vec<Option<RepoEntry>> = Vec::new();
    let mut i: usize = 0;
    for record in it: records
        invariant
            it.seq() == all,
            all.len() == n,
            views.len() == n,
            i == it.index(),
            i <= n,
            forall|j: int| 0 <= j < n ==> views[j] == (#[trigger] all[j])@,
            walk_inv(views, slots@, last@, i as int),
    {
        let ghost old_slots = slots@;
        let ghost old_last = last@;
        let ghost path = record@.path;
        assert(views[i as int] == record@);
        let prev: Option<usize> = match last.get(record.path()) {
            Some(j) => Some(*j),
            None => None,
        };
        let old_kind: Option<ChangeKind> = match prev {
            Some(j) => {
                assert(old_last.contains_key(path));
                assert(net_record(views, j as int, i as int) is Some);
                match &slots[j] {
                    Some(entry) => Some(entry.change_kind()),
                    None => None,
                }
            },
            None => None,
        };
        assert(old_kind == net_change(views, path, i as int));
        let merged_kind = merge_change(old_kind.as_ref(), record.change_kind());
        assert(merged_kind == net_change(views, path, i + 1));
        match prev {
            Some(j) => {
                slots[j] = None;
            },
            None => {},
        }
        match merged_kind {
            Some(kind) => {
                last.insert(record.path().to_owned(), i);
                slots.push(Some(record.with_change(kind)));
            },
            None => {
                last.remove(record.path());
                slots.push(None);
            },
        }
        proof {
            let now = slots@;
            assert forall|j: int| 0 <= j < i + 1 implies match #[trigger] now[j] {
                Some(entry) => net_record(views, j, i + 1) == Some(entry@),
                None => net_record(views, j, i + 1) is None,
            } by {
                if j < i {
                    if views[j].path == path {
                        assert(!is_last_touch(views, j, i + 1)) by {
                            assert(views[i as int].path == views[j].path);
                        }
                        if old_slots[j] is Some {
                            assert(net_record(views, j, i as int) is Some);
                            assert(old_last.contains_key(path));
                            lemma_last_touch_unique(views, j, old_last[path] as int, i as int);
                        }
                    } else {
                        assert(now[j] == old_slots[j]);
                        assert(net_change(views, views[j].path, i + 1) == net_change(
                            views,
                            views[j].path,
                            i as int,
                        ));
                        assert(is_last_touch(views, j, i + 1) == is_last_touch(views, j, i as int));
                    }
                } else {
                    assert(is_last_touch(views, i as int, i + 1));
                }
            }
            assert forall|other: Seq<char>| #[trigger]
                last@.contains_key(other) <==> net_change(views, other, i + 1) is Some by {
                if other != path {
                    assert(old_last.contains_key(other) == last@.contains_key(other));
                }
            }
            assert forall|other: Seq<char>| #[trigger] last@.contains_key(other) implies {
                &&& 0 <= last@[other] < i + 1
                &&& views[last@[other] as int].path == other
                &&& is_last_touch(views, last@[other] as int, i + 1)
            } by {
                if other != path {
                    assert(old_last.contains_key(other));
                    assert(last@[other] == old_last[other]);
                    assert(is_last_touch(views, old_last[other] as int, i as int));
                } else {
                    assert(last@[other] == i);
                }
            }
        }
        i += 1;
    }

    let mut net: Vec<RepoEntry> = Vec::new();
    let ghost filled = slots@;
    let mut at: usize = 0;
    assert(net.deep_view() =~= net_records(views, 0));
    for slot in it: slots
        invariant
            it.seq() == filled,
            filled.len() == n,
            views.len() == n,
            at == it.index(),
            walk_inv(views, filled, last@, n as int),
            net.deep_view() == net_records(views, at as int),
    {
        let ghost before = net.deep_view();
        assert(filled[at as int] == slot);
        match slot {
            Some(entry) => {
                net.push(entry);
                assert(net.deep_view() =~= before.push(entry@));
            },
            None => {},
        }
        at += 1;
    }
    net
}

/// A list of records that can be netted.
pub trait RepoEntryPrune {
    /// The list netted: one record for each path whose changes do not
    /// cancel.
    fn prune(self) -> Vec<RepoEntry>;
}

impl RepoEntryPrune for Vec<RepoEntry> {
    fn prune(self) -> (net: Vec<RepoEntry>)
        ensures
            net.deep_view() == pruned(self.deep_view()),
    {
        prune(self)
    }
}

} // verus!
