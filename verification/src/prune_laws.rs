//! What netting guarantees.
//!
//! Three laws: there is one net record to a path; netting twice is netting
//! once; and the net records of a history tell which paths hold a file at
//! its end.

use vstd::prelude::*;
use crate::entry::RepoEntryView;
use crate::kind::ChangeKind;
use crate::prune::{is_last_touch, net_change, net_record, net_records, pruned};

verus! {

/// Whether the record `record` stands, with some change, at a position
/// among the first `m` that is the last to touch its path.
pub open spec fn comes_from_last_touch(
    records: Seq<RepoEntryView>,
    m: int,
    record: RepoEntryView,
) -> bool {
    exists|i: int|
        0 <= i < m && is_last_touch(records, i, records.len() as int) && (#[trigger] records[i]).path
            == record.path
}

/// Every net record goes back to the last record of its path.
proof fn lemma_net_records_come_from_last_touches(records: Seq<RepoEntryView>, m: int)
    requires
        0 <= m <= records.len(),
    ensures
        forall|at: int|
            0 <= at < net_records(records, m).len() ==> comes_from_last_touch(
                records,
                m,
                #[trigger] net_records(records, m)[at],
            ),
    decreases m,
{
    if m > 0 {
        lemma_net_records_come_from_last_touches(records, m - 1);
        let before = net_records(records, m - 1);
        let now = net_records(records, m);
        assert forall|at: int| 0 <= at < now.len() implies comes_from_last_touch(
            records,
            m,
            #[trigger] now[at],
        ) by {
            if at < before.len() {
                assert(now[at] == before[at]);
                assert(comes_from_last_touch(records, m - 1, before[at]));
                let i = choose|i: int|
                    0 <= i < m - 1 && is_last_touch(records, i, records.len() as int)
                        && (#[trigger] records[i]).path == before[at].path;
                assert(0 <= i < m && records[i].path == now[at].path);
            } else {
                assert(records[m - 1].path == now[at].path);
            }
        }
    }
}

/// One record to a path: among the first `m` positions no path has two net
/// records.
pub proof fn lemma_one_record_per_path(records: Seq<RepoEntryView>, m: int)
    requires
        0 <= m <= records.len(),
    ensures
        forall|a: int, b: int|
            0 <= a < b < net_records(records, m).len() ==> (#[trigger] net_records(
                records,
                m,
            )[a]).path != (#[trigger] net_records(records, m)[b]).path,
    decreases m,
{
    if m > 0 {
        lemma_one_record_per_path(records, m - 1);
        lemma_net_records_come_from_last_touches(records, m - 1);
        let before = net_records(records, m - 1);
        let now = net_records(records, m);
        assert forall|a: int, b: int| 0 <= a < b < now.len() implies (#[trigger] now[a]).path
            != (#[trigger] now[b]).path by {
            assert(now[a] == before[a]);
            if b < before.len() {
                assert(now[b] == before[b]);
            } else {
                assert(now[b].path == records[m - 1].path);
                assert(is_last_touch(records, m - 1, records.len() as int));
                assert(comes_from_last_touch(records, m - 1, before[a]));
                let i = choose|i: int|
                    0 <= i < m - 1 && is_last_touch(records, i, records.len() as int)
                        && (#[trigger] records[i]).path == before[a].path;
                if before[a].path == records[m - 1].path {
                    assert(records[m - 1].path != records[i].path);
                }
            }
        }
    }
}

/// Whether no path has two records in `records`.
pub open spec fn paths_differ(records: Seq<RepoEntryView>) -> bool {
    forall|a: int, b: int|
        0 <= a < b < records.len() ==> (#[trigger] records[a]).path != (#[trigger] records[b]).path
}

/// In a list with one record to a path, a path carries the change of its
/// record and nothing else.
proof fn lemma_net_change_of_single(records: Seq<RepoEntryView>, i: int, n: int)
    requires
        paths_differ(records),
        0 <= i < records.len(),
        0 <= n <= records.len(),
    ensures
        net_change(records, records[i].path, n) == (if i < n {
            Some(records[i].change_kind)
        } else {
            None
        }),
    decreases n,
{
    if n > 0 {
        lemma_net_change_of_single(records, i, n - 1);
        if n - 1 != i {
            if n - 1 < i {
                assert(records[n - 1].path != records[i].path);
            } else {
                assert(records[i].path != records[n - 1].path);
            }
        }
    }
}

/// A list with one record to a path is netted already.
proof fn lemma_single_records_stay(records: Seq<RepoEntryView>, m: int)
    requires
        paths_differ(records),
        0 <= m <= records.len(),
    ensures
        net_records(records, m) == records.take(m),
    decreases m,
{
    if m > 0 {
        lemma_single_records_stay(records, m - 1);
        let n = records.len() as int;
        lemma_net_change_of_single(records, m - 1, n);
        assert(is_last_touch(records, m - 1, n));
        assert(net_record(records, m - 1, n) == Some(records[m - 1]));
        assert(records.take(m) =~= records.take(m - 1).push(records[m - 1]));
    } else {
        assert(records.take(0) =~= Seq::<RepoEntryView>::empty());
    }
}

/// Netting is done in one go: what is netted has one record to a path, and
/// netting it again changes nothing.
pub proof fn lemma_prune_is_idempotent(records: Seq<RepoEntryView>)
    ensures
        paths_differ(pruned(records)),
        pruned(pruned(records)) == pruned(records),
{
    let net = pruned(records);
    lemma_one_record_per_path(records, records.len() as int);
    lemma_single_records_stay(net, net.len() as int);
    assert(net.take(net.len() as int) =~= net);
}

/// The paths that hold a file once the first `n` records have been replayed
/// on the tree `start`: an addition or a modification leaves a file at its
/// path, a deletion leaves none.
pub open spec fn present_from(start: Set<Seq<char>>, records: Seq<RepoEntryView>, n: int) -> Set<
    Seq<char>,
>
    decreases n,
{
    if n <= 0 {
        start
    } else if records[n - 1].change_kind == ChangeKind::Deleted {
        present_from(start, records, n - 1).remove(records[n - 1].path)
    } else {
        present_from(start, records, n - 1).insert(records[n - 1].path)
    }
}

/// Whether `records` can be replayed on the tree `start`: a file is added
/// where none is, and modified or deleted where one is.
pub open spec fn replays_from(start: Set<Seq<char>>, records: Seq<RepoEntryView>) -> bool {
    forall|i: int|
        #![trigger records[i]]
        0 <= i < records.len() ==> (records[i].change_kind == ChangeKind::Added <==> !present_from(
            start,
            records,
            i,
        ).contains(records[i].path))
}

/// The paths that hold a file once the first `n` records have been replayed
/// on an empty tree.
pub open spec fn present(records: Seq<RepoEntryView>, n: int) -> Set<Seq<char>> {
    present_from(Set::empty(), records, n)
}

/// Whether `records` can be replayed on an empty tree.
pub open spec fn replays(records: Seq<RepoEntryView>) -> bool {
    replays_from(Set::empty(), records)
}

/// Whether a path that carries `net` holds a file.
pub open spec fn holds_file(net: Option<ChangeKind>) -> bool {
    net == Some(ChangeKind::Added) || net == Some(ChangeKind::Modified)
}

/// While a replay on an empty tree is merged, a path holds a file exactly
/// where its net change is an addition or a modification.
proof fn lemma_net_change_of_replay(records: Seq<RepoEntryView>, path: Seq<char>, n: int)
    requires
        replays(records),
        0 <= n <= records.len(),
    ensures
        present(records, n).contains(path) <==> holds_file(net_change(records, path, n)),
    decreases n,
{
    if n > 0 {
        lemma_net_change_of_replay(records, path, n - 1);
        let last = records[n - 1];
        if last.path == path {
            assert(last.change_kind == ChangeKind::Added <==> !present(records, n - 1).contains(
                path,
            ));
        }
    }
}

/// Every path whose changes do not cancel has its net record.
proof fn lemma_net_records_are_complete(records: Seq<RepoEntryView>, i: int, m: int)
    requires
        0 <= i < m <= records.len(),
        net_record(records, i, records.len() as int) is Some,
    ensures
        net_records(records, m).contains(net_record(records, i, records.len() as int)->0),
    decreases m,
{
    let now = net_records(records, m);
    let wanted = net_record(records, i, records.len() as int)->0;
    if i == m - 1 {
        assert(now[now.len() - 1] == wanted);
    } else {
        lemma_net_records_are_complete(records, i, m - 1);
        let before = net_records(records, m - 1);
        let at = choose|at: int| 0 <= at < before.len() && before[at] == wanted;
        assert(now[at] == wanted);
    }
}

/// Every net record is the net record of a position.
pub proof fn lemma_net_records_are_sound(records: Seq<RepoEntryView>, m: int)
    requires
        0 <= m <= records.len(),
    ensures
        forall|at: int|
            0 <= at < net_records(records, m).len() ==> exists|i: int|
                0 <= i < m && net_record(records, i, records.len() as int) == Some(
                    #[trigger] net_records(records, m)[at],
                ),
    decreases m,
{
    if m > 0 {
        lemma_net_records_are_sound(records, m - 1);
        let before = net_records(records, m - 1);
        let now = net_records(records, m);
        assert forall|at: int| 0 <= at < now.len() implies exists|i: int|
            0 <= i < m && net_record(records, i, records.len() as int) == Some(
                #[trigger] now[at],
            ) by {
            if at < before.len() {
                assert(now[at] == before[at]);
                let i = choose|i: int|
                    0 <= i < m - 1 && net_record(records, i, records.len() as int) == Some(
                        before[at],
                    );
                assert(0 <= i < m && net_record(records, i, records.len() as int) == Some(now[at]));
            } else {
                assert(net_record(records, m - 1, records.len() as int) == Some(now[at]));
            }
        }
    }
}

/// The last record that touches `path` among the first `n`, where one does.
proof fn lemma_last_touch_exists(records: Seq<RepoEntryView>, path: Seq<char>, n: int) -> (i: int)
    requires
        0 <= n <= records.len(),
        net_change(records, path, n) is Some,
    ensures
        0 <= i < n,
        records[i].path == path,
        forall|j: int| i < j < n ==> (#[trigger] records[j]).path != path,
    decreases n,
{
    if records[n - 1].path == path {
        n - 1
    } else {
        lemma_last_touch_exists(records, path, n - 1)
    }
}

/// A snapshot tells what is there: where `records` replay a history on an
/// empty tree, every net record that is no deletion stands for a path that
/// holds a file at the end, and every such path has a net record that is no
/// deletion.
pub proof fn lemma_snapshot_tells_what_is_there(records: Seq<RepoEntryView>)
    requires
        replays(records),
    ensures
        forall|at: int|
            0 <= at < pruned(records).len() ==> ((#[trigger] pruned(records)[at]).change_kind
                != ChangeKind::Deleted <==> present(records, records.len() as int).contains(
                pruned(records)[at].path,
            )),
        forall|path: Seq<char>| #[trigger]
            present(records, records.len() as int).contains(path) ==> exists|at: int|
                0 <= at < pruned(records).len() && (#[trigger] pruned(records)[at]).path == path,
{
    let n = records.len() as int;
    let net = pruned(records);
    lemma_net_records_are_sound(records, n);
    assert forall|at: int| 0 <= at < net.len() implies ((#[trigger] net[at]).change_kind
        != ChangeKind::Deleted <==> present(records, n).contains(net[at].path)) by {
        let i = choose|i: int| 0 <= i < n && net_record(records, i, n) == Some(net[at]);
        lemma_net_change_of_replay(records, records[i].path, n);
    }
    assert forall|path: Seq<char>| #[trigger] present(records, n).contains(path) implies exists|
        at: int,
    | 0 <= at < net.len() && (#[trigger] net[at]).path == path by {
        lemma_net_change_of_replay(records, path, n);
        let i = lemma_last_touch_exists(records, path, n);
        assert(is_last_touch(records, i, n));
        assert(net_record(records, i, n) is Some);
        lemma_net_records_are_complete(records, i, n);
        let wanted = net_record(records, i, n)->0;
        let at = choose|at: int| 0 <= at < net.len() && net[at] == wanted;
        assert(net[at].path == path);
    }
}

} // verus!
