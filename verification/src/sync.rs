//! The net changes of a range of commits.

use vstd::prelude::*;
use crate::diff::{
    collect_entries, collect_records, raw_entries, raw_records, CommitDelta, CommitView,
};
use crate::entry::{EntryView, GitFileEntry, RepoEntry, RepoEntryView};
use crate::kind::ChangeKind;
use crate::prune::{prune, pruned};
use crate::strip::{select, strip_add_then_remove, stripped};

verus! {

/// The entries that a range of commits nets out to: every entry of every
/// commit, oldest commit first, with each removal cancelled against the
/// addition it undoes.
pub open spec fn net_entries(commits: Seq<CommitView>) -> Seq<EntryView> {
    stripped(raw_entries(commits))
}

/// The records that a range of commits nets out to: one for each path whose
/// changes do not cancel.
pub open spec fn net_records(commits: Seq<CommitView>) -> Seq<RepoEntryView> {
    pruned(raw_records(commits))
}

/// The entries that `commits` net out to. The commits are those of the
/// range, oldest first, each with its deltas against the tree before it.
pub fn diff_commits(commits: &Vec<CommitDelta>) -> (entries: Vec<GitFileEntry>)
    ensures
        entries.deep_view() == net_entries(commits.deep_view()),
{
    strip_add_then_remove(collect_entries(commits))
}

/// For each record, whether it leaves a file in place: it is no deletion.
pub open spec fn leaves_file(records: Seq<RepoEntryView>) -> Seq<bool> {
    Seq::new(records.len(), |i: int| records[i].change_kind != ChangeKind::Deleted)
}

/// The record as an addition.
pub open spec fn as_added(record: RepoEntryView) -> RepoEntryView {
    RepoEntryView { change_kind: ChangeKind::Added, ..record }
}

/// What `records` leave in place, listed: the records that are no
/// deletion, in their order, each as an addition.
pub open spec fn listed(records: Seq<RepoEntryView>) -> Seq<RepoEntryView> {
    select(records, leaves_file(records), records.len() as int).map_values(
        |record: RepoEntryView| as_added(record),
    )
}

/// What a diff over a range says, given the commits of the range, oldest
/// first. From a base it is what the commits net out to. From the beginning
/// there is nothing for a change to be a change of: it is what the commits
/// leave in place, each file listed once as an addition.
pub open spec fn range_records(commits: Seq<CommitView>, based: bool) -> Seq<RepoEntryView> {
    if based {
        net_records(commits)
    } else {
        listed(net_records(commits))
    }
}

/// What is visible at the end of a history: what a diff from the beginning
/// says.
pub open spec fn snapshot_records(history: Seq<CommitView>) -> Seq<RepoEntryView> {
    range_records(history, false)
}

/// What `records` leave in place, listed.
pub fn list_files(records: &Vec<RepoEntry>) -> (list: Vec<RepoEntry>)
    ensures
        list.deep_view() == listed(records.deep_view()),
{
    let ghost views = records.deep_view();
    let ghost keep = leaves_file(views);
    let mut list: Vec<RepoEntry> = Vec::new();
    let mut i: usize = 0;
    assert(list.deep_view() =~= select(views, keep, 0).map_values(
        |record: RepoEntryView| as_added(record),
    ));
    while i < records.len()
        invariant
            i <= records.len(),
            views == records.deep_view(),
            keep == leaves_file(views),
            list.deep_view() == select(views, keep, i as int).map_values(
                |record: RepoEntryView| as_added(record),
            ),
        decreases records.len() - i,
    {
        let ghost before = list.deep_view();
        assert(views[i as int] == records[i as int]@);
        match records[i].change_kind() {
            ChangeKind::Deleted => {},
            _ => {
                let record = records[i].with_change(ChangeKind::Added);
                list.push(record);
                assert(list.deep_view() =~= before.push(as_added(views[i as int])));
                assert(list.deep_view() =~= select(views, keep, i + 1).map_values(
                    |record: RepoEntryView| as_added(record),
                ));
            },
        }
        i += 1;
    }
    list
}

/// The records of a diff over a range. The commits are those of the range,
/// oldest first, each with its deltas against the tree before it; `based`
/// says whether the range starts behind a commit or at the beginning.
pub fn diff_commits_range(commits: &Vec<CommitDelta>, based: bool) -> (records: Vec<RepoEntry>)
    ensures
        records.deep_view() == range_records(commits.deep_view(), based),
{
    let net = prune(collect_records(commits));
    if based {
        net
    } else {
        list_files(&net)
    }
}

/// What is visible at the end of `history`, the commits from the first to
/// the revision asked for: the diff from the beginning. A file that came
/// and went is not listed.
pub fn snapshot(history: &Vec<CommitDelta>) -> (list: Vec<RepoEntry>)
    ensures
        list.deep_view() == snapshot_records(history.deep_view()),
        list.deep_view() == range_records(history.deep_view(), false),
{
    diff_commits_range(history, false)
}

/// A snapshot is the diff from the beginning, and lists what the net
/// records of the history leave in place.
pub proof fn lemma_snapshot_is_the_diff_from_the_beginning(history: Seq<CommitView>)
    ensures
        snapshot_records(history) == range_records(history, false),
        snapshot_records(history) == listed(net_records(history)),
{
}

/// The same commits give the same entries and the same records: nothing
/// but the deltas handed over decides what a diff says.
pub proof fn lemma_diff_is_determined(first: Seq<CommitView>, second: Seq<CommitView>)
    requires
        first =~= second,
    ensures
        net_entries(first) == net_entries(second),
        net_records(first) == net_records(second),
        forall|based: bool| range_records(first, based) == range_records(second, based),
{
}

} // verus!
