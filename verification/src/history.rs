//! What a history leaves in its tree, and why a snapshot tells it.
//!
//! A history is a run of commits, each with its deltas against the tree
//! before it, the first against the empty tree. Replaying the deltas gives
//! the tree at the end. A snapshot of the history lists exactly the paths of
//! that tree that name a group file or an article.

use vstd::prelude::*;
use crate::archive::{is_archived, is_live_path, key_path, lemma_archive_holds_what_is_live};
use crate::diff::{
    added_entries, commit_entries, commit_records, commits_entries, commits_records,
    delta_additions, delta_entries, delta_records, delta_removals, deltas_entries, deltas_records,
    file_records, raw_entries, raw_records, removed_entries, status_adds, status_removes,
    wants_content, CommitView, DeltaStatus, DeltaView,
};
use crate::entry::{EntryKey, EntryView, RepoEntryView};
use crate::kind::{kind_of_path, ChangeKind, FileKind};
use crate::path::{
    file_name, is_tree_path, joined, lemma_last_index_bounds, lemma_tree_paths_read_as_they_stand,
    parent,
};
use crate::prune::{net_record, pruned};
use crate::prune_laws::{
    lemma_net_records_are_sound, lemma_one_record_per_path, lemma_snapshot_tells_what_is_there,
    present, present_from, replays, replays_from,
};
use crate::strip::{select, stripped};
use crate::strip_laws::{
    coherent, coherent_from, is_marked, is_marked_pair, lemma_select_keeps_order,
    lemma_select_members, lemma_snapshot_lists_live_files, live, live_from,
};
use crate::sync::{as_added, leaves_file, snapshot_records};
use crate::text::last_index_of;

verus! {

/// A tree, as the set of the paths that hold a file.
pub type Tree = Set<Seq<char>>;

/// Whether `delta` speaks of `tree`: what it adds is not there yet, and
/// what it deletes, modifies or renames is.
pub open spec fn delta_fits(tree: Tree, delta: DeltaView) -> bool {
    match delta.status {
        DeltaStatus::Added | DeltaStatus::Copied => delta.new_file.path matches Some(path)
            && !tree.contains(path),
        DeltaStatus::Deleted => delta.old_file.path matches Some(path) && tree.contains(path),
        DeltaStatus::Modified => delta.new_file.path matches Some(path) && tree.contains(path),
        DeltaStatus::Renamed => {
            &&& delta.old_file.path matches Some(old) && tree.contains(old)
            &&& delta.new_file.path matches Some(new) && !tree.contains(new)
            &&& delta.old_file.path != delta.new_file.path
        },
        _ => true,
    }
}

/// The tree that `delta` makes of `tree`.
pub open spec fn tree_step(tree: Tree, delta: DeltaView) -> Tree {
    match delta.status {
        DeltaStatus::Added | DeltaStatus::Copied => match delta.new_file.path {
            Some(path) => tree.insert(path),
            None => tree,
        },
        DeltaStatus::Deleted => match delta.old_file.path {
            Some(path) => tree.remove(path),
            None => tree,
        },
        DeltaStatus::Renamed => match (delta.old_file.path, delta.new_file.path) {
            (Some(old), Some(new)) => tree.remove(old).insert(new),
            _ => tree,
        },
        _ => tree,
    }
}

/// The tree that the first `n` of `deltas` make of `tree`, one after
/// another.
pub open spec fn tree_after_deltas(tree: Tree, deltas: Seq<DeltaView>, n: int) -> Tree
    decreases n,
{
    if n <= 0 {
        tree
    } else {
        tree_step(tree_after_deltas(tree, deltas, n - 1), deltas[n - 1])
    }
}

/// Whether each of the first `n` of `deltas` speaks of the tree that the
/// deltas before it make of `tree`.
pub open spec fn deltas_fit(tree: Tree, deltas: Seq<DeltaView>, n: int) -> bool
    decreases n,
{
    n <= 0 || (deltas_fit(tree, deltas, n - 1) && delta_fits(
        tree_after_deltas(tree, deltas, n - 1),
        deltas[n - 1],
    ))
}

/// The tree at the `n`th commit of a history that begins on the empty tree.
pub open spec fn tree_after(commits: Seq<CommitView>, n: int) -> Tree
    decreases n,
{
    if n <= 0 {
        Set::empty()
    } else {
        tree_after_deltas(
            tree_after(commits, n - 1),
            commits[n - 1].deltas,
            commits[n - 1].deltas.len() as int,
        )
    }
}

/// Whether the first `n` commits are a history: the deltas of each speak of
/// the tree that the commits before it leave.
pub open spec fn is_history(commits: Seq<CommitView>, n: int) -> bool
    decreases n,
{
    n <= 0 || (is_history(commits, n - 1) && deltas_fit(
        tree_after(commits, n - 1),
        commits[n - 1].deltas,
        commits[n - 1].deltas.len() as int,
    ))
}

/// Replaying two lists one after the other is replaying them joined.
proof fn lemma_present_of_joined(
    start: Tree,
    first: Seq<RepoEntryView>,
    second: Seq<RepoEntryView>,
    n: int,
)
    requires
        0 <= n <= first.len() + second.len(),
    ensures
        present_from(start, first + second, n) == (if n <= first.len() {
            present_from(start, first, n)
        } else {
            present_from(present_from(start, first, first.len() as int), second, n - first.len())
        }),
    decreases n,
{
    if n > 0 {
        lemma_present_of_joined(start, first, second, n - 1);
        let middle = present_from(start, first, first.len() as int);
        if n <= first.len() {
            assert((first + second)[n - 1] == first[n - 1]);
        } else {
            assert((first + second)[n - 1] == second[n - 1 - first.len()]);
            if n - 1 == first.len() {
                assert(present_from(middle, second, 0) == middle);
            }
            assert(present_from(start, first + second, n - 1) == present_from(
                middle,
                second,
                n - 1 - first.len(),
            ));
        }
    }
}

/// Two lists that replay one after the other replay joined.
proof fn lemma_replay_of_joined(start: Tree, first: Seq<RepoEntryView>, second: Seq<RepoEntryView>)
    requires
        replays_from(start, first),
        replays_from(present_from(start, first, first.len() as int), second),
    ensures
        replays_from(start, first + second),
        present_from(start, first + second, (first + second).len() as int) == present_from(
            present_from(start, first, first.len() as int),
            second,
            second.len() as int,
        ),
{
    let all = first + second;
    let middle = present_from(start, first, first.len() as int);
    assert forall|i: int| #![trigger all[i]] 0 <= i < all.len() implies (all[i].change_kind
        == ChangeKind::Added <==> !present_from(start, all, i).contains(all[i].path)) by {
        lemma_present_of_joined(start, first, second, i);
        if i < first.len() {
            assert(all[i] == first[i]);
        } else {
            assert(all[i] == second[i - first.len()]);
        }
    }
    lemma_present_of_joined(start, first, second, all.len() as int);
    if second.len() == 0 {
        assert(all.len() == first.len());
    }
}

/// The paths of `tree` that name a group file or an article.
pub open spec fn paths_of_files(tree: Tree) -> Tree {
    Set::new(|path: Seq<char>| tree.contains(path) && kind_of_path(path) != FileKind::Other)
}

/// Whether every record carries the kind of its path, and names a group
/// file or an article.
pub open spec fn carry_their_kind(records: Seq<RepoEntryView>) -> bool {
    forall|i: int|
        0 <= i < records.len() ==> (#[trigger] records[i]).file_kind == kind_of_path(
            records[i].path,
        ) && records[i].file_kind != FileKind::Other
}

/// The record of one side of a delta replays on the files of a tree where
/// the change fits the tree: an addition where the path is free, anything
/// else where it is taken. It leaves the files of the tree so changed.
proof fn lemma_file_record_replays(
    tree: Tree,
    file: crate::diff::DiffFileView,
    change_kind: ChangeKind,
    timestamp: i64,
)
    requires
        file.path is Some,
        change_kind == ChangeKind::Added <==> !tree.contains(file.path->0),
    ensures
        carry_their_kind(file_records(file, change_kind, timestamp)),
        replays_from(paths_of_files(tree), file_records(file, change_kind, timestamp)),
        present_from(
            paths_of_files(tree),
            file_records(file, change_kind, timestamp),
            file_records(file, change_kind, timestamp).len() as int,
        ) == paths_of_files(
            match change_kind {
                ChangeKind::Added => tree.insert(file.path->0),
                ChangeKind::Deleted => tree.remove(file.path->0),
                ChangeKind::Modified => tree,
            },
        ),
{
    let path = file.path->0;
    let start = paths_of_files(tree);
    let records = file_records(file, change_kind, timestamp);
    let after = match change_kind {
        ChangeKind::Added => tree.insert(path),
        ChangeKind::Deleted => tree.remove(path),
        ChangeKind::Modified => tree,
    };
    assert(present_from(start, records, 0) == start);
    if kind_of_path(path) == FileKind::Other {
        assert(records.len() == 0);
        assert(start =~= paths_of_files(after));
    } else {
        assert(records.len() == 1);
        assert(start.contains(path) <==> tree.contains(path));
        match change_kind {
            ChangeKind::Added => {
                assert(start.insert(path) =~= paths_of_files(after));
            },
            ChangeKind::Deleted => {
                assert(start.remove(path) =~= paths_of_files(after));
            },
            ChangeKind::Modified => {
                assert(start.insert(path) =~= paths_of_files(after));
            },
        }
    }
}

/// Two lists of records that carry their kind still do when joined.
proof fn lemma_kind_of_joined(first: Seq<RepoEntryView>, second: Seq<RepoEntryView>)
    requires
        carry_their_kind(first),
        carry_their_kind(second),
    ensures
        carry_their_kind(first + second),
{
    let all = first + second;
    assert forall|i: int| 0 <= i < all.len() implies (#[trigger] all[i]).file_kind == kind_of_path(
        all[i].path,
    ) && all[i].file_kind != FileKind::Other by {
        if i < first.len() {
            assert(all[i] == first[i]);
        } else {
            assert(all[i] == second[i - first.len()]);
        }
    }
}

/// The records of a delta that speaks of a tree replay on the files of the
/// tree, and leave the files of the tree that the delta makes of it.
proof fn lemma_delta_replays(tree: Tree, delta: DeltaView, timestamp: i64)
    requires
        delta_fits(tree, delta),
    ensures
        carry_their_kind(delta_records(delta, timestamp)),
        replays_from(paths_of_files(tree), delta_records(delta, timestamp)),
        present_from(
            paths_of_files(tree),
            delta_records(delta, timestamp),
            delta_records(delta, timestamp).len() as int,
        ) == paths_of_files(tree_step(tree, delta)),
{
    let records = delta_records(delta, timestamp);
    let start = paths_of_files(tree);
    match delta.status {
        DeltaStatus::Renamed => {
            let first = file_records(delta.old_file, ChangeKind::Deleted, timestamp);
            let second = file_records(delta.new_file, ChangeKind::Added, timestamp);
            let middle = tree.remove(delta.old_file.path->0);
            lemma_file_record_replays(tree, delta.old_file, ChangeKind::Deleted, timestamp);
            lemma_file_record_replays(middle, delta.new_file, ChangeKind::Added, timestamp);
            lemma_replay_of_joined(start, first, second);
            lemma_kind_of_joined(first, second);
        },
        DeltaStatus::Added | DeltaStatus::Copied => {
            lemma_file_record_replays(tree, delta.new_file, ChangeKind::Added, timestamp);
        },
        DeltaStatus::Deleted => {
            lemma_file_record_replays(tree, delta.old_file, ChangeKind::Deleted, timestamp);
        },
        DeltaStatus::Modified => {
            lemma_file_record_replays(tree, delta.new_file, ChangeKind::Modified, timestamp);
        },
        _ => {
            assert(records.len() == 0);
            assert(present_from(start, records, 0) == start);
        },
    }
}

/// The records of deltas that speak of a tree, one after another, replay on
/// the files of the tree, and leave the files of the tree that the deltas
/// make of it.
proof fn lemma_deltas_replay(tree: Tree, deltas: Seq<DeltaView>, timestamp: i64, n: int)
    requires
        0 <= n <= deltas.len(),
        deltas_fit(tree, deltas, n),
    ensures
        carry_their_kind(deltas_records(deltas, timestamp, n)),
        replays_from(paths_of_files(tree), deltas_records(deltas, timestamp, n)),
        present_from(
            paths_of_files(tree),
            deltas_records(deltas, timestamp, n),
            deltas_records(deltas, timestamp, n).len() as int,
        ) == paths_of_files(tree_after_deltas(tree, deltas, n)),
    decreases n,
{
    if n > 0 {
        lemma_deltas_replay(tree, deltas, timestamp, n - 1);
        let first = deltas_records(deltas, timestamp, n - 1);
        lemma_delta_replays(tree_after_deltas(tree, deltas, n - 1), deltas[n - 1], timestamp);
        lemma_replay_of_joined(
            paths_of_files(tree),
            first,
            delta_records(deltas[n - 1], timestamp),
        );
        lemma_kind_of_joined(first, delta_records(deltas[n - 1], timestamp));
    } else {
        assert(present_from(
            paths_of_files(tree),
            deltas_records(deltas, timestamp, 0),
            0,
        ) == paths_of_files(tree));
    }
}

/// The records of a history replay on the empty tree, carry the kind of
/// their paths, and leave the files of the tree of the history.
proof fn lemma_history_replays(commits: Seq<CommitView>, n: int)
    requires
        0 <= n <= commits.len(),
        is_history(commits, n),
    ensures
        carry_their_kind(commits_records(commits, n)),
        replays(commits_records(commits, n)),
        present(commits_records(commits, n), commits_records(commits, n).len() as int)
            == paths_of_files(tree_after(commits, n)),
    decreases n,
{
    assert(paths_of_files(Set::empty()) =~= Set::<Seq<char>>::empty());
    if n > 0 {
        lemma_history_replays(commits, n - 1);
        let first = commits_records(commits, n - 1);
        let commit = commits[n - 1];
        lemma_deltas_replay(
            tree_after(commits, n - 1),
            commit.deltas,
            commit.timestamp,
            commit.deltas.len() as int,
        );
        lemma_replay_of_joined(Set::empty(), first, commit_records(commit));
        lemma_kind_of_joined(first, commit_records(commit));
    }
}

/// A snapshot lists the tree: where `commits` are a history, the snapshot
/// at its end has one record for each path of the tree at its end that
/// names a group file or an article, as an addition and with the kind of
/// the path, and no record for anything else.
pub proof fn lemma_snapshot_lists_the_tree(commits: Seq<CommitView>)
    requires
        is_history(commits, commits.len() as int),
    ensures
        forall|at: int|
            0 <= at < snapshot_records(commits).len() ==> {
                let record = #[trigger] snapshot_records(commits)[at];
                &&& record.change_kind == ChangeKind::Added
                &&& record.file_kind == kind_of_path(record.path)
                &&& record.file_kind != FileKind::Other
                &&& tree_after(commits, commits.len() as int).contains(record.path)
            },
        forall|path: Seq<char>| #[trigger]
            tree_after(commits, commits.len() as int).contains(path) && kind_of_path(path)
                != FileKind::Other ==> exists|at: int|
                0 <= at < snapshot_records(commits).len() && (#[trigger] snapshot_records(
                    commits,
                )[at]).path == path,
        forall|a: int, b: int|
            0 <= a < b < snapshot_records(commits).len() ==> (#[trigger] snapshot_records(
                commits,
            )[a]).path != (#[trigger] snapshot_records(commits)[b]).path,
{
    let raw = raw_records(commits);
    let net = pruned(raw);
    let n = net.len() as int;
    let keep = leaves_file(net);
    let chosen = select(net, keep, n);
    let list = snapshot_records(commits);
    let tree = tree_after(commits, commits.len() as int);
    lemma_history_replays(commits, commits.len() as int);
    lemma_snapshot_tells_what_is_there(raw);
    lemma_net_records_are_sound(raw, raw.len() as int);
    lemma_one_record_per_path(raw, raw.len() as int);
    lemma_select_members(net, keep, n);
    lemma_select_keeps_order(net, keep, n);
    assert(list.len() == chosen.len());
    assert forall|at: int| 0 <= at < list.len() implies {
        let record = #[trigger] list[at];
        &&& record.change_kind == ChangeKind::Added
        &&& record.file_kind == kind_of_path(record.path)
        &&& record.file_kind != FileKind::Other
        &&& tree.contains(record.path)
    } by {
        assert(list[at] == as_added(chosen[at]));
        assert(is_marked(net, keep, n, chosen[at]));
        let i = choose|i: int| 0 <= i < n && #[trigger] keep[i] && net[i] == chosen[at];
        assert(net[i].change_kind != ChangeKind::Deleted);
        assert(present(raw, raw.len() as int).contains(net[i].path));
        let from = choose|from: int|
            0 <= from < raw.len() && net_record(raw, from, raw.len() as int) == Some(net[i]);
        assert(raw[from].file_kind == kind_of_path(raw[from].path));
    }
    assert forall|path: Seq<char>| #[trigger]
        tree.contains(path) && kind_of_path(path) != FileKind::Other implies exists|at: int|
        0 <= at < list.len() && (#[trigger] list[at]).path == path by {
        assert(present(raw, raw.len() as int).contains(path));
        let i = choose|i: int| 0 <= i < net.len() && (#[trigger] net[i]).path == path;
        assert(net[i].change_kind != ChangeKind::Deleted);
        assert(keep[i]);
        assert(chosen.contains(net[i]));
        let at = choose|at: int| 0 <= at < chosen.len() && chosen[at] == net[i];
        assert(list[at] == as_added(chosen[at]));
        assert(list[at].path == path);
    }
    assert forall|a: int, b: int| 0 <= a < b < list.len() implies (#[trigger] list[a]).path != (
    #[trigger] list[b]).path by {
        assert(list[a] == as_added(chosen[a]));
        assert(list[b] == as_added(chosen[b]));
        assert(is_marked_pair(net, keep, n, chosen[a], chosen[b]));
        let (i, j) = choose|i: int, j: int|
            0 <= i < j < n && #[trigger] keep[i] && #[trigger] keep[j] && net[i] == chosen[a]
                && net[j] == chosen[b];
        assert(net[i].path != net[j].path);
    }
}

/// Whether every path of `tree` is written as a tree writes it.
pub open spec fn holds_tree_paths(tree: Tree) -> bool {
    forall|path: Seq<char>| #[trigger] tree.contains(path) ==> is_tree_path(path)
}

/// The file that `path` names to the store, if it names one: a group by its
/// directory, an article by its directory and its file name.
pub open spec fn key_of_path(path: Seq<char>) -> Option<EntryKey> {
    match kind_of_path(path) {
        FileKind::Group => Some(EntryKey::Group { group: parent(path) }),
        FileKind::Markdown => Some(
            EntryKey::Article { group: parent(path), name: file_name(path) },
        ),
        FileKind::Other => None,
    }
}

/// The files that the paths of `tree` name to the store.
pub open spec fn files_of(tree: Tree) -> Set<EntryKey> {
    Set::new(
        |key: EntryKey|
            exists|path: Seq<char>| #[trigger] tree.contains(path) && key_of_path(path) == Some(key),
    )
}

/// Whether `delta` speaks of `tree` and lacks nothing: it fits the tree, a
/// modification stays at its path, the path of what it puts in place is
/// written as a tree writes it, and the text it needs is there.
pub open spec fn delta_fits_fully(tree: Tree, delta: DeltaView) -> bool {
    &&& delta_fits(tree, delta)
    &&& delta.status == DeltaStatus::Modified ==> delta.old_file.path == delta.new_file.path
    &&& status_adds(delta.status) ==> (delta.new_file.path matches Some(path) && is_tree_path(path))
    &&& wants_content(delta) ==> delta.content is Some
}

/// Whether each of the first `n` of `deltas` speaks of the tree that the
/// deltas before it make of `tree`, and lacks nothing.
pub open spec fn deltas_fit_fully(tree: Tree, deltas: Seq<DeltaView>, n: int) -> bool
    decreases n,
{
    n <= 0 || (deltas_fit_fully(tree, deltas, n - 1) && delta_fits_fully(
        tree_after_deltas(tree, deltas, n - 1),
        deltas[n - 1],
    ))
}

/// Whether the first `n` commits are a history that lacks nothing.
pub open spec fn is_full_history(commits: Seq<CommitView>, n: int) -> bool
    decreases n,
{
    n <= 0 || (is_full_history(commits, n - 1) && deltas_fit_fully(
        tree_after(commits, n - 1),
        commits[n - 1].deltas,
        commits[n - 1].deltas.len() as int,
    ))
}

/// Directory and file name tell a path that is written as a tree writes
/// it.
proof fn lemma_parts_tell_the_path(first: Seq<char>, second: Seq<char>)
    requires
        is_tree_path(first),
        is_tree_path(second),
        parent(first) == parent(second),
        file_name(first) == file_name(second),
    ensures
        first == second,
{
    lemma_tree_paths_read_as_they_stand(first);
    lemma_tree_paths_read_as_they_stand(second);
    lemma_last_index_bounds(first, '/');
    lemma_last_index_bounds(second, '/');
    let i = last_index_of(first, '/');
    let j = last_index_of(second, '/');
    if i < 0 {
        assert(parent(first).len() == 0);
        if j >= 0 {
            assert(second[j] == '/');
            assert(parent(second).len() == j);
        }
        assert(first =~= first.skip(0));
        assert(second =~= second.skip(0));
    } else {
        assert(first[i] == '/');
        assert(parent(first).len() == i);
        assert(i >= 1);
        if j < 0 {
            assert(parent(second).len() == 0);
        }
        assert(parent(second).len() == j);
        assert(first.len() == second.len()) by {
            assert(file_name(first).len() == first.len() - i - 1);
            assert(file_name(second).len() == second.len() - j - 1);
        }
        assert forall|k: int| 0 <= k < first.len() implies first[k] == second[k] by {
            if k < i {
                assert(parent(first)[k] == first[k]);
                assert(parent(second)[k] == second[k]);
            } else if k > i {
                assert(file_name(first)[k - i - 1] == first[k]);
                assert(file_name(second)[k - i - 1] == second[k]);
            }
        }
        assert(first =~= second);
    }
}

/// Two paths of a tree that name the same file are the same path.
proof fn lemma_one_path_to_a_file(first: Seq<char>, second: Seq<char>)
    requires
        is_tree_path(first),
        is_tree_path(second),
        key_of_path(first) is Some,
        key_of_path(first) == key_of_path(second),
    ensures
        first == second,
{
    lemma_parts_tell_the_path(first, second);
}

/// A path that is put in place puts the file it names in place.
proof fn lemma_files_of_insert(tree: Tree, path: Seq<char>)
    ensures
        files_of(tree.insert(path)) == (match key_of_path(path) {
            Some(key) => files_of(tree).insert(key),
            None => files_of(tree),
        }),
{
    let grown = files_of(tree.insert(path));
    let wanted = match key_of_path(path) {
        Some(key) => files_of(tree).insert(key),
        None => files_of(tree),
    };
    assert forall|key: EntryKey| grown.contains(key) <==> wanted.contains(key) by {
        if grown.contains(key) {
            let from = choose|from: Seq<char>| #[trigger]
                tree.insert(path).contains(from) && key_of_path(from) == Some(key);
            if from != path {
                assert(tree.contains(from));
            }
        }
        if wanted.contains(key) {
            if key_of_path(path) == Some(key) {
                assert(tree.insert(path).contains(path));
            } else {
                let from = choose|from: Seq<char>| #[trigger]
                    tree.contains(from) && key_of_path(from) == Some(key);
                assert(tree.insert(path).contains(from));
            }
        }
    }
    assert(grown =~= wanted);
}

/// A path that is taken away takes the file it names away.
proof fn lemma_files_of_remove(tree: Tree, path: Seq<char>)
    requires
        holds_tree_paths(tree),
        tree.contains(path),
    ensures
        files_of(tree.remove(path)) == (match key_of_path(path) {
            Some(key) => files_of(tree).remove(key),
            None => files_of(tree),
        }),
{
    let shrunk = files_of(tree.remove(path));
    let wanted = match key_of_path(path) {
        Some(key) => files_of(tree).remove(key),
        None => files_of(tree),
    };
    assert forall|key: EntryKey| shrunk.contains(key) <==> wanted.contains(key) by {
        if shrunk.contains(key) {
            let from = choose|from: Seq<char>| #[trigger]
                tree.remove(path).contains(from) && key_of_path(from) == Some(key);
            assert(tree.contains(from));
            if key_of_path(path) == Some(key) {
                lemma_one_path_to_a_file(from, path);
            }
        }
        if wanted.contains(key) {
            let from = choose|from: Seq<char>| #[trigger]
                tree.contains(from) && key_of_path(from) == Some(key);
            assert(from != path);
            assert(tree.remove(path).contains(from));
        }
    }
    assert(shrunk =~= wanted);
}

/// Replaying two lists of entries one after the other is replaying them
/// joined.
proof fn lemma_live_of_joined(
    start: Set<EntryKey>,
    first: Seq<EntryView>,
    second: Seq<EntryView>,
    n: int,
)
    requires
        0 <= n <= first.len() + second.len(),
    ensures
        live_from(start, first + second, n) == (if n <= first.len() {
            live_from(start, first, n)
        } else {
            live_from(live_from(start, first, first.len() as int), second, n - first.len())
        }),
    decreases n,
{
    if n > 0 {
        lemma_live_of_joined(start, first, second, n - 1);
        let middle = live_from(start, first, first.len() as int);
        if n <= first.len() {
            assert((first + second)[n - 1] == first[n - 1]);
        } else {
            assert((first + second)[n - 1] == second[n - 1 - first.len()]);
            if n - 1 == first.len() {
                assert(live_from(middle, second, 0) == middle);
            }
            assert(live_from(start, first + second, n - 1) == live_from(
                middle,
                second,
                n - 1 - first.len(),
            ));
        }
    }
}

/// Two lists of entries that replay one after the other replay joined.
proof fn lemma_coherent_of_joined(
    start: Set<EntryKey>,
    first: Seq<EntryView>,
    second: Seq<EntryView>,
)
    requires
        coherent_from(start, first),
        coherent_from(live_from(start, first, first.len() as int), second),
    ensures
        coherent_from(start, first + second),
        live_from(start, first + second, (first + second).len() as int) == live_from(
            live_from(start, first, first.len() as int),
            second,
            second.len() as int,
        ),
{
    let all = first + second;
    assert forall|i: int| #![trigger all[i]] 0 <= i < all.len() implies (all[i].is_add()
        <==> !live_from(start, all, i).contains(all[i].key())) by {
        lemma_live_of_joined(start, first, second, i);
        if i < first.len() {
            assert(all[i] == first[i]);
        } else {
            assert(all[i] == second[i - first.len()]);
        }
    }
    lemma_live_of_joined(start, first, second, all.len() as int);
    if second.len() == 0 {
        assert(all.len() == first.len());
    }
}

/// The entry of a file that goes away from a tree replays on the tree's
/// files, and leaves the files of the tree without it.
proof fn lemma_removal_replays(tree: Tree, path: Seq<char>)
    requires
        holds_tree_paths(tree),
        tree.contains(path),
    ensures
        coherent_from(files_of(tree), removed_entries(path)),
        live_from(files_of(tree), removed_entries(path), removed_entries(path).len() as int)
            == files_of(tree.remove(path)),
{
    let entries = removed_entries(path);
    lemma_files_of_remove(tree, path);
    assert(live_from(files_of(tree), entries, 0) == files_of(tree));
    if entries.len() == 1 {
        assert(key_of_path(path) == Some(entries[0].key()));
        assert(files_of(tree).contains(entries[0].key()));
    }
}

/// The entry of a file that appears in a tree replays on the tree's files,
/// and leaves the files of the tree with it.
proof fn lemma_addition_replays(
    tree: Tree,
    path: Seq<char>,
    content: Option<Seq<char>>,
    timestamp: i64,
)
    requires
        holds_tree_paths(tree),
        is_tree_path(path),
        !tree.contains(path),
        kind_of_path(path) != FileKind::Other ==> content is Some,
    ensures
        coherent_from(files_of(tree), added_entries(path, content, timestamp)),
        live_from(
            files_of(tree),
            added_entries(path, content, timestamp),
            added_entries(path, content, timestamp).len() as int,
        ) == files_of(tree.insert(path)),
        holds_tree_paths(tree.insert(path)),
{
    let entries = added_entries(path, content, timestamp);
    lemma_files_of_insert(tree, path);
    assert(live_from(files_of(tree), entries, 0) == files_of(tree));
    if entries.len() == 1 {
        let key = entries[0].key();
        assert(key_of_path(path) == Some(key));
        if files_of(tree).contains(key) {
            let from = choose|from: Seq<char>| #[trigger]
                tree.contains(from) && key_of_path(from) == Some(key);
            lemma_one_path_to_a_file(from, path);
        }
    }
}

/// The entries of a delta that speaks of a tree and lacks nothing replay on
/// the tree's files, and leave the files of the tree that the delta makes.
proof fn lemma_delta_entries_replay(tree: Tree, delta: DeltaView, timestamp: i64)
    requires
        holds_tree_paths(tree),
        delta_fits_fully(tree, delta),
    ensures
        coherent_from(files_of(tree), delta_entries(delta, timestamp)),
        live_from(
            files_of(tree),
            delta_entries(delta, timestamp),
            delta_entries(delta, timestamp).len() as int,
        ) == files_of(tree_step(tree, delta)),
        holds_tree_paths(tree_step(tree, delta)),
{
    let removals = delta_removals(delta);
    let additions = delta_additions(delta, timestamp);
    let middle: Tree = if status_removes(delta.status) {
        tree.remove(delta.old_file.path->0)
    } else {
        tree
    };
    if status_removes(delta.status) {
        lemma_removal_replays(tree, delta.old_file.path->0);
    } else {
        assert(removals.len() == 0);
        assert(live_from(files_of(tree), removals, 0) == files_of(tree));
    }
    assert(holds_tree_paths(middle));
    if status_adds(delta.status) {
        let path = delta.new_file.path->0;
        assert(!middle.contains(path));
        lemma_addition_replays(middle, path, delta.content, timestamp);
        assert(middle.insert(path) =~= tree_step(tree, delta));
    } else {
        assert(additions.len() == 0);
        assert(live_from(files_of(middle), additions, 0) == files_of(middle));
        assert(middle =~= tree_step(tree, delta));
    }
    lemma_coherent_of_joined(files_of(tree), removals, additions);
}

/// The entries of deltas that speak of a tree, one after another, and lack
/// nothing replay on the tree's files, and leave the files of the tree that
/// the deltas make.
proof fn lemma_deltas_entries_replay(tree: Tree, deltas: Seq<DeltaView>, timestamp: i64, n: int)
    requires
        holds_tree_paths(tree),
        0 <= n <= deltas.len(),
        deltas_fit_fully(tree, deltas, n),
    ensures
        coherent_from(files_of(tree), deltas_entries(deltas, timestamp, n)),
        live_from(
            files_of(tree),
            deltas_entries(deltas, timestamp, n),
            deltas_entries(deltas, timestamp, n).len() as int,
        ) == files_of(tree_after_deltas(tree, deltas, n)),
        holds_tree_paths(tree_after_deltas(tree, deltas, n)),
    decreases n,
{
    if n > 0 {
        lemma_deltas_entries_replay(tree, deltas, timestamp, n - 1);
        let first = deltas_entries(deltas, timestamp, n - 1);
        lemma_delta_entries_replay(
            tree_after_deltas(tree, deltas, n - 1),
            deltas[n - 1],
            timestamp,
        );
        lemma_coherent_of_joined(files_of(tree), first, delta_entries(deltas[n - 1], timestamp));
    } else {
        assert(live_from(files_of(tree), deltas_entries(deltas, timestamp, 0), 0) == files_of(tree));
    }
}

/// The files of the empty tree are none.
proof fn lemma_nothing_has_no_files()
    ensures
        files_of(Set::empty()) == Set::<EntryKey>::empty(),
{
    assert(files_of(Set::empty()) =~= Set::<EntryKey>::empty());
}

/// The entries of a history that lacks nothing replay on the empty tree,
/// and leave the files of the tree of the history.
proof fn lemma_history_entries_replay(commits: Seq<CommitView>, n: int)
    requires
        0 <= n <= commits.len(),
        is_full_history(commits, n),
    ensures
        coherent(commits_entries(commits, n)),
        live(commits_entries(commits, n), commits_entries(commits, n).len() as int) == files_of(
            tree_after(commits, n),
        ),
        holds_tree_paths(tree_after(commits, n)),
    decreases n,
{
    lemma_nothing_has_no_files();
    if n > 0 {
        lemma_history_entries_replay(commits, n - 1);
        let first = commits_entries(commits, n - 1);
        let commit = commits[n - 1];
        lemma_deltas_entries_replay(
            tree_after(commits, n - 1),
            commit.deltas,
            commit.timestamp,
            commit.deltas.len() as int,
        );
        lemma_coherent_of_joined(Set::empty(), first, commit_entries(commit));
    }
}

/// The entries of a history list the files of its tree: where `commits` are
/// a history that lacks nothing, what its entries net out to is additions
/// only, one for each article and each group file that a path of the tree
/// at its end names, and for nothing else.
pub proof fn lemma_entries_list_the_tree(commits: Seq<CommitView>)
    requires
        is_full_history(commits, commits.len() as int),
    ensures
        coherent(raw_entries(commits)),
        live(raw_entries(commits), raw_entries(commits).len() as int) == files_of(
            tree_after(commits, commits.len() as int),
        ),
        forall|at: int|
            0 <= at < stripped(raw_entries(commits)).len() ==> (#[trigger] stripped(
                raw_entries(commits),
            )[at]).is_add() && files_of(tree_after(commits, commits.len() as int)).contains(
                stripped(raw_entries(commits))[at].key(),
            ),
        forall|key: EntryKey| #[trigger]
            files_of(tree_after(commits, commits.len() as int)).contains(key) ==> exists|at: int|
                0 <= at < stripped(raw_entries(commits)).len() && (#[trigger] stripped(
                    raw_entries(commits),
                )[at]).key() == key,
{
    lemma_history_entries_replay(commits, commits.len() as int);
    lemma_snapshot_lists_live_files(raw_entries(commits));
}

/// Directory and file name, joined, give back the path of a tree.
proof fn lemma_parts_join_to_the_path(path: Seq<char>)
    requires
        is_tree_path(path),
    ensures
        joined(parent(path), file_name(path)) == path,
{
    lemma_tree_paths_read_as_they_stand(path);
    lemma_last_index_bounds(path, '/');
    let i = last_index_of(path, '/');
    let name = file_name(path);
    assert(name[0] == path[i + 1]);
    if i < 0 {
        assert(name =~= path);
        assert(parent(path) + name =~= path);
    } else {
        assert(path[i] == '/');
        assert(parent(path).last() == path[i - 1]);
        assert(parent(path) + seq!['/'] + name =~= path);
    }
}

/// An archive holds the tree: where `commits` are a history that lacks
/// nothing, the groups of what the history nets out to hold every path of
/// the tree at its end that names an article or a group file, and no other
/// path.
pub proof fn lemma_archive_holds_the_tree(commits: Seq<CommitView>, now: i64)
    requires
        is_full_history(commits, commits.len() as int),
    ensures
        forall|path: Seq<char>| #[trigger]
            is_archived(stripped(raw_entries(commits)), now, path) ==> tree_after(
                commits,
                commits.len() as int,
            ).contains(path) && kind_of_path(path) != FileKind::Other,
        forall|path: Seq<char>| #[trigger]
            tree_after(commits, commits.len() as int).contains(path) && kind_of_path(path)
                != FileKind::Other ==> is_archived(stripped(raw_entries(commits)), now, path),
{
    let raw = raw_entries(commits);
    let tree = tree_after(commits, commits.len() as int);
    lemma_entries_list_the_tree(commits);
    lemma_history_entries_replay(commits, commits.len() as int);
    lemma_archive_holds_what_is_live(raw, now);
    assert forall|path: Seq<char>| #[trigger]
        is_archived(stripped(raw), now, path) implies tree.contains(path) && kind_of_path(path)
        != FileKind::Other by {
        assert(is_live_path(raw, path));
        let key = choose|key: EntryKey| #[trigger]
            live(raw, raw.len() as int).contains(key) && key_path(key) == path;
        assert(files_of(tree).contains(key));
        let from = choose|from: Seq<char>| #[trigger]
            tree.contains(from) && key_of_path(from) == Some(key);
        lemma_parts_join_to_the_path(from);
        assert(key_path(key) == from);
    }
    assert forall|path: Seq<char>| #[trigger]
        tree.contains(path) && kind_of_path(path) != FileKind::Other implies is_archived(
        stripped(raw),
        now,
        path,
    ) by {
        let key = key_of_path(path)->0;
        assert(files_of(tree).contains(key));
        assert(live(raw, raw.len() as int).contains(key));
        lemma_parts_join_to_the_path(path);
        assert(key_path(key) == path);
    }
}

} // verus!
