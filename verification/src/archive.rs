//! Condensing a history into one commit per moment.
//!
//! An archive replays what a history nets out to: the files it leaves in
//! place, grouped by the time they were committed at, one commit per group,
//! oldest first, on a branch named after the archive's tag.

use vstd::prelude::*;
use vstd::string::*;
use std::collections::BTreeMap;
use crate::clock::{calendar_reaches, local_second};
use crate::entry::{EntryKey, EntryView, GitFileEntry};
use crate::kind::group_file_name;
use crate::path::{join, joined};
use crate::strip::stripped;
use crate::strip_laws::{coherent, lemma_snapshot_lists_live_files, live};

verus! {

/// The name that archive commits are made under.
pub const ARCHIVE_AUTHOR_NAME: &'static str = "gitnote-archive";

/// The address that archive commits are made under.
pub const ARCHIVE_AUTHOR_EMAIL: &'static str = "gitnote-archive@example.com";

/// The path of the file that an entry adds.
pub open spec fn archive_path(entry: EntryView) -> Seq<char> {
    match entry {
        EntryView::ArticleAdded { group, name, .. } => joined(group, name),
        EntryView::GroupAdded { group, .. } => joined(group, group_file_name()),
        _ => Seq::empty(),
    }
}

/// The time that an added file is archived under: an article's own, and
/// `now` for a group's metadata, which has none.
pub open spec fn archive_time(entry: EntryView, now: i64) -> i64 {
    match entry {
        EntryView::ArticleAdded { timestamp, .. } => timestamp,
        _ => now,
    }
}

/// The paths that the first `n` entries add at `time`, in the entries'
/// order.
pub open spec fn paths_at(entries: Seq<EntryView>, now: i64, time: i64, n: int) -> Seq<Seq<char>>
    decreases n,
{
    if n <= 0 {
        Seq::empty()
    } else if entries[n - 1].is_add() && archive_time(entries[n - 1], now) == time {
        paths_at(entries, now, time, n - 1).push(archive_path(entries[n - 1]))
    } else {
        paths_at(entries, now, time, n - 1)
    }
}

/// The times that the first `n` entries add something at.
pub open spec fn group_times(entries: Seq<EntryView>, now: i64, n: int) -> Set<i64>
    decreases n,
{
    if n <= 0 {
        Set::empty()
    } else if entries[n - 1].is_add() {
        group_times(entries, now, n - 1).insert(archive_time(entries[n - 1], now))
    } else {
        group_times(entries, now, n - 1)
    }
}

/// Whether `grouped` holds the additions of the first `n` entries by time.
pub open spec fn groups_first(
    grouped: Map<i64, Vec<String>>,
    entries: Seq<EntryView>,
    now: i64,
    n: int,
) -> bool {
    &&& grouped.dom() == group_times(entries, now, n)
    &&& forall|time: i64| #[trigger]
        grouped.contains_key(time) ==> grouped[time].deep_view() == paths_at(
            entries,
            now,
            time,
            n,
        )
}

/// The full name of the branch that the archive `tag` is kept on.
pub open spec fn branch_ref(tag: Seq<char>) -> Seq<char> {
    "refs/heads/archive/"@ + tag
}

/// The name of the tag that marks the archive `tag`.
pub open spec fn archive_tag(tag: Seq<char>) -> Seq<char> {
    "archive/"@ + tag
}

/// The message of the archive commit of `tag` for the moment that reads
/// `stamp`.
pub open spec fn commit_message(tag: Seq<char>, stamp: Seq<char>) -> Seq<char> {
    "archive: archived("@ + tag + ") at "@ + stamp
}

/// A time without additions has no paths.
pub proof fn lemma_paths_need_time(entries: Seq<EntryView>, now: i64, time: i64, n: int)
    ensures
        !group_times(entries, now, n).contains(time) ==> paths_at(entries, now, time, n).len()
            == 0,
        group_times(entries, now, n).contains(time) ==> paths_at(entries, now, time, n).len() > 0,
        group_times(entries, now, n).finite(),
    decreases n,
{
    if n > 0 {
        lemma_paths_need_time(entries, now, time, n - 1);
    }
}

/// Whether one of the first `n` entries adds `path` at `time`.
pub open spec fn adds_at(
    entries: Seq<EntryView>,
    now: i64,
    time: i64,
    path: Seq<char>,
    n: int,
) -> bool {
    exists|i: int|
        0 <= i < n && (#[trigger] entries[i]).is_add() && archive_time(entries[i], now) == time
            && archive_path(entries[i]) == path
}

/// The groups hold what the entries add, no more and no less: a path stands
/// in the group of a time exactly where an entry adds it at that time.
pub proof fn lemma_groups_hold_the_additions(
    entries: Seq<EntryView>,
    now: i64,
    time: i64,
    path: Seq<char>,
    n: int,
)
    requires
        0 <= n <= entries.len(),
    ensures
        paths_at(entries, now, time, n).contains(path) <==> adds_at(entries, now, time, path, n),
    decreases n,
{
    if n > 0 {
        lemma_groups_hold_the_additions(entries, now, time, path, n - 1);
        let before = paths_at(entries, now, time, n - 1);
        let all = paths_at(entries, now, time, n);
        let last = entries[n - 1];
        if last.is_add() && archive_time(last, now) == time {
            assert(all == before.push(archive_path(last)));
            if all.contains(path) {
                let at = choose|at: int| 0 <= at < all.len() && all[at] == path;
                if at < before.len() {
                    assert(before[at] == path);
                    assert(before.contains(path));
                    let i = choose|i: int|
                        0 <= i < n - 1 && (#[trigger] entries[i]).is_add() && archive_time(
                            entries[i],
                            now,
                        ) == time && archive_path(entries[i]) == path;
                    assert(adds_at(entries, now, time, path, n));
                } else {
                    assert(archive_path(entries[n - 1]) == path);
                    assert(adds_at(entries, now, time, path, n));
                }
            }
            if adds_at(entries, now, time, path, n) {
                let i = choose|i: int|
                    0 <= i < n && (#[trigger] entries[i]).is_add() && archive_time(entries[i], now)
                        == time && archive_path(entries[i]) == path;
                if i < n - 1 {
                    assert(adds_at(entries, now, time, path, n - 1));
                    let at = choose|at: int| 0 <= at < before.len() && before[at] == path;
                    assert(all[at] == path);
                } else {
                    assert(all[all.len() - 1] == path);
                }
            }
        } else {
            assert(all == before);
            if adds_at(entries, now, time, path, n) {
                let i = choose|i: int|
                    0 <= i < n && (#[trigger] entries[i]).is_add() && archive_time(entries[i], now)
                        == time && archive_path(entries[i]) == path;
                assert(i < n - 1);
                assert(adds_at(entries, now, time, path, n - 1));
            }
            if adds_at(entries, now, time, path, n - 1) {
                let i = choose|i: int|
                    0 <= i < n - 1 && (#[trigger] entries[i]).is_add() && archive_time(
                        entries[i],
                        now,
                    ) == time && archive_path(entries[i]) == path;
                assert(adds_at(entries, now, time, path, n));
            }
        }
    }
}

/// The path of the file that a key names.
pub open spec fn key_path(key: EntryKey) -> Seq<char> {
    match key {
        EntryKey::Group { group } => joined(group, group_file_name()),
        EntryKey::Article { group, name } => joined(group, name),
    }
}

/// Whether `path` stands in one of the groups of `entries`.
pub open spec fn is_archived(entries: Seq<EntryView>, now: i64, path: Seq<char>) -> bool {
    exists|time: i64| (#[trigger] paths_at(entries, now, time, entries.len() as int)).contains(path)
}

/// Whether `path` is the path of a file that is in place once `entries`
/// have been replayed on an empty tree.
pub open spec fn is_live_path(entries: Seq<EntryView>, path: Seq<char>) -> bool {
    exists|key: EntryKey| #[trigger]
        live(entries, entries.len() as int).contains(key) && key_path(key) == path
}

/// An archive holds what is there: where `raw` replays a history on an
/// empty tree, the groups of what it nets out to hold the path of every
/// file that is in place at the end, and no other path.
pub proof fn lemma_archive_holds_what_is_live(raw: Seq<EntryView>, now: i64)
    requires
        coherent(raw),
    ensures
        forall|path: Seq<char>| #[trigger]
            is_archived(stripped(raw), now, path) ==> is_live_path(raw, path),
        forall|key: EntryKey| #[trigger]
            live(raw, raw.len() as int).contains(key) ==> is_archived(
                stripped(raw),
                now,
                key_path(key),
            ),
{
    let net = stripped(raw);
    let n = net.len() as int;
    lemma_snapshot_lists_live_files(raw);
    assert forall|path: Seq<char>| #[trigger] is_archived(net, now, path) implies is_live_path(
        raw,
        path,
    ) by {
        let time = choose|time: i64| (#[trigger] paths_at(net, now, time, n)).contains(path);
        lemma_groups_hold_the_additions(net, now, time, path, n);
        let i = choose|i: int|
            0 <= i < n && (#[trigger] net[i]).is_add() && archive_time(net[i], now) == time
                && archive_path(net[i]) == path;
        assert(live(raw, raw.len() as int).contains(net[i].key()));
        assert(key_path(net[i].key()) == path);
    }
    assert forall|key: EntryKey| #[trigger] live(raw, raw.len() as int).contains(key) implies is_archived(
        net,
        now,
        key_path(key),
    ) by {
        let at = choose|at: int| 0 <= at < net.len() && (#[trigger] net[at]).key() == key;
        assert(net[at].is_add());
        let time = archive_time(net[at], now);
        assert(archive_path(net[at]) == key_path(key));
        assert(adds_at(net, now, time, key_path(key), n));
        lemma_groups_hold_the_additions(net, now, time, key_path(key), n);
        assert(paths_at(net, now, time, n).contains(key_path(key)));
    }
}

/// Adds `path` behind the paths that `grouped` holds at `time`.
fn push_at(grouped: &mut BTreeMap<i64, Vec<String>>, time: i64, path: String)
    ensures
        final(grouped)@.dom() == old(grouped)@.dom().insert(time),
        final(grouped)@[time].deep_view() == (if old(grouped)@.contains_key(time) {
            old(grouped)@[time].deep_view().push(path@)
        } else {
            seq![path@]
        }),
        forall|other: i64|
            other != time && old(grouped)@.contains_key(other) ==> final(grouped)@[other] == old(
                grouped,
            )@[other],
{
    broadcast use vstd::std_specs::btree::group_btree_axioms;
    broadcast use vstd::laws_cmp::group_laws_cmp;

    let mut paths: Vec<String> = match grouped.remove(&time) {
        Some(held) => held,
        None => Vec::new(),
    };
    let ghost held = paths.deep_view();
    paths.push(path);
    assert(paths.deep_view() =~= held.push(path@));
    grouped.insert(time, paths);
    assert(final(grouped)@.dom() =~= old(grouped)@.dom().insert(time));
}

/// Groups what `entries` add by the time it is archived under: an article
/// under the time of its commit, a group's metadata under `now`. Each time
/// holds the paths added at it, in the entries' order; removals add nothing.
pub fn group_entries_by_time(entries: &Vec<GitFileEntry>, now: i64) -> (grouped: BTreeMap<
    i64,
    Vec<String>,
>)
    ensures
        groups_first(grouped@, entries.deep_view(), now, entries.len() as int),
        grouped@.len() == group_times(entries.deep_view(), now, entries.len() as int).len(),
{
    let ghost views = entries.deep_view();
    let mut grouped: BTreeMap<i64, Vec<String>> = BTreeMap::new();
    let mut i: usize = 0;
    assert(grouped@.dom() =~= group_times(views, now, 0));
    while i < entries.len()
        invariant
            i <= entries.len(),
            views == entries.deep_view(),
            groups_first(grouped@, views, now, i as int),
        decreases entries.len() - i,
    {
        let ghost before = grouped@;
        assert(views[i as int] == entries[i as int]@);
        let slot: Option<(String, i64)> = match &entries[i] {
            GitFileEntry::ArticleAdded { group, name, timestamp, .. } => Some(
                (join(group.as_str(), name.as_str()), *timestamp),
            ),
            GitFileEntry::GroupAdded { group, .. } => Some(
                (join(group.as_str(), ".group.toml"), now),
            ),
            _ => None,
        };
        match slot {
            Some((path, time)) => {
                assert(path@ == archive_path(views[i as int]));
                assert(time == archive_time(views[i as int], now));
                proof {
                    lemma_paths_need_time(views, now, time, i as int);
                }
                push_at(&mut grouped, time, path);
                assert(grouped@.dom() =~= group_times(views, now, i + 1));
                assert forall|other: i64| #[trigger] grouped@.contains_key(other) implies grouped@[other].deep_view()
                    == paths_at(views, now, other, i + 1) by {
                    if other != time {
                        assert(before.contains_key(other));
                    }
                }
            },
            None => {},
        }
        i += 1;
    }
    proof {
        lemma_paths_need_time(views, now, now, entries.len() as int);
    }
    grouped
}

/// The full name of the branch that the archive `tag` is kept on.
pub fn reference_name(tag: &str) -> (name: String)
    ensures
        name@ == branch_ref(tag@),
{
    let mut name = String::from_str("refs/heads/archive/");
    name.append(tag);
    name
}

/// The message of the archive commit of `tag` for the moment that reads
/// `stamp`.
pub fn commit_message_with(tag: &str, stamp: &str) -> (message: String)
    ensures
        message@ == commit_message(tag@, stamp@),
{
    let mut message = String::from_str("archive: archived(");
    message.append(tag);
    message.append(") at ");
    message.append(stamp);
    message
}

/// The message of the archive commit of `tag` for the group of `time`, read
/// off the local calendar; `None` where the calendar does not reach it.
pub fn archive_message(tag: &str, time: i64) -> (message: Option<String>)
    ensures
        message is Some <==> calendar_reaches(time),
        match message {
            Some(text) => exists|stamp: Seq<char>| text@ == commit_message(tag@, stamp),
            None => true,
        },
{
    match local_second(time) {
        Some(stamp) => {
            let text = commit_message_with(tag, stamp.as_str());
            assert(text@ == commit_message(tag@, stamp@));
            Some(text)
        },
        None => None,
    }
}

/// What one run of the archiver did.
#[derive(Debug, Clone, PartialEq, Eq)]
pub struct ArchivedInfo {
    /// The full name of the branch that was set.
    pub branch: String,
    /// When the run began, in seconds since the epoch.
    pub datetime: i64,
    /// How long the run took: whole seconds, and the nanoseconds beyond.
    pub duration_secs: u64,
    pub duration_nanos: u32,
    /// The entries that were archived.
    pub repo_entries: Vec<GitFileEntry>,
}

/// How many of the first `n` entries are articles added.
pub open spec fn articles_added(entries: Seq<EntryView>, n: int) -> nat
    decreases n,
{
    if n <= 0 {
        0
    } else if entries[n - 1] is ArticleAdded {
        articles_added(entries, n - 1) + 1
    } else {
        articles_added(entries, n - 1)
    }
}

/// How many of the first `n` entries are group files added.
pub open spec fn groups_added(entries: Seq<EntryView>, n: int) -> nat
    decreases n,
{
    if n <= 0 {
        0
    } else if entries[n - 1] is GroupAdded {
        groups_added(entries, n - 1) + 1
    } else {
        groups_added(entries, n - 1)
    }
}

/// The report of a run that took `elapsed` seconds, set `branch`, archived
/// `files` articles and `configs` group files, and began at the moment that
/// reads `stamp`.
pub open spec fn report(
    elapsed: Seq<char>,
    branch: Seq<char>,
    files: nat,
    configs: nat,
    stamp: Seq<char>,
) -> Seq<char> {
    "[ARCHIVE SUMMARY] Archive completed successfully in "@ + elapsed + "s\n[branch]    => "@
        + branch + "\n[entries]   => "@ + crate::text::decimal(files) + " files, "@
        + crate::text::decimal(configs) + " configs\n[datetime]  => "@ + stamp + "\n"@
}

impl ArchivedInfo {
    /// How many articles and how many group files the run archived.
    pub fn counts(&self) -> (counts: (usize, usize))
        ensures
            counts.0 == articles_added(self.repo_entries.deep_view(), self.repo_entries.len() as int),
            counts.1 == groups_added(self.repo_entries.deep_view(), self.repo_entries.len() as int),
    {
        let ghost views = self.repo_entries.deep_view();
        let mut files: usize = 0;
        let mut configs: usize = 0;
        let mut i: usize = 0;
        while i < self.repo_entries.len()
            invariant
                i <= self.repo_entries.len(),
                views == self.repo_entries.deep_view(),
                files == articles_added(views, i as int),
                configs == groups_added(views, i as int),
                files <= i,
                configs <= i,
            decreases self.repo_entries.len() - i,
        {
            assert(views[i as int] == self.repo_entries[i as int]@);
            match &self.repo_entries[i] {
                GitFileEntry::ArticleAdded { .. } => {
                    files += 1;
                },
                GitFileEntry::GroupAdded { .. } => {
                    configs += 1;
                },
                _ => {},
            }
            i += 1;
        }
        (files, configs)
    }

    /// The report of the run; `elapsed` is how its duration in seconds
    /// reads, and `stamp` how the moment it began at reads.
    pub fn summary_with(&self, elapsed: &str, stamp: &str) -> (text: String)
        ensures
            text@ == report(
                elapsed@,
                self.branch@,
                articles_added(self.repo_entries.deep_view(), self.repo_entries.len() as int),
                groups_added(self.repo_entries.deep_view(), self.repo_entries.len() as int),
                stamp@,
            ),
    {
        let (files, configs) = self.counts();
        let mut text = String::from_str("[ARCHIVE SUMMARY] Archive completed successfully in ");
        text.append(elapsed);
        text.append("s\n[branch]    => ");
        text.append(self.branch.as_str());
        text.append("\n[entries]   => ");
        text.append(crate::text::decimal_text(files).as_str());
        text.append(" files, ");
        text.append(crate::text::decimal_text(configs).as_str());
        text.append(" configs\n[datetime]  => ");
        text.append(stamp);
        text.append("\n");
        text
    }

    /// The report of the run, with the moment it began at read off the local
    /// calendar; `None` where the calendar does not reach it.
    pub fn summary(&self, elapsed: &str) -> (text: Option<String>)
        ensures
            text is Some <==> calendar_reaches(self.datetime),
            match text {
                Some(t) => exists|stamp: Seq<char>|
                    t@ == report(
                        elapsed@,
                        self.branch@,
                        articles_added(
                            self.repo_entries.deep_view(),
                            self.repo_entries.len() as int,
                        ),
                        groups_added(self.repo_entries.deep_view(), self.repo_entries.len() as int),
                        stamp,
                    ),
                None => true,
            },
    {
        match local_second(self.datetime) {
            Some(stamp) => {
                let t = self.summary_with(elapsed, stamp.as_str());
                assert(t@ == report(
                    elapsed@,
                    self.branch@,
                    articles_added(self.repo_entries.deep_view(), self.repo_entries.len() as int),
                    groups_added(self.repo_entries.deep_view(), self.repo_entries.len() as int),
                    stamp@,
                ));
                Some(t)
            },
            None => None,
        }
    }
}

} // verus!
