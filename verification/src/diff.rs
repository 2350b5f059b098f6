//! From the tree deltas of the commits in a range to change records.
//!
//! A delta is what comparing a commit's tree with the tree before it gives
//! for one file. Whoever walks the repository hands the deltas over as plain
//! values, oldest commit first; nothing here reads a repository.

use vstd::prelude::*;
use vstd::string::*;
use crate::entry::{EntryView, GitFileEntry, RepoEntry, RepoEntryView};
use crate::kind::{kind_of_path, ChangeKind, FileKind};
use crate::path::{file_name, file_name_of, parent, parent_of};

verus! {

/// What happened to a file between two trees.
#[derive(Debug, Clone, Copy, PartialEq, Eq, Structural)]
pub enum DeltaStatus {
    Unmodified,
    Added,
    Deleted,
    Modified,
    Renamed,
    Copied,
    Ignored,
    Untracked,
    Typechange,
    Unreadable,
    Conflicted,
}

/// One side of a delta: a blob and the path it stands at, if it has one.
#[derive(Debug, Clone, PartialEq, Eq)]
pub struct DiffFile {
    pub id: String,
    pub path: Option<String>,
}

/// One file's change between a commit's tree and the tree before it.
///
/// `content` is the text of the new side's blob, where it was read and is
/// valid UTF-8. An entry that needs a text it cannot have is left out, and
/// the diff goes on: a blob that does not decode never fails the whole.
#[derive(Debug, Clone, PartialEq, Eq)]
pub struct Delta {
    pub status: DeltaStatus,
    pub old_file: DiffFile,
    pub new_file: DiffFile,
    pub content: Option<String>,
}

/// The deltas of one commit, with the time the commit was made at (seconds
/// since the epoch).
#[derive(Debug, Clone, PartialEq, Eq)]
pub struct CommitDelta {
    pub timestamp: i64,
    pub deltas: Vec<Delta>,
}

/// What a [`DiffFile`] holds, as plain values.
pub struct DiffFileView {
    pub id: Seq<char>,
    pub path: Option<Seq<char>>,
}

/// What a [`Delta`] holds, as plain values.
pub struct DeltaView {
    pub status: DeltaStatus,
    pub old_file: DiffFileView,
    pub new_file: DiffFileView,
    pub content: Option<Seq<char>>,
}

/// What a [`CommitDelta`] holds, as plain values.
pub struct CommitView {
    pub timestamp: i64,
    pub deltas: Seq<DeltaView>,
}

/// The characters of a text that may be missing.
pub open spec fn text_view(text: Option<String>) -> Option<Seq<char>> {
    match text {
        Some(t) => Some(t@),
        None => None,
    }
}

impl View for DiffFile {
    type V = DiffFileView;

    open spec fn view(&self) -> DiffFileView {
        DiffFileView { id: self.id@, path: text_view(self.path) }
    }
}

impl View for Delta {
    type V = DeltaView;

    open spec fn view(&self) -> DeltaView {
        DeltaView {
            status: self.status,
            old_file: self.old_file@,
            new_file: self.new_file@,
            content: text_view(self.content),
        }
    }
}

impl DeepView for Delta {
    type V = DeltaView;

    open spec fn deep_view(&self) -> DeltaView {
        self@
    }
}

impl View for CommitDelta {
    type V = CommitView;

    open spec fn view(&self) -> CommitView {
        CommitView { timestamp: self.timestamp, deltas: self.deltas.deep_view() }
    }
}

impl DeepView for CommitDelta {
    type V = CommitView;

    open spec fn deep_view(&self) -> CommitView {
        self@
    }
}

/// Whether a delta of this status puts a file at its new path.
pub open spec fn status_adds(status: DeltaStatus) -> bool {
    status == DeltaStatus::Added || status == DeltaStatus::Copied || status
        == DeltaStatus::Modified || status == DeltaStatus::Renamed
}

/// Whether a delta of this status takes the file at its old path away.
pub open spec fn status_removes(status: DeltaStatus) -> bool {
    status == DeltaStatus::Deleted || status == DeltaStatus::Modified || status
        == DeltaStatus::Renamed
}

/// The entry for a file that appeared at `path` with the text `content` in
/// a commit made at `timestamp`: none for a file of another kind, and none
/// where the text is missing.
pub open spec fn added_entries(path: Seq<char>, content: Option<Seq<char>>, timestamp: i64) -> Seq<
    EntryView,
> {
    match (kind_of_path(path), content) {
        (FileKind::Group, Some(text)) => seq![
            EntryView::GroupAdded { group: parent(path), content: text },
        ],
        (FileKind::Markdown, Some(text)) => seq![
            EntryView::ArticleAdded {
                group: parent(path),
                name: file_name(path),
                timestamp,
                content: text,
            },
        ],
        _ => Seq::empty(),
    }
}

/// The entry for a file that went away from `path`: none for a file of
/// another kind.
pub open spec fn removed_entries(path: Seq<char>) -> Seq<EntryView> {
    match kind_of_path(path) {
        FileKind::Group => seq![EntryView::GroupRemoved { group: parent(path) }],
        FileKind::Markdown => seq![
            EntryView::ArticleRemoved { group: parent(path), name: file_name(path) },
        ],
        FileKind::Other => Seq::empty(),
    }
}

/// What a delta takes away: the file at its old path, where its status
/// removes one and the old side has a path.
pub open spec fn delta_removals(delta: DeltaView) -> Seq<EntryView> {
    match delta.old_file.path {
        Some(path) if status_removes(delta.status) => removed_entries(path),
        _ => Seq::empty(),
    }
}

/// What a delta puts in place: the file at its new path, where its status
/// adds one and the new side has a path.
pub open spec fn delta_additions(delta: DeltaView, timestamp: i64) -> Seq<EntryView> {
    match delta.new_file.path {
        Some(path) if status_adds(delta.status) => added_entries(path, delta.content, timestamp),
        _ => Seq::empty(),
    }
}

/// The entries of one delta of a commit made at `timestamp`: an added or
/// copied file gives an addition, a deleted one a removal, a modified or
/// renamed one the removal of the old path and then the addition of the new,
/// and any other status nothing.
pub open spec fn delta_entries(delta: DeltaView, timestamp: i64) -> Seq<EntryView> {
    delta_removals(delta) + delta_additions(delta, timestamp)
}

/// The entries of the first `n` deltas of a commit, in the deltas' order.
pub open spec fn deltas_entries(deltas: Seq<DeltaView>, timestamp: i64, n: int) -> Seq<EntryView>
    decreases n,
{
    if n <= 0 {
        Seq::empty()
    } else {
        deltas_entries(deltas, timestamp, n - 1) + delta_entries(deltas[n - 1], timestamp)
    }
}

/// The entries of a commit: those of its deltas, each stamped with the time
/// of the commit.
pub open spec fn commit_entries(commit: CommitView) -> Seq<EntryView> {
    deltas_entries(commit.deltas, commit.timestamp, commit.deltas.len() as int)
}

/// The entries of the first `n` commits of a range, oldest commit first.
pub open spec fn commits_entries(commits: Seq<CommitView>, n: int) -> Seq<EntryView>
    decreases n,
{
    if n <= 0 {
        Seq::empty()
    } else {
        commits_entries(commits, n - 1) + commit_entries(commits[n - 1])
    }
}

/// Every entry of a range of commits, before anything is netted out.
pub open spec fn raw_entries(commits: Seq<CommitView>) -> Seq<EntryView> {
    commits_entries(commits, commits.len() as int)
}

/// Whether the text of a delta's new blob is wanted: the delta puts a group
/// file or an article at its new path.
pub open spec fn wants_content(delta: DeltaView) -> bool {
    match delta.new_file.path {
        Some(path) => status_adds(delta.status) && kind_of_path(path) != FileKind::Other,
        None => false,
    }
}

/// Whether a delta of this status puts a file at its new path.
pub fn adds(status: DeltaStatus) -> (yes: bool)
    ensures
        yes == status_adds(status),
{
    match status {
        DeltaStatus::Added | DeltaStatus::Copied | DeltaStatus::Modified
        | DeltaStatus::Renamed => true,
        _ => false,
    }
}

/// Whether a delta of this status takes the file at its old path away.
pub fn removes(status: DeltaStatus) -> (yes: bool)
    ensures
        yes == status_removes(status),
{
    match status {
        DeltaStatus::Deleted | DeltaStatus::Modified | DeltaStatus::Renamed => true,
        _ => false,
    }
}

impl Delta {
    /// Whether the text of the new blob has to be read for this delta.
    pub fn needs_content(&self) -> (yes: bool)
        ensures
            yes == wants_content(self@),
    {
        match &self.new_file.path {
            Some(path) => {
                if adds(self.status) {
                    match FileKind::from_path(path.as_str()) {
                        FileKind::Other => false,
                        _ => true,
                    }
                } else {
                    false
                }
            },
            None => false,
        }
    }
}

/// Appends the entry for a file that appeared at `path`.
pub fn push_new_file_entry(
    entries: &mut Vec<GitFileEntry>,
    path: &str,
    content: &Option<String>,
    timestamp: i64,
)
    ensures
        final(entries).deep_view() == old(entries).deep_view() + added_entries(
            path@,
            text_view(*content),
            timestamp,
        ),
{
    let ghost before = entries.deep_view();
    match content {
        Some(text) => {
            match FileKind::from_path(path) {
                FileKind::Group => {
                    let entry = GitFileEntry::GroupAdded {
                        group: parent_of(path),
                        content: text.clone(),
                    };
                    entries.push(entry);
                    assert(entries.deep_view() =~= before + seq![entry@]);
                },
                FileKind::Markdown => {
                    let entry = GitFileEntry::ArticleAdded {
                        group: parent_of(path),
                        name: file_name_of(path),
                        timestamp,
                        content: text.clone(),
                    };
                    entries.push(entry);
                    assert(entries.deep_view() =~= before + seq![entry@]);
                },
                FileKind::Other => {
                    assert(before =~= before + Seq::<EntryView>::empty());
                },
            }
        },
        None => {
            assert(before =~= before + Seq::<EntryView>::empty());
        },
    }
}

/// Appends the entry for a file that went away from `path`.
pub fn push_remove_file_entry(entries: &mut Vec<GitFileEntry>, path: &str)
    ensures
        final(entries).deep_view() == old(entries).deep_view() + removed_entries(path@),
{
    let ghost before = entries.deep_view();
    match FileKind::from_path(path) {
        FileKind::Group => {
            let entry = GitFileEntry::GroupRemoved { group: parent_of(path) };
            entries.push(entry);
            assert(entries.deep_view() =~= before + seq![entry@]);
        },
        FileKind::Markdown => {
            let entry = GitFileEntry::ArticleRemoved {
                group: parent_of(path),
                name: file_name_of(path),
            };
            entries.push(entry);
            assert(entries.deep_view() =~= before + seq![entry@]);
        },
        FileKind::Other => {
            assert(before =~= before + Seq::<EntryView>::empty());
        },
    }
}

/// Appends the entries of one delta of a commit made at `timestamp`.
pub fn handle_delta(entries: &mut Vec<GitFileEntry>, delta: &Delta, timestamp: i64)
    ensures
        final(entries).deep_view() == old(entries).deep_view() + delta_entries(
            delta@,
            timestamp,
        ),
{
    let ghost before = entries.deep_view();
    if removes(delta.status) {
        match &delta.old_file.path {
            Some(path) => {
                push_remove_file_entry(entries, path.as_str());
            },
            None => {},
        }
    }
    assert(entries.deep_view() =~= before + delta_removals(delta@));
    if adds(delta.status) {
        match &delta.new_file.path {
            Some(path) => {
                push_new_file_entry(entries, path.as_str(), &delta.content, timestamp);
            },
            None => {},
        }
    }
    assert(entries.deep_view() =~= before + delta_entries(delta@, timestamp));
}

/// Appends the entries of a commit.
pub fn push_commit_diff(entries: &mut Vec<GitFileEntry>, commit: &CommitDelta)
    ensures
        final(entries).deep_view() == old(entries).deep_view() + commit_entries(commit@),
{
    let ghost before = entries.deep_view();
    let ghost deltas = commit.deltas.deep_view();
    let ghost timestamp = commit.timestamp;
    let mut i: usize = 0;
    assert(entries.deep_view() =~= before + deltas_entries(deltas, timestamp, 0));
    while i < commit.deltas.len()
        invariant
            i <= commit.deltas.len(),
            deltas == commit.deltas.deep_view(),
            timestamp == commit.timestamp,
            entries.deep_view() == before + deltas_entries(deltas, timestamp, i as int),
        decreases commit.deltas.len() - i,
    {
        let ghost so_far = entries.deep_view();
        handle_delta(entries, &commit.deltas[i], commit.timestamp);
        assert(deltas[i as int] == commit.deltas[i as int]@);
        assert(entries.deep_view() =~= before + deltas_entries(deltas, timestamp, i + 1));
        i += 1;
    }
}

/// The entries of one commit against the tree before it.
pub fn compute_commit_diff(commit: &CommitDelta) -> (entries: Vec<GitFileEntry>)
    ensures
        entries.deep_view() == commit_entries(commit@),
{
    let mut entries: Vec<GitFileEntry> = Vec::new();
    assert(entries.deep_view() =~= Seq::<EntryView>::empty());
    push_commit_diff(&mut entries, commit);
    assert(entries.deep_view() =~= commit_entries(commit@));
    entries
}

/// Every entry of a range of commits, oldest commit first, before anything
/// is netted out.
pub fn collect_entries(commits: &Vec<CommitDelta>) -> (entries: Vec<GitFileEntry>)
    ensures
        entries.deep_view() == raw_entries(commits.deep_view()),
{
    let mut entries: Vec<GitFileEntry> = Vec::new();
    let ghost views = commits.deep_view();
    let mut i: usize = 0;
    assert(entries.deep_view() =~= commits_entries(views, 0));
    while i < commits.len()
        invariant
            i <= commits.len(),
            views == commits.deep_view(),
            entries.deep_view() == commits_entries(views, i as int),
        decreases commits.len() - i,
    {
        push_commit_diff(&mut entries, &commits[i]);
        assert(views[i as int] == commits[i as int]@);
        i += 1;
    }
    entries
}

/// The record of the change `change_kind` to one side of a delta: none
/// where that side has no path, and none where the path names neither a
/// group file nor an article.
pub open spec fn file_records(file: DiffFileView, change_kind: ChangeKind, timestamp: i64) -> Seq<
    RepoEntryView,
> {
    match file.path {
        Some(path) if kind_of_path(path) != FileKind::Other => seq![
            RepoEntryView {
                id: file.id,
                path,
                change_kind,
                file_kind: kind_of_path(path),
                timestamp,
            },
        ],
        _ => Seq::empty(),
    }
}

/// The records of one delta of a commit made at `timestamp`: an added or
/// copied file is added at its new path, a deleted one deleted at its old
/// path, a modified one modified at its new path, a renamed one deleted at
/// its old path and then added at its new one; any other status gives
/// nothing. Only group files and articles are recorded.
pub open spec fn delta_records(delta: DeltaView, timestamp: i64) -> Seq<RepoEntryView> {
    match delta.status {
        DeltaStatus::Added | DeltaStatus::Copied => file_records(
            delta.new_file,
            ChangeKind::Added,
            timestamp,
        ),
        DeltaStatus::Deleted => file_records(delta.old_file, ChangeKind::Deleted, timestamp),
        DeltaStatus::Modified => file_records(delta.new_file, ChangeKind::Modified, timestamp),
        DeltaStatus::Renamed => file_records(delta.old_file, ChangeKind::Deleted, timestamp)
            + file_records(delta.new_file, ChangeKind::Added, timestamp),
        _ => Seq::empty(),
    }
}

/// The records of the first `n` deltas of a commit, in the deltas' order.
pub open spec fn deltas_records(deltas: Seq<DeltaView>, timestamp: i64, n: int) -> Seq<
    RepoEntryView,
>
    decreases n,
{
    if n <= 0 {
        Seq::empty()
    } else {
        deltas_records(deltas, timestamp, n - 1) + delta_records(deltas[n - 1], timestamp)
    }
}

/// The records of a commit: those of its deltas, each stamped with the time
/// of the commit.
pub open spec fn commit_records(commit: CommitView) -> Seq<RepoEntryView> {
    deltas_records(commit.deltas, commit.timestamp, commit.deltas.len() as int)
}

/// The records of the first `n` commits of a range, oldest commit first.
pub open spec fn commits_records(commits: Seq<CommitView>, n: int) -> Seq<RepoEntryView>
    decreases n,
{
    if n <= 0 {
        Seq::empty()
    } else {
        commits_records(commits, n - 1) + commit_records(commits[n - 1])
    }
}

/// Every record of a range of commits, before anything is netted out.
pub open spec fn raw_records(commits: Seq<CommitView>) -> Seq<RepoEntryView> {
    commits_records(commits, commits.len() as int)
}

/// Appends the record of the change `change_kind` to one side of a delta.
pub fn push_file_record(
    records: &mut Vec<RepoEntry>,
    file: &DiffFile,
    change_kind: ChangeKind,
    timestamp: i64,
)
    ensures
        final(records).deep_view() == old(records).deep_view() + file_records(
            file@,
            change_kind,
            timestamp,
        ),
{
    let ghost before = records.deep_view();
    match &file.path {
        Some(path) => {
            match FileKind::from_path(path.as_str()) {
                FileKind::Other => {
                    assert(before =~= before + Seq::<RepoEntryView>::empty());
                },
                file_kind => {
                    let record = RepoEntry::new(
                        file.id.clone(),
                        path.clone(),
                        change_kind,
                        file_kind,
                        timestamp,
                    );
                    records.push(record);
                    assert(records.deep_view() =~= before + seq![record@]);
                },
            }
        },
        None => {
            assert(before =~= before + Seq::<RepoEntryView>::empty());
        },
    }
}

/// Appends the records of one delta of a commit made at `timestamp`.
pub fn push_delta_records(records: &mut Vec<RepoEntry>, delta: &Delta, timestamp: i64)
    ensures
        final(records).deep_view() == old(records).deep_view() + delta_records(
            delta@,
            timestamp,
        ),
{
    let ghost before = records.deep_view();
    match delta.status {
        DeltaStatus::Added | DeltaStatus::Copied => {
            push_file_record(records, &delta.new_file, ChangeKind::Added, timestamp);
        },
        DeltaStatus::Deleted => {
            push_file_record(records, &delta.old_file, ChangeKind::Deleted, timestamp);
        },
        DeltaStatus::Modified => {
            push_file_record(records, &delta.new_file, ChangeKind::Modified, timestamp);
        },
        DeltaStatus::Renamed => {
            push_file_record(records, &delta.old_file, ChangeKind::Deleted, timestamp);
            push_file_record(records, &delta.new_file, ChangeKind::Added, timestamp);
            assert(records.deep_view() =~= before + delta_records(delta@, timestamp));
        },
        _ => {
            assert(before =~= before + Seq::<RepoEntryView>::empty());
        },
    }
}

/// Appends the records of a commit.
pub fn push_commit_records(records: &mut Vec<RepoEntry>, commit: &CommitDelta)
    ensures
        final(records).deep_view() == old(records).deep_view() + commit_records(commit@),
{
    let ghost before = records.deep_view();
    let ghost deltas = commit.deltas.deep_view();
    let ghost timestamp = commit.timestamp;
    let mut i: usize = 0;
    assert(records.deep_view() =~= before + deltas_records(deltas, timestamp, 0));
    while i < commit.deltas.len()
        invariant
            i <= commit.deltas.len(),
            deltas == commit.deltas.deep_view(),
            timestamp == commit.timestamp,
            records.deep_view() == before + deltas_records(deltas, timestamp, i as int),
        decreases commit.deltas.len() - i,
    {
        push_delta_records(records, &commit.deltas[i], commit.timestamp);
        assert(deltas[i as int] == commit.deltas[i as int]@);
        assert(records.deep_view() =~= before + deltas_records(deltas, timestamp, i + 1));
        i += 1;
    }
}

/// The records of one commit against the tree before it.
pub fn into_entry(commit: &CommitDelta) -> (records: Vec<RepoEntry>)
    ensures
        records.deep_view() == commit_records(commit@),
{
    let mut records: Vec<RepoEntry> = Vec::new();
    assert(records.deep_view() =~= Seq::<RepoEntryView>::empty());
    push_commit_records(&mut records, commit);
    assert(records.deep_view() =~= commit_records(commit@));
    records
}

/// Every record of a range of commits, oldest commit first, before anything
/// is netted out.
pub fn collect_records(commits: &Vec<CommitDelta>) -> (records: Vec<RepoEntry>)
    ensures
        records.deep_view() == raw_records(commits.deep_view()),
{
    let mut records: Vec<RepoEntry> = Vec::new();
    let ghost views = commits.deep_view();
    let mut i: usize = 0;
    assert(records.deep_view() =~= commits_records(views, 0));
    while i < commits.len()
        invariant
            i <= commits.len(),
            views == commits.deep_view(),
            records.deep_view() == commits_records(views, i as int),
        decreases commits.len() - i,
    {
        push_commit_records(&mut records, &commits[i]);
        assert(views[i as int] == commits[i as int]@);
        i += 1;
    }
    records
}

} // verus!
