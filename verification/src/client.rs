//! A repository as this library sees it.
//!
//! What reads the object store implements [`GitOperation`], and says what it
//! holds for a range of commits and for a blob id. The client on top of it
//! checks revisions, nets what the store holds, and decodes what a blob
//! holds; its contracts are stated over what the store holds.

use vstd::prelude::*;
use vstd::utf8::{decode_utf8, valid_utf8};
use crate::archive::branch_ref;
use crate::archiver::{archives, plan_archive, ArchivePlan};
use crate::diff::{CommitDelta, CommitView};
use crate::entry::{EntryView, GitFileEntry, RepoEntry, RepoEntryView};
use crate::repo::{
    empty_tree_id, is_object_id, load_blob, oid_refusal, resolve_range, resolved, DiffRange,
    DiffRangeView, GitError, GitErrorView,
};
use crate::sync::{diff_commits, diff_commits_range, net_entries, range_records, snapshot_records};

verus! {

/// What a store answered for a range, as plain values.
pub open spec fn commits_view(answer: Result<Vec<CommitDelta>, GitError>) -> Result<
    Seq<CommitView>,
    GitErrorView,
> {
    match answer {
        Ok(commits) => Ok(commits.deep_view()),
        Err(error) => Err(error@),
    }
}

/// What a store answered for a blob id, as plain values.
pub open spec fn bytes_view(answer: Option<Vec<u8>>) -> Option<Seq<u8>> {
    match answer {
        Some(bytes) => Some(bytes@),
        None => None,
    }
}

/// The records that a diff gave, as plain values.
pub open spec fn records_view(answer: Result<Vec<RepoEntry>, GitError>) -> Result<
    Seq<RepoEntryView>,
    GitErrorView,
> {
    match answer {
        Ok(records) => Ok(records.deep_view()),
        Err(error) => Err(error@),
    }
}

/// The entries that a diff gave, as plain values.
pub open spec fn entries_view(answer: Result<Vec<GitFileEntry>, GitError>) -> Result<
    Seq<EntryView>,
    GitErrorView,
> {
    match answer {
        Ok(entries) => Ok(entries.deep_view()),
        Err(error) => Err(error@),
    }
}

/// The text that was read, as plain values.
pub open spec fn text_view(answer: Result<String, GitError>) -> Result<Seq<char>, GitErrorView> {
    match answer {
        Ok(text) => Ok(text@),
        Err(error) => Err(error@),
    }
}

/// The text of what a store holds for a blob id: the bytes decoded where
/// there are any and they are valid UTF-8, else `NotFound`.
pub open spec fn text_held(bytes: Option<Seq<u8>>) -> Result<Seq<char>, GitErrorView> {
    match bytes {
        Some(raw) if valid_utf8(raw) => Ok(decode_utf8(raw)),
        _ => Err(GitErrorView::NotFound),
    }
}

/// What the client needs of an object store.
///
/// The two spec functions say what the store holds, and the two reading
/// methods promise to answer with it. An implementation that is verified
/// states them for its own data; one written outside the verifier leaves
/// them as they stand, of which nothing is known, and only promises.
pub trait GitOperation {
    /// What the store holds for `range`: its commits, oldest first in
    /// topological order, each with its deltas against the commit before it
    /// in that order, the first against the base of the range, or against
    /// the empty tree where the range has no base; or the failure to walk
    /// it, as where a revision of the range names no commit.
    open spec fn commits_held(&self, range: DiffRangeView) -> Result<
        Seq<CommitView>,
        GitErrorView,
    > {
        arbitrary()
    }

    /// The bytes of the blob `blob_id`, if the store has it.
    open spec fn blob_held(&self, blob_id: Seq<char>) -> Option<Seq<u8>> {
        arbitrary()
    }

    /// Brings the store up to date with what it mirrors. Nothing is
    /// promised of what it holds afterwards.
    fn remote_update(&mut self) -> Result<(), GitError>;

    /// What the store holds for `range`.
    fn commits_in_range(&self, range: &DiffRange) -> (commits: Result<Vec<CommitDelta>, GitError>)
        ensures
            commits_view(commits) == self.commits_held(range@),
    ;

    /// What the store holds for `blob_id`.
    fn blob_bytes(&self, blob_id: &str) -> (bytes: Option<Vec<u8>>)
        ensures
            bytes_view(bytes) == self.blob_held(blob_id@),
    ;
}

/// A repository, read through `R`.
pub struct GitClient<R: GitOperation>(R);

impl<R: GitOperation> GitClient<R> {
    /// The store that the client reads through.
    pub closed spec fn store(&self) -> R {
        self.0
    }

    /// What a diff from `old` to `new` says. A revision that is no object
    /// id is refused, `old` before `new`. Else it is what the commits that
    /// the store holds for the range come to, or the store's failure: from
    /// a base the net change of each path, from the beginning the list of
    /// what is there.
    pub open spec fn records_between(&self, old: Seq<char>, new: Seq<char>) -> Result<
        Seq<RepoEntryView>,
        GitErrorView,
    > {
        match resolved(old, new) {
            Ok(range) => match self.store().commits_held(range) {
                Ok(commits) => Ok(range_records(commits, range.base is Some)),
                Err(failure) => Err(failure),
            },
            Err(refusal) => Err(refusal),
        }
    }

    /// The entries of a diff from `old` to `new`. A revision that is no
    /// object id is refused, `old` before `new`. Else they are what the
    /// commits that the store holds for the range net out to, or the
    /// store's failure.
    pub open spec fn entries_between(&self, old: Seq<char>, new: Seq<char>) -> Result<
        Seq<EntryView>,
        GitErrorView,
    > {
        match resolved(old, new) {
            Ok(range) => match self.store().commits_held(range) {
                Ok(commits) => Ok(net_entries(commits)),
                Err(failure) => Err(failure),
            },
            Err(refusal) => Err(refusal),
        }
    }

    /// A client that reads through `store`.
    pub fn new(store: R) -> (client: Self)
        ensures
            client.store() == store,
    {
        GitClient(store)
    }

    /// The store that the client reads through.
    pub fn repo(&self) -> (store: &R)
        ensures
            *store == self.store(),
    {
        &self.0
    }

    /// The client once its store was asked to bring itself up to date: the
    /// client where that went well, the failure where it did not. What the
    /// store holds afterwards, and whether the update goes well, is the
    /// store's to say.
    pub fn fetch(self) -> (client: Result<Self, GitError>) {
        let mut client = self;
        let outcome = client.0.remote_update();
        client.updated(outcome)
    }

    /// The client once its store was asked to bring itself up to date, given
    /// how that went: the same client where it went well, and the failure
    /// where it did not.
    pub fn updated(self, outcome: Result<(), GitError>) -> (client: Result<Self, GitError>)
        ensures
            client == (match outcome {
                Ok(_) => Ok::<Self, GitError>(self),
                Err(error) => Err(error),
            }),
    {
        match outcome {
            Ok(_) => Ok(self),
            Err(error) => Err(error),
        }
    }

    /// The changes from `old_commit_str` to `new_commit_str`. A revision
    /// that is no object id is refused before the store is asked. Else the
    /// answer is made of what the store holds for the range, and the
    /// store's failure is handed on as it is.
    pub fn diff_commits(&self, old_commit_str: &str, new_commit_str: &str) -> (records: Result<
        Vec<RepoEntry>,
        GitError,
    >)
        ensures
            records_view(records) == self.records_between(old_commit_str@, new_commit_str@),
    {
        let range = match resolve_range(old_commit_str, new_commit_str) {
            Ok(range) => range,
            Err(error) => {
                return Err(error);
            },
        };
        match self.0.commits_in_range(&range) {
            Ok(commits) => Ok(diff_commits_range(&commits, range.base.is_some())),
            Err(error) => Err(error),
        }
    }

    /// What is visible at `commit_str`: the diff from the empty tree to it,
    /// which lists each file that is there once, as an addition.
    pub fn snapshot(&self, commit_str: &str) -> (records: Result<Vec<RepoEntry>, GitError>)
        ensures
            records_view(records) == self.records_between(empty_tree_id(), commit_str@),
    {
        proof {
            lemma_empty_tree_is_an_id();
        }
        self.diff_commits("4b825dc642cb6eb9a060e54bf8d69288fbee4904", commit_str)
    }

    /// The entries that the changes from `old_commit_str` to
    /// `new_commit_str` net out to, each removal cancelled against the
    /// addition it undoes. A revision that is no object id is refused before
    /// the store is asked; the store's failure is handed on as it is.
    pub fn diff_entries(&self, old_commit_str: &str, new_commit_str: &str) -> (entries: Result<
        Vec<GitFileEntry>,
        GitError,
    >)
        ensures
            entries_view(entries) == self.entries_between(old_commit_str@, new_commit_str@),
    {
        let range = match resolve_range(old_commit_str, new_commit_str) {
            Ok(range) => range,
            Err(error) => {
                return Err(error);
            },
        };
        match self.0.commits_in_range(&range) {
            Ok(commits) => Ok(diff_commits(&commits)),
            Err(error) => Err(error),
        }
    }

    /// The plan of the archive `tag_str` of the history up to
    /// `tag_commit_str`, with the entries that are archived: what the whole
    /// history nets out to, grouped by time, a group's metadata under `now`.
    /// The store's failure to walk the history is handed on as it is.
    pub fn plan_archive(&self, tag_str: &str, tag_commit_str: &str, now: i64) -> (planned: Result<
        (ArchivePlan, Vec<GitFileEntry>),
        GitError,
    >)
        ensures
            match (planned, self.entries_between(empty_tree_id(), tag_commit_str@)) {
                (Ok((plan, entries)), Ok(net)) => {
                    &&& entries.deep_view() == net
                    &&& plan.tag@ == tag_str@
                    &&& plan.branch@ == branch_ref(tag_str@)
                    &&& archives(plan.steps@, net, now)
                },
                (Err(error), Err(failure)) => error@ == failure,
                _ => false,
            },
    {
        proof {
            lemma_empty_tree_is_an_id();
        }
        match self.diff_entries("4b825dc642cb6eb9a060e54bf8d69288fbee4904", tag_commit_str) {
            Ok(entries) => {
                let plan = plan_archive(tag_str, &entries, now);
                Ok((plan, entries))
            },
            Err(error) => Err(error),
        }
    }

    /// The text of the blob `file_id`: `NotFound` where the store has no
    /// such blob or what it holds is no valid UTF-8.
    pub fn load_file(&self, file_id: &str) -> (text: Result<String, GitError>)
        ensures
            text_view(text) == text_held(self.store().blob_held(file_id@)),
    {
        match self.0.blob_bytes(file_id) {
            Some(bytes) => load_blob(Some(bytes.as_slice())),
            None => load_blob(None),
        }
    }
}

/// The id of the empty tree is an object id.
pub proof fn lemma_empty_tree_is_an_id()
    ensures
        is_object_id(empty_tree_id()),
{
    reveal_strlit("4b825dc642cb6eb9a060e54bf8d69288fbee4904");
}

/// A snapshot is the diff from the empty tree: for every store and every
/// revision the two are one value, the same list or the same failure.
/// Where the revision is an object id and the store holds its history, that
/// list is what the history leaves in place; where the revision is none, it
/// is refused.
pub proof fn lemma_snapshot_is_the_diff_from_the_empty_tree<R: GitOperation>(
    client: GitClient<R>,
    commit: Seq<char>,
)
    ensures
        client.records_between(empty_tree_id(), commit) == (if is_object_id(commit) {
            match client.store().commits_held(DiffRangeView { base: None, head: commit }) {
                Ok(history) => Ok::<Seq<RepoEntryView>, GitErrorView>(snapshot_records(history)),
                Err(failure) => Err(failure),
            }
        } else {
            Err(GitErrorView::Git2(oid_refusal(commit)))
        }),
{
    lemma_empty_tree_is_an_id();
}

} // verus!
