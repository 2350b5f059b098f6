//! The change records that a diff hands to its consumers.

use vstd::prelude::*;
use vstd::string::*;
use crate::kind::{ChangeKind, FileKind};

verus! {

/// One change of the tracked content, as the store applies it.
#[derive(Debug, Clone, PartialEq, Eq)]
pub enum GitFileEntry {
    /// The metadata file of `group` appeared, with this text.
    GroupAdded { group: String, content: String },
    /// The metadata file of `group` went away.
    GroupRemoved { group: String },
    /// The article `name` of `group` appeared in a commit made at
    /// `timestamp` (seconds since the epoch), with this text.
    ArticleAdded { group: String, name: String, timestamp: i64, content: String },
    /// The article `name` of `group` went away.
    ArticleRemoved { group: String, name: String },
}

/// What a [`GitFileEntry`] holds, as plain values.
pub enum EntryView {
    GroupAdded { group: Seq<char>, content: Seq<char> },
    GroupRemoved { group: Seq<char> },
    ArticleAdded { group: Seq<char>, name: Seq<char>, timestamp: i64, content: Seq<char> },
    ArticleRemoved { group: Seq<char>, name: Seq<char> },
}

/// What an entry is about: a group's metadata, or one article of a group.
pub enum EntryKey {
    Group { group: Seq<char> },
    Article { group: Seq<char>, name: Seq<char> },
}

impl EntryView {
    /// Whether the entry adds something.
    pub open spec fn is_add(self) -> bool {
        self is GroupAdded || self is ArticleAdded
    }

    /// What the entry is about.
    pub open spec fn key(self) -> EntryKey {
        match self {
            EntryView::GroupAdded { group, .. } => EntryKey::Group { group },
            EntryView::GroupRemoved { group } => EntryKey::Group { group },
            EntryView::ArticleAdded { group, name, .. } => EntryKey::Article { group, name },
            EntryView::ArticleRemoved { group, name } => EntryKey::Article { group, name },
        }
    }
}

impl View for GitFileEntry {
    type V = EntryView;

    open spec fn view(&self) -> EntryView {
        match self {
            GitFileEntry::GroupAdded { group, content } => EntryView::GroupAdded {
                group: group@,
                content: content@,
            },
            GitFileEntry::GroupRemoved { group } => EntryView::GroupRemoved { group: group@ },
            GitFileEntry::ArticleAdded { group, name, timestamp, content } => {
                EntryView::ArticleAdded {
                    group: group@,
                    name: name@,
                    timestamp: *timestamp,
                    content: content@,
                }
            },
            GitFileEntry::ArticleRemoved { group, name } => EntryView::ArticleRemoved {
                group: group@,
                name: name@,
            },
        }
    }
}

impl DeepView for GitFileEntry {
    type V = EntryView;

    open spec fn deep_view(&self) -> EntryView {
        self@
    }
}

impl GitFileEntry {
    /// Whether the entry adds something.
    pub fn is_add(&self) -> (yes: bool)
        ensures
            yes == self@.is_add(),
    {
        match self {
            GitFileEntry::GroupAdded { .. } => true,
            GitFileEntry::ArticleAdded { .. } => true,
            _ => false,
        }
    }
}

/// One change of one path, as a commit made it or as several commits net out.
#[derive(Debug, Clone, PartialEq, Eq)]
pub struct RepoEntry {
    id: String,
    path: String,
    change_kind: ChangeKind,
    file_kind: FileKind,
    timestamp: i64,
}

/// What a [`RepoEntry`] holds, as plain values.
pub struct RepoEntryView {
    pub id: Seq<char>,
    pub path: Seq<char>,
    pub change_kind: ChangeKind,
    pub file_kind: FileKind,
    pub timestamp: i64,
}

impl View for RepoEntry {
    type V = RepoEntryView;

    closed spec fn view(&self) -> RepoEntryView {
        RepoEntryView {
            id: self.id@,
            path: self.path@,
            change_kind: self.change_kind,
            file_kind: self.file_kind,
            timestamp: self.timestamp,
        }
    }
}

impl DeepView for RepoEntry {
    type V = RepoEntryView;

    open spec fn deep_view(&self) -> RepoEntryView {
        self@
    }
}

impl RepoEntry {
    /// A record of the change `change_kind` to the blob `id` at `path`, a
    /// file of kind `file_kind`, in a commit made at `timestamp` (seconds
    /// since the epoch).
    pub fn new(
        id: String,
        path: String,
        change_kind: ChangeKind,
        file_kind: FileKind,
        timestamp: i64,
    ) -> (entry: RepoEntry)
        ensures
            entry@ == (RepoEntryView {
                id: id@,
                path: path@,
                change_kind,
                file_kind,
                timestamp,
            }),
    {
        RepoEntry { id, path, change_kind, file_kind, timestamp }
    }

    /// The id of the blob that the entry speaks of.
    pub fn id(&self) -> (id: &str)
        ensures
            id@ == self@.id,
    {
        self.id.as_str()
    }

    /// The path that changed.
    pub fn path(&self) -> (path: &str)
        ensures
            path@ == self@.path,
    {
        self.path.as_str()
    }

    /// How the path changed.
    pub fn change_kind(&self) -> (kind: ChangeKind)
        ensures
            kind == self@.change_kind,
    {
        self.change_kind
    }

    /// What the path holds.
    pub fn file_kind(&self) -> (kind: FileKind)
        ensures
            kind == self@.file_kind,
    {
        self.file_kind
    }

    /// When the commit was made that changed the path.
    pub fn timestamp(&self) -> (secs: i64)
        ensures
            secs == self@.timestamp,
    {
        self.timestamp
    }

    /// The same record with another change.
    pub fn with_change(&self, change_kind: ChangeKind) -> (entry: RepoEntry)
        ensures
            entry@ == (RepoEntryView { change_kind, ..self@ }),
    {
        RepoEntry {
            id: self.id.clone(),
            path: self.path.clone(),
            change_kind,
            file_kind: self.file_kind,
            timestamp: self.timestamp,
        }
    }
}

} // verus!
