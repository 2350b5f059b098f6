//! What a path holds, and how it changed.

use vstd::prelude::*;
use crate::path::{extension, extension_of, file_name, file_name_of};
use crate::text::str_eq;

verus! {

/// What a file of the repository is to the content store.
#[derive(Debug, Clone, Copy, PartialEq, Eq, Structural)]
pub enum FileKind {
    /// The metadata file of a group, `.group.toml`.
    Group,
    /// An article: a file with the extension `md` or `markdown`.
    Markdown,
    /// Anything else; nothing downstream looks at it.
    Other,
}

/// How a path changed between two trees.
#[derive(Debug, Clone, Copy, PartialEq, Eq, Structural)]
pub enum ChangeKind {
    Added,
    Modified,
    Deleted,
}

/// The name of the file that holds a group's metadata.
pub open spec fn group_file_name() -> Seq<char> {
    ".group.toml"@
}

/// Whether `path` names an article: its extension is `md` or `markdown`.
pub open spec fn is_markdown_path(path: Seq<char>) -> bool {
    extension(path) == Some("md"@) || extension(path) == Some("markdown"@)
}

/// The kind of the file that `path` names.
pub open spec fn kind_of_path(path: Seq<char>) -> FileKind {
    if file_name(path) == group_file_name() {
        FileKind::Group
    } else if is_markdown_path(path) {
        FileKind::Markdown
    } else {
        FileKind::Other
    }
}

/// The net change of a path that carries `old` so far and is touched again
/// by `new`; `None` when the two cancel and the path drops out.
pub open spec fn merged(old: Option<ChangeKind>, new: ChangeKind) -> Option<ChangeKind> {
    match (old, new) {
        (None, now) => Some(now),
        (Some(ChangeKind::Added), ChangeKind::Added) => Some(ChangeKind::Modified),
        (Some(ChangeKind::Added), ChangeKind::Modified) => Some(ChangeKind::Modified),
        (Some(ChangeKind::Added), ChangeKind::Deleted) => None,
        (Some(ChangeKind::Deleted), ChangeKind::Added) => Some(ChangeKind::Added),
        (Some(ChangeKind::Deleted), ChangeKind::Deleted) => Some(ChangeKind::Deleted),
        (Some(ChangeKind::Deleted), ChangeKind::Modified) => Some(ChangeKind::Modified),
        (Some(ChangeKind::Modified), ChangeKind::Added) => Some(ChangeKind::Modified),
        (Some(ChangeKind::Modified), ChangeKind::Deleted) => Some(ChangeKind::Deleted),
        (Some(ChangeKind::Modified), ChangeKind::Modified) => Some(ChangeKind::Modified),
    }
}

/// The change that a reference to one stands for.
pub open spec fn deref_kind(old: Option<&ChangeKind>) -> Option<ChangeKind> {
    match old {
        Some(k) => Some(*k),
        None => None,
    }
}

/// Whether `path` names an article.
pub fn is_markdown_file(path: &str) -> (yes: bool)
    ensures
        yes == is_markdown_path(path@),
{
    match extension_of(path) {
        Some(ext) => str_eq(ext.as_str(), "md") || str_eq(ext.as_str(), "markdown"),
        None => false,
    }
}

impl FileKind {
    /// The kind of the file that `path` names, by its name alone.
    pub fn from_path(path: &str) -> (kind: FileKind)
        ensures
            kind == kind_of_path(path@),
    {
        let name = file_name_of(path);
        if str_eq(name.as_str(), ".group.toml") {
            FileKind::Group
        } else if is_markdown_file(path) {
            FileKind::Markdown
        } else {
            FileKind::Other
        }
    }
}

/// Folds one more change of a path into the change it carries so far.
pub fn merge_change(old: Option<&ChangeKind>, new: ChangeKind) -> (net: Option<ChangeKind>)
    ensures
        net == merged(deref_kind(old), new),
{
    match (old, new) {
        (None, now) => Some(now),
        (Some(ChangeKind::Deleted), now) => Some(now),
        (Some(ChangeKind::Added), ChangeKind::Deleted) => None,
        (Some(ChangeKind::Added), _) => Some(ChangeKind::Modified),
        (Some(ChangeKind::Modified), ChangeKind::Deleted) => Some(ChangeKind::Deleted),
        (Some(ChangeKind::Modified), _) => Some(ChangeKind::Modified),
    }
}

} // verus!
