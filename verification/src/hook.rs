//! What a push asks for, judged by the reference it moved.

use vstd::prelude::*;
use crate::text::{chars_of, matches_at_exec, starts_with, str_eq, text_between};

verus! {

/// What a push to a reference asks for.
#[derive(Debug, Clone, Copy, PartialEq, Eq, Structural)]
pub enum PushKind {
    /// The main branch moved: bring the store up to date.
    Sync,
    /// The rebuild marker was set: build the store anew.
    Rebuild,
    /// An archive tag was set: archive the history behind it.
    Archive,
    /// Nothing that concerns the store.
    Ignore,
}

/// How a list of changes is brought into the store.
#[derive(Debug, Clone, Copy, PartialEq, Eq, Structural)]
pub enum PersistMode {
    /// Empty the store, then write.
    ResetAll,
    /// Write the changes onto what the store holds.
    Incremental,
}

/// What a reference is, by its name alone.
#[derive(Debug, Clone, Copy, PartialEq, Eq, Structural)]
pub enum RefKind {
    MainBranch,
    Archive,
    ArchiveMerge,
    Rebuild,
    RebuildAll,
    Other,
}

/// What the hook of the repository reports of a push.
#[derive(Debug, Clone, PartialEq, Eq)]
pub struct GitPushPayload {
    /// The reference that moved.
    pub refname: String,
    /// The revision it stood at before.
    pub before: String,
    /// The revision it stands at now.
    pub after: String,
    /// Who pushed.
    pub pusher: String,
    /// The repository that was pushed to.
    pub repository: String,
}

/// The name of the main branch.
pub open spec fn main_ref() -> Seq<char> {
    "refs/heads/main"@
}

/// The name of the marker that asks for a rebuild.
pub open spec fn rebuild_ref() -> Seq<char> {
    "refs/tags/cmd/rebuild"@
}

/// What the name of every archive tag begins with.
pub open spec fn archive_prefix() -> Seq<char> {
    "refs/tags/archive/"@
}

/// The tag of the archive that `refname` names: what follows the archive
/// prefix, where something does.
pub open spec fn archive_tag_of(refname: Seq<char>) -> Option<Seq<char>> {
    if starts_with(refname, archive_prefix()) && refname.len() > archive_prefix().len() {
        Some(refname.skip(archive_prefix().len() as int))
    } else {
        None
    }
}

/// What a push to `refname` asks for, whatever the reference stood at
/// before: the main branch a sync, the rebuild marker a rebuild, an archive
/// tag an archive, and anything else nothing.
pub open spec fn push_kind_of(refname: Seq<char>) -> PushKind {
    if refname == main_ref() {
        PushKind::Sync
    } else if refname == rebuild_ref() {
        PushKind::Rebuild
    } else if archive_tag_of(refname) is Some {
        PushKind::Archive
    } else {
        PushKind::Ignore
    }
}

/// What kind of reference `name` is.
pub open spec fn ref_kind_of(name: Seq<char>) -> RefKind {
    if name == "refs/heads/main"@ {
        RefKind::MainBranch
    } else if name == "refs/tags/cmd/archive"@ {
        RefKind::Archive
    } else if name == "refs/tags/cmd/archive.merge"@ {
        RefKind::ArchiveMerge
    } else if name == "refs/tags/cmd/rebuild"@ {
        RefKind::Rebuild
    } else if name == "refs/tags/cmd/rebuild.all"@ {
        RefKind::RebuildAll
    } else {
        RefKind::Other
    }
}

/// How the store takes the changes of a push of this kind, if it takes any.
pub open spec fn mode_of(kind: PushKind) -> Option<PersistMode> {
    match kind {
        PushKind::Sync => Some(PersistMode::Incremental),
        PushKind::Rebuild => Some(PersistMode::ResetAll),
        _ => None,
    }
}

/// The tag of the archive that `refname` names.
pub fn archive_tag_name(refname: &str) -> (tag: Option<String>)
    ensures
        match tag {
            Some(t) => archive_tag_of(refname@) == Some(t@),
            None => archive_tag_of(refname@) is None,
        },
{
    let name = chars_of(refname);
    let prefix = chars_of("refs/tags/archive/");
    if matches_at_exec(&name, &prefix, 0) && name.len() > prefix.len() {
        proof {
            assert(refname@.skip(prefix.len() as int) =~= refname@.subrange(
                prefix.len() as int,
                name.len() as int,
            ));
        }
        Some(text_between(refname, prefix.len(), name.len()))
    } else {
        None
    }
}

impl GitPushPayload {
    /// What the push asks for.
    pub fn push_kind(&self) -> (kind: PushKind)
        ensures
            kind == push_kind_of(self.refname@),
    {
        if str_eq(self.refname.as_str(), "refs/heads/main") {
            PushKind::Sync
        } else if str_eq(self.refname.as_str(), "refs/tags/cmd/rebuild") {
            PushKind::Rebuild
        } else if archive_tag_name(self.refname.as_str()).is_some() {
            PushKind::Archive
        } else {
            PushKind::Ignore
        }
    }

    /// The tag of the archive that the push asks for, where it asks for one.
    pub fn archive_tag(&self) -> (tag: Option<String>)
        ensures
            match tag {
                Some(t) => push_kind_of(self.refname@) == PushKind::Archive
                    && archive_tag_of(self.refname@) == Some(t@),
                None => push_kind_of(self.refname@) != PushKind::Archive,
            },
    {
        match self.push_kind() {
            PushKind::Archive => archive_tag_name(self.refname.as_str()),
            _ => None,
        }
    }
}

impl PushKind {
    /// How the store takes the changes of a push of this kind.
    pub fn persist_mode(self) -> (mode: Option<PersistMode>)
        ensures
            mode == mode_of(self),
    {
        match self {
            PushKind::Sync => Some(PersistMode::Incremental),
            PushKind::Rebuild => Some(PersistMode::ResetAll),
            _ => None,
        }
    }
}

impl RefKind {
    /// What kind of reference `ref_name` is.
    pub fn parse_ref_kind(ref_name: &str) -> (kind: RefKind)
        ensures
            kind == ref_kind_of(ref_name@),
    {
        if str_eq(ref_name, "refs/heads/main") {
            RefKind::MainBranch
        } else if str_eq(ref_name, "refs/tags/cmd/archive") {
            RefKind::Archive
        } else if str_eq(ref_name, "refs/tags/cmd/archive.merge") {
            RefKind::ArchiveMerge
        } else if str_eq(ref_name, "refs/tags/cmd/rebuild") {
            RefKind::Rebuild
        } else if str_eq(ref_name, "refs/tags/cmd/rebuild.all") {
            RefKind::RebuildAll
        } else {
            RefKind::Other
        }
    }
}

} // verus!
