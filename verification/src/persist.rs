//! Bringing a list of changes into the store: what to do, and in what order.
//!
//! The store itself is elsewhere. Here a list of records becomes a list of
//! operations, and a session says, step by step, which operation comes next
//! and whether the transaction round them commits or rolls back.
//!
//! A blob that is missing or holds no valid text does not fail the whole:
//! what would have been made of it is left out, here as in a diff, and the
//! rest goes on. Any other failure rolls the transaction back.

use vstd::prelude::*;
use vstd::string::*;
use crate::entry::{RepoEntry, RepoEntryView};
use crate::hook::PersistMode;
use crate::kind::{ChangeKind, FileKind};
use crate::repo::GitError;
use crate::path::{file_stem, file_stem_of, has_parent, has_parent_of, parent, parent_of};
use crate::text::{trim_char, trim_char_exec};

verus! {

/// One operation on the store.
#[derive(Debug, Clone, PartialEq, Eq)]
pub enum StoreOp {
    /// Empty the store.
    Clean,
    /// Write the group whose metadata file lies at `path`, from the blob
    /// `blob`.
    UpsertGroup { path: String, blob: String },
    /// Take the group `group` out.
    RemoveGroup { group: String },
    /// Write the article at `path` from the text in the blob `blob`.
    UpsertArticle { path: String, blob: String },
    /// Take the article `slug` of `group` out.
    RemoveArticle { group: String, slug: String },
}

/// What a [`StoreOp`] holds, as plain values.
pub enum StoreOpView {
    Clean,
    UpsertGroup { path: Seq<char>, blob: Seq<char> },
    RemoveGroup { group: Seq<char> },
    UpsertArticle { path: Seq<char>, blob: Seq<char> },
    RemoveArticle { group: Seq<char>, slug: Seq<char> },
}

impl View for StoreOp {
    type V = StoreOpView;

    open spec fn view(&self) -> StoreOpView {
        match self {
            StoreOp::Clean => StoreOpView::Clean,
            StoreOp::UpsertGroup { path, blob } => StoreOpView::UpsertGroup {
                path: path@,
                blob: blob@,
            },
            StoreOp::RemoveGroup { group } => StoreOpView::RemoveGroup { group: group@ },
            StoreOp::UpsertArticle { path, blob } => StoreOpView::UpsertArticle {
                path: path@,
                blob: blob@,
            },
            StoreOp::RemoveArticle { group, slug } => StoreOpView::RemoveArticle {
                group: group@,
                slug: slug@,
            },
        }
    }
}

impl DeepView for StoreOp {
    type V = StoreOpView;

    open spec fn deep_view(&self) -> StoreOpView {
        self@
    }
}

/// The group that the article at `path` belongs to: its directory,
/// without slashes at either end.
pub open spec fn group_of(path: Seq<char>) -> Seq<char> {
    trim_char(parent(path), '/')
}

/// The directory that a group is named after: the parent of its metadata
/// file, or the path itself where it has no parent.
pub open spec fn group_dir(path: Seq<char>) -> Seq<char> {
    if has_parent(path) {
        parent(path)
    } else {
        path
    }
}

/// What the store has to do for one record: write what was added or
/// modified, from the blob the record names; take out what was deleted, by
/// its group and, for an article, its slug (the file name without its
/// extension); and nothing for a file of no concern.
pub open spec fn record_ops(record: RepoEntryView) -> Seq<StoreOpView> {
    match (record.file_kind, record.change_kind) {
        (FileKind::Group, ChangeKind::Deleted) => seq![
            StoreOpView::RemoveGroup { group: trim_char(group_dir(record.path), '/') },
        ],
        (FileKind::Group, _) => seq![
            StoreOpView::UpsertGroup { path: record.path, blob: record.id },
        ],
        (FileKind::Markdown, ChangeKind::Deleted) => seq![
            StoreOpView::RemoveArticle {
                group: group_of(record.path),
                slug: file_stem(record.path),
            },
        ],
        (FileKind::Markdown, _) => seq![
            StoreOpView::UpsertArticle { path: record.path, blob: record.id },
        ],
        (FileKind::Other, _) => Seq::empty(),
    }
}

/// What the store has to do for the first `n` records, in their order.
pub open spec fn records_ops(records: Seq<RepoEntryView>, n: int) -> Seq<StoreOpView>
    decreases n,
{
    if n <= 0 {
        Seq::empty()
    } else {
        records_ops(records, n - 1) + record_ops(records[n - 1])
    }
}

/// What the store has to do for `records` in `mode`: empty itself first
/// where everything is built anew, then follow the records.
pub open spec fn planned(records: Seq<RepoEntryView>, mode: PersistMode) -> Seq<StoreOpView> {
    match mode {
        PersistMode::ResetAll => seq![StoreOpView::Clean] + records_ops(
            records,
            records.len() as int,
        ),
        PersistMode::Incremental => records_ops(records, records.len() as int),
    }
}

/// The group that the file at `path` belongs to.
pub fn group_id(path: &str) -> (group: String)
    ensures
        group@ == group_of(path@),
{
    let dir = parent_of(path);
    trim_char_exec(dir.as_str(), '/')
}

/// The directory that a group is named after.
pub fn group_dir_of(path: &str) -> (dir: String)
    ensures
        dir@ == group_dir(path@),
{
    if has_parent_of(path) {
        parent_of(path)
    } else {
        path.to_owned()
    }
}

/// Appends what the store has to do for one record.
pub fn push_record_ops(ops: &mut Vec<StoreOp>, record: &RepoEntry)
    ensures
        final(ops).deep_view() == old(ops).deep_view() + record_ops(record@),
{
    let ghost before = ops.deep_view();
    let op: Option<StoreOp> = match (record.file_kind(), record.change_kind()) {
        (FileKind::Group, ChangeKind::Deleted) => Some(
            StoreOp::RemoveGroup {
                group: trim_char_exec(group_dir_of(record.path()).as_str(), '/'),
            },
        ),
        (FileKind::Group, _) => Some(
            StoreOp::UpsertGroup { path: record.path().to_owned(), blob: record.id().to_owned() },
        ),
        (FileKind::Markdown, ChangeKind::Deleted) => Some(
            StoreOp::RemoveArticle {
                group: group_id(record.path()),
                slug: file_stem_of(record.path()),
            },
        ),
        (FileKind::Markdown, _) => Some(
            StoreOp::UpsertArticle {
                path: record.path().to_owned(),
                blob: record.id().to_owned(),
            },
        ),
        (FileKind::Other, _) => None,
    };
    match op {
        Some(op) => {
            ops.push(op);
            assert(ops.deep_view() =~= before + seq![op@]);
        },
        None => {
            assert(before =~= before + Seq::<StoreOpView>::empty());
        },
    }
}

/// What the store has to do for `records` in `mode`, in order.
pub fn plan_persist(records: &Vec<RepoEntry>, mode: PersistMode) -> (ops: Vec<StoreOp>)
    ensures
        ops.deep_view() == planned(records.deep_view(), mode),
{
    let ghost views = records.deep_view();
    let mut ops: Vec<StoreOp> = Vec::new();
    match mode {
        PersistMode::ResetAll => {
            ops.push(StoreOp::Clean);
        },
        PersistMode::Incremental => {},
    }
    let ghost head = ops.deep_view();
    assert(head =~= (match mode {
        PersistMode::ResetAll => seq![StoreOpView::Clean],
        PersistMode::Incremental => Seq::empty(),
    }));
    assert(ops.deep_view() =~= head + records_ops(views, 0));
    let mut i: usize = 0;
    while i < records.len()
        invariant
            i <= records.len(),
            views == records.deep_view(),
            ops.deep_view() == head + records_ops(views, i as int),
        decreases records.len() - i,
    {
        push_record_ops(&mut ops, &records[i]);
        assert(views[i as int] == records[i as int]@);
        assert(ops.deep_view() =~= head + records_ops(views, i + 1));
        i += 1;
    }
    assert(ops.deep_view() =~= planned(views, mode));
    ops
}

/// What an operation gets of the blob it was to be made from, given how
/// reading the blob went: its text; nothing where the blob is missing or
/// holds no valid text, and the operation is then left out; or the failure,
/// where the repository failed otherwise.
pub open spec fn text_or_nothing(loaded: Result<String, GitError>) -> Result<
    Option<String>,
    GitError,
> {
    match loaded {
        Ok(text) => Ok(Some(text)),
        Err(GitError::NotFound) => Ok(None),
        Err(error) => Err(error),
    }
}

/// What an operation gets of the blob it was to be made from: `Ok(None)`
/// says that the operation is to be left out.
pub fn text_or_leave_out(loaded: Result<String, GitError>) -> (text: Result<
    Option<String>,
    GitError,
>)
    ensures
        text == text_or_nothing(loaded),
{
    match loaded {
        Ok(text) => Ok(Some(text)),
        Err(GitError::NotFound) => Ok(None),
        Err(error) => Err(error),
    }
}

/// Where a session stands.
#[derive(Debug, Clone, Copy, PartialEq, Eq, Structural)]
pub enum Phase {
    /// Nothing has been asked for yet.
    Fresh,
    /// The transaction was asked to begin.
    Opening,
    /// The operation with this number was asked for.
    Applying(usize),
    /// The transaction was asked to commit.
    Committing,
    /// The transaction was asked to roll back.
    RollingBack,
    /// The session is over; `true` where everything was committed.
    Done(bool),
}

/// What a session asks its driver to do next.
#[derive(Debug, Clone, Copy, PartialEq, Eq, Structural)]
pub enum Action {
    /// Begin a transaction.
    Begin,
    /// Apply the operation with this number inside the transaction.
    Apply(usize),
    /// Commit the transaction.
    Commit,
    /// Roll the transaction back.
    Rollback,
    /// Nothing more: the session is over, and this says whether the changes
    /// were committed.
    Finish(bool),
}

/// The phase that follows `phase` of a session of `count` operations once
/// the driver reports whether the last action went well: operations are
/// applied in order as long as each goes well, a commit follows the last of
/// them, and the first failure inside the transaction rolls it back.
pub open spec fn next_phase(phase: Phase, count: nat, ok: bool) -> Phase {
    match phase {
        Phase::Fresh => Phase::Opening,
        Phase::Opening => if !ok {
            Phase::Done(false)
        } else if count == 0 {
            Phase::Committing
        } else {
            Phase::Applying(0)
        },
        Phase::Applying(i) => if !ok {
            Phase::RollingBack
        } else if i + 1 < count {
            Phase::Applying((i + 1) as usize)
        } else {
            Phase::Committing
        },
        Phase::Committing => Phase::Done(ok),
        Phase::RollingBack => Phase::Done(false),
        Phase::Done(result) => Phase::Done(result),
    }
}

/// What the driver is asked to do on entering `phase`.
pub open spec fn action_of(phase: Phase) -> Action {
    match phase {
        Phase::Fresh => Action::Begin,
        Phase::Opening => Action::Begin,
        Phase::Applying(i) => Action::Apply(i),
        Phase::Committing => Action::Commit,
        Phase::RollingBack => Action::Rollback,
        Phase::Done(result) => Action::Finish(result),
    }
}

/// One run of a list of operations inside one transaction.
pub struct SyncSession {
    ops: Vec<StoreOp>,
    phase: Phase,
}

impl SyncSession {
    /// The operations of the session.
    pub closed spec fn ops(&self) -> Seq<StoreOpView> {
        self.ops.deep_view()
    }

    /// Where the session stands.
    pub closed spec fn phase(&self) -> Phase {
        self.phase
    }

    /// Whether the session only ever asks for operations it has.
    pub closed spec fn wf(&self) -> bool {
        match self.phase {
            Phase::Applying(i) => i < self.ops.len(),
            _ => true,
        }
    }

    /// A session over `ops` that has not begun.
    pub fn new(ops: Vec<StoreOp>) -> (session: SyncSession)
        ensures
            session.wf(),
            session.ops() == ops.deep_view(),
            session.phase() == Phase::Fresh,
    {
        SyncSession { ops, phase: Phase::Fresh }
    }

    /// What to do next, given whether the action asked for last went well
    /// (`ok` is not looked at before the first action).
    pub fn next(&mut self, ok: bool) -> (action: Action)
        requires
            old(self).wf(),
        ensures
            final(self).wf(),
            final(self).ops() == old(self).ops(),
            final(self).phase() == next_phase(old(self).phase(), old(self).ops().len(), ok),
            action == action_of(final(self).phase()),
            action matches Action::Apply(i) ==> i < final(self).ops().len(),
    {
        let count = self.ops.len();
        let phase = match self.phase {
            Phase::Fresh => Phase::Opening,
            Phase::Opening => {
                if !ok {
                    Phase::Done(false)
                } else if count == 0 {
                    Phase::Committing
                } else {
                    Phase::Applying(0)
                }
            },
            Phase::Applying(i) => {
                if !ok {
                    Phase::RollingBack
                } else if i + 1 < count {
                    Phase::Applying(i + 1)
                } else {
                    Phase::Committing
                }
            },
            Phase::Committing => Phase::Done(ok),
            Phase::RollingBack => Phase::Done(false),
            Phase::Done(result) => Phase::Done(result),
        };
        self.phase = phase;
        match phase {
            Phase::Fresh => Action::Begin,
            Phase::Opening => Action::Begin,
            Phase::Applying(i) => Action::Apply(i),
            Phase::Committing => Action::Commit,
            Phase::RollingBack => Action::Rollback,
            Phase::Done(result) => Action::Finish(result),
        }
    }

    /// The operation with the number `i`, where the session has one.
    pub fn op(&self, i: usize) -> (op: Option<&StoreOp>)
        ensures
            match op {
                Some(found) => i < self.ops().len() && found@ == self.ops()[i as int],
                None => i >= self.ops().len(),
            },
    {
        if i < self.ops.len() {
            Some(&self.ops[i])
        } else {
            None
        }
    }

    /// How many operations the session has.
    pub fn len(&self) -> (count: usize)
        ensures
            count == self.ops().len(),
    {
        self.ops.len()
    }
}

/// The phase of a session of `count` operations once the driver has made
/// `n` reports, of which `oks` are the first.
pub open spec fn phase_after(count: nat, oks: Seq<bool>, n: int) -> Phase
    decreases n,
{
    if n <= 0 {
        Phase::Fresh
    } else {
        next_phase(phase_after(count, oks, n - 1), count, oks[n - 1])
    }
}

/// Whether every report from the second up to the one before `n` says that
/// the action went well. (The first report answers no action.)
pub open spec fn all_went_well(oks: Seq<bool>, n: int) -> bool {
    forall|k: int| 1 <= k < n ==> #[trigger] oks[k]
}

/// All or nothing: a session asks for a commit only once the transaction
/// has begun and every operation has been applied, each with success, and it
/// ends as committed only if the commit went well too. Whenever it rolls
/// back or ends without a commit, one of its actions has failed.
pub proof fn lemma_session_is_all_or_nothing(count: nat, oks: Seq<bool>, n: int)
    requires
        count <= usize::MAX,
        0 <= n <= oks.len(),
    ensures
        match phase_after(count, oks, n) {
            Phase::Fresh => n == 0,
            Phase::Opening => n == 1,
            Phase::Applying(i) => n == i + 2 && i < count && all_went_well(oks, n),
            Phase::Committing => n == count + 2 && all_went_well(oks, n),
            Phase::Done(true) => n >= count + 3 && all_went_well(oks, (count + 3) as int),
            Phase::RollingBack => 3 <= n <= count + 2 && all_went_well(oks, n - 1) && !oks[n - 1],
            Phase::Done(false) => n >= 2 && !all_went_well(oks, n),
        },
    decreases n,
{
    if n > 0 {
        lemma_session_is_all_or_nothing(count, oks, n - 1);
        let before = phase_after(count, oks, n - 1);
        match before {
            Phase::Done(false) => {
                let k = choose|k: int| 1 <= k < n - 1 && !#[trigger] oks[k];
                assert(1 <= k < n && !oks[k]);
            },
            Phase::RollingBack => {
                assert(!oks[n - 2]);
            },
            Phase::Fresh => {},
            Phase::Done(true) => {},
            _ => {
                if !oks[n - 1] {
                    assert(!all_went_well(oks, n));
                }
            },
        }
    }
}

} // verus!
