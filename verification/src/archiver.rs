//! The run of an archive, step by step.
//!
//! The plan says which commits to make; the run says what to do next. The
//! checkout, the objects and the branch are somebody else's to handle: the
//! run is told how each step went and answers with the next one.

use vstd::prelude::*;
use vstd::string::*;
use std::collections::BTreeMap;
use vstd::std_specs::cmp::OrdSpec;
use vstd::std_specs::iter::IteratorSpec;
use crate::archive::{branch_ref, group_entries_by_time, group_times, paths_at, reference_name};
use crate::entry::{EntryView, GitFileEntry};

verus! {

/// One commit of an archive: the moment it stands for (seconds since the
/// epoch) and the paths that it adds to the tree of the commit before it.
#[derive(Debug, Clone, PartialEq, Eq)]
pub struct ArchiveStep {
    pub time: i64,
    pub paths: Vec<String>,
}

/// What an archive is made of: its tag, the branch it ends on, and its
/// commits, oldest first.
#[derive(Debug, Clone, PartialEq, Eq)]
pub struct ArchivePlan {
    pub tag: String,
    pub branch: String,
    pub steps: Vec<ArchiveStep>,
}

/// Whether `first` comes before `second` in the order of `K`.
pub open spec fn before<K: Ord>(first: K, second: K) -> bool {
    first.cmp_spec(&second) is Less
}

/// Whether the steps stand in the order of their times, no time twice.
pub open spec fn ascending(steps: Seq<ArchiveStep>) -> bool {
    forall|i: int, j: int|
        0 <= i < j < steps.len() ==> (#[trigger] steps[i]).time < (#[trigger] steps[j]).time
}

/// Whether `steps` are the commits that archive `entries`: one step for
/// each time that something is added at, in the order of the times, each
/// with the paths added at its time in the entries' order.
pub open spec fn archives(steps: Seq<ArchiveStep>, entries: Seq<EntryView>, now: i64) -> bool {
    &&& ascending(steps)
    &&& steps.len() == group_times(entries, now, entries.len() as int).len()
    &&& forall|i: int|
        0 <= i < steps.len() ==> group_times(entries, now, entries.len() as int).contains(
            (#[trigger] steps[i]).time,
        ) && steps[i].paths.deep_view() == paths_at(
            entries,
            now,
            steps[i].time,
            entries.len() as int,
        )
}

/// The times that `grouped` has groups for, in ascending order.
fn ordered_times(grouped: &BTreeMap<i64, Vec<String>>) -> (times: Vec<i64>)
    ensures
        times@.to_set() == grouped@.dom(),
        times@.len() == grouped@.dom().len(),
        times@.no_duplicates(),
        forall|i: int, j: int| 0 <= i < j < times@.len() ==> times@[i] < times@[j],
{
    broadcast use vstd::std_specs::btree::group_btree_axioms;
    broadcast use vstd::laws_cmp::group_laws_cmp;

    let mut times: Vec<i64> = Vec::new();
    let keys = grouped.keys();
    let ghost all = keys.remaining();
    proof {
        vstd::std_specs::btree::axiom_spec_keys_iter(grouped);
    }
    for key in it: keys
        invariant
            it.seq() == all,
            times@.len() == it.index(),
            forall|j: int| 0 <= j < times@.len() ==> times@[j] == *all[j],
    {
        times.push(*key);
    }
    proof {
        vstd::std_specs::btree::axiom_increasing_seq_meaning(all);
        assert(times@ =~= all.unref());
        assert forall|i: int, j: int| 0 <= i < j < times@.len() implies times@[i] < times@[j] by {
            assert(before(all[i], all[j]));
        }
    }
    times
}

/// Takes the group of `time` out of `grouped`.
fn take_group(grouped: &mut BTreeMap<i64, Vec<String>>, time: i64) -> (paths: Vec<String>)
    requires
        old(grouped)@.contains_key(time),
    ensures
        paths == old(grouped)@[time],
        final(grouped)@ == old(grouped)@.remove(time),
{
    broadcast use vstd::std_specs::btree::group_btree_axioms;
    broadcast use vstd::laws_cmp::group_laws_cmp;

    match grouped.remove(&time) {
        Some(paths) => paths,
        None => Vec::new(),
    }
}

/// The plan of the archive `tag` of `entries`: the branch it ends on, and
/// one commit for each time that the entries add something at, oldest first.
/// A group's metadata, which has no time of its own, is archived under `now`.
pub fn plan_archive(tag: &str, entries: &Vec<GitFileEntry>, now: i64) -> (plan: ArchivePlan)
    ensures
        plan.tag@ == tag@,
        plan.branch@ == branch_ref(tag@),
        archives(plan.steps@, entries.deep_view(), now),
{
    let ghost views = entries.deep_view();
    let ghost count = entries.len() as int;
    let mut grouped = group_entries_by_time(entries, now);
    let ghost all = grouped@;
    let times = ordered_times(&grouped);
    let mut steps: Vec<ArchiveStep> = Vec::new();
    let mut i: usize = 0;
    while i < times.len()
        invariant
            i <= times.len(),
            steps.len() == i,
            times@.to_set() == all.dom(),
            times@.no_duplicates(),
            forall|a: int, b: int| 0 <= a < b < times@.len() ==> times@[a] < times@[b],
            forall|j: int| i <= j < times@.len() ==> grouped@.contains_key(#[trigger] times@[j]),
            forall|time: i64| #[trigger] grouped@.contains_key(time) ==> grouped@[time] == all[time],
            forall|j: int|
                0 <= j < i ==> (#[trigger] steps@[j]).time == times@[j] && steps@[j].paths
                    == all[times@[j]],
        decreases times.len() - i,
    {
        let time = times[i];
        let paths = take_group(&mut grouped, time);
        steps.push(ArchiveStep { time, paths });
        i += 1;
    }
    proof {
        assert forall|j: int| 0 <= j < steps@.len() implies group_times(views, now, count).contains(
            (#[trigger] steps@[j]).time,
        ) && steps@[j].paths.deep_view() == paths_at(views, now, steps@[j].time, count) by {
            assert(times@.to_set().contains(times@[j]));
            assert(all.contains_key(times@[j]));
        }
    }
    ArchivePlan { tag: tag.to_owned(), branch: reference_name(tag), steps }
}

/// Where a run stands.
#[derive(Debug, Clone, Copy, PartialEq, Eq, Structural)]
pub enum RunPhase {
    /// Nothing has been asked for yet.
    Fresh,
    /// The checkout was asked for; `retried` once stale metadata was cleaned.
    Adding { retried: bool },
    /// Stale metadata of an earlier checkout was asked to be cleaned.
    Cleaning,
    /// The commit with this number was asked for.
    Committing(usize),
    /// The branch was asked to be set.
    Branching,
    /// The checkout was asked to be removed; `ok` where the branch is set.
    Removing { ok: bool },
    /// The run is over; `ok` where the branch is set and the checkout gone.
    Done { ok: bool },
}

/// How the step asked for last went.
#[derive(Debug, Clone, PartialEq, Eq)]
pub enum RunEvent {
    /// It went well.
    Done,
    /// The commit was made, under this id.
    Committed(String),
    /// The checkout could not be made: metadata of an earlier one is in the
    /// way.
    Conflict,
    /// It failed.
    Failed,
}

/// What a run asks for next.
#[derive(Debug, Clone, PartialEq, Eq)]
pub enum RunAction {
    /// Make the ephemeral checkout.
    AddWorktree,
    /// Clean the metadata that an earlier checkout left behind.
    CleanStale,
    /// Make the commit of the step with this number: stage its paths on the
    /// tree of `parent`, or on nothing where there is none, and commit with
    /// `parent` as the only parent.
    Commit { step: usize, parent: Option<String> },
    /// Set the branch of the plan to the commit `target`.
    SetBranch { target: String },
    /// Remove the ephemeral checkout.
    RemoveWorktree,
    /// Nothing more; `ok` says whether the archive stands.
    Finish { ok: bool },
}

/// What a [`RunEvent`] holds, as plain values.
pub enum RunEventView {
    Done,
    Committed(Seq<char>),
    Conflict,
    Failed,
}

/// What a [`RunAction`] holds, as plain values.
pub enum RunActionView {
    AddWorktree,
    CleanStale,
    Commit { step: usize, parent: Option<Seq<char>> },
    SetBranch { target: Seq<char> },
    RemoveWorktree,
    Finish { ok: bool },
}

impl View for RunEvent {
    type V = RunEventView;

    open spec fn view(&self) -> RunEventView {
        match self {
            RunEvent::Done => RunEventView::Done,
            RunEvent::Committed(id) => RunEventView::Committed(id@),
            RunEvent::Conflict => RunEventView::Conflict,
            RunEvent::Failed => RunEventView::Failed,
        }
    }
}

impl View for RunAction {
    type V = RunActionView;

    open spec fn view(&self) -> RunActionView {
        match self {
            RunAction::AddWorktree => RunActionView::AddWorktree,
            RunAction::CleanStale => RunActionView::CleanStale,
            RunAction::Commit { step, parent } => RunActionView::Commit {
                step: *step,
                parent: crate::diff::text_view(*parent),
            },
            RunAction::SetBranch { target } => RunActionView::SetBranch { target: target@ },
            RunAction::RemoveWorktree => RunActionView::RemoveWorktree,
            RunAction::Finish { ok } => RunActionView::Finish { ok: *ok },
        }
    }
}

/// Where a run stands, and the commit it made last.
pub struct RunState {
    pub phase: RunPhase,
    pub last: Option<Seq<char>>,
}

/// The state that follows `state` in a run of `count` commits, once the
/// driver reports how the step asked for last went. The checkout comes
/// first, once more after a clean-up where stale metadata is in the way;
/// then the commits in order, each on the one before; then the branch, and
/// only behind the last commit; then the checkout goes, also where a commit
/// or the branch has failed.
pub open spec fn next_state(state: RunState, count: nat, event: RunEventView) -> RunState {
    match state.phase {
        RunPhase::Fresh => RunState { phase: RunPhase::Adding { retried: false }, last: None },
        RunPhase::Adding { retried } => match event {
            RunEventView::Done => RunState { phase: RunPhase::Committing(0), last: None },
            RunEventView::Conflict if !retried => RunState { phase: RunPhase::Cleaning, last: None },
            _ => RunState { phase: RunPhase::Done { ok: false }, last: None },
        },
        RunPhase::Cleaning => match event {
            RunEventView::Done => RunState { phase: RunPhase::Adding { retried: true }, last: None },
            _ => RunState { phase: RunPhase::Done { ok: false }, last: None },
        },
        RunPhase::Committing(i) => match event {
            RunEventView::Committed(id) => if i + 1 < count {
                RunState { phase: RunPhase::Committing((i + 1) as usize), last: Some(id) }
            } else {
                RunState { phase: RunPhase::Branching, last: Some(id) }
            },
            _ => RunState { phase: RunPhase::Removing { ok: false }, last: state.last },
        },
        RunPhase::Branching => match event {
            RunEventView::Done => RunState { phase: RunPhase::Removing { ok: true }, last: state.last },
            _ => RunState { phase: RunPhase::Removing { ok: false }, last: state.last },
        },
        RunPhase::Removing { ok } => match event {
            RunEventView::Done => RunState { phase: RunPhase::Done { ok }, last: state.last },
            _ => RunState { phase: RunPhase::Done { ok: false }, last: state.last },
        },
        RunPhase::Done { ok } => RunState { phase: RunPhase::Done { ok }, last: state.last },
    }
}

/// What the driver is asked to do on entering `state`.
pub open spec fn action_of(state: RunState) -> RunActionView {
    match state.phase {
        RunPhase::Fresh => RunActionView::AddWorktree,
        RunPhase::Adding { .. } => RunActionView::AddWorktree,
        RunPhase::Cleaning => RunActionView::CleanStale,
        RunPhase::Committing(i) => RunActionView::Commit { step: i, parent: state.last },
        RunPhase::Branching => RunActionView::SetBranch {
            target: match state.last {
                Some(id) => id,
                None => Seq::empty(),
            },
        },
        RunPhase::Removing { .. } => RunActionView::RemoveWorktree,
        RunPhase::Done { ok } => RunActionView::Finish { ok },
    }
}

/// Whether a state can come up in a run of `count` commits.
pub open spec fn state_fits(state: RunState, count: nat) -> bool {
    match state.phase {
        RunPhase::Committing(i) => i < count && (i > 0 ==> state.last is Some),
        RunPhase::Branching => state.last is Some,
        _ => true,
    }
}

/// One run of an archive plan.
pub struct ArchiveRun {
    plan: ArchivePlan,
    phase: RunPhase,
    last: Option<String>,
}

impl ArchiveRun {
    /// The plan that is run.
    pub closed spec fn plan(&self) -> ArchivePlan {
        self.plan
    }

    /// Where the run stands.
    pub closed spec fn state(&self) -> RunState {
        RunState { phase: self.phase, last: crate::diff::text_view(self.last) }
    }

    /// Whether the run stands where a run of its plan can stand.
    pub open spec fn wf(&self) -> bool {
        self.plan().steps.len() > 0 && state_fits(self.state(), self.plan().steps@.len())
    }

    /// A run of `plan` that has not begun. A plan without commits cannot be
    /// run: there would be nothing to set the branch to.
    pub fn new(plan: ArchivePlan) -> (run: ArchiveRun)
        requires
            plan.steps.len() > 0,
        ensures
            run.wf(),
            run.plan() == plan,
            run.state() == (RunState { phase: RunPhase::Fresh, last: None }),
    {
        ArchiveRun { plan, phase: RunPhase::Fresh, last: None }
    }

    /// The plan that is run.
    pub fn get_plan(&self) -> (plan: &ArchivePlan)
        ensures
            *plan == self.plan(),
    {
        &self.plan
    }

    /// What to do next, given how the step asked for last went (`event` is
    /// not looked at before the first step).
    pub fn next(&mut self, event: RunEvent) -> (action: RunAction)
        requires
            old(self).wf(),
        ensures
            final(self).wf(),
            final(self).plan() == old(self).plan(),
            final(self).state() == next_state(
                old(self).state(),
                old(self).plan().steps@.len(),
                event@,
            ),
            action@ == action_of(final(self).state()),
    {
        let count = self.plan.steps.len();
        match self.phase {
            RunPhase::Fresh => {
                self.phase = RunPhase::Adding { retried: false };
                self.last = None;
            },
            RunPhase::Adding { retried } => {
                self.last = None;
                match event {
                    RunEvent::Done => {
                        self.phase = RunPhase::Committing(0);
                    },
                    RunEvent::Conflict => {
                        if retried {
                            self.phase = RunPhase::Done { ok: false };
                        } else {
                            self.phase = RunPhase::Cleaning;
                        }
                    },
                    _ => {
                        self.phase = RunPhase::Done { ok: false };
                    },
                }
            },
            RunPhase::Cleaning => {
                self.last = None;
                match event {
                    RunEvent::Done => {
                        self.phase = RunPhase::Adding { retried: true };
                    },
                    _ => {
                        self.phase = RunPhase::Done { ok: false };
                    },
                }
            },
            RunPhase::Committing(i) => match event {
                RunEvent::Committed(id) => {
                    self.last = Some(id);
                    if i + 1 < count {
                        self.phase = RunPhase::Committing(i + 1);
                    } else {
                        self.phase = RunPhase::Branching;
                    }
                },
                _ => {
                    self.phase = RunPhase::Removing { ok: false };
                },
            },
            RunPhase::Branching => match event {
                RunEvent::Done => {
                    self.phase = RunPhase::Removing { ok: true };
                },
                _ => {
                    self.phase = RunPhase::Removing { ok: false };
                },
            },
            RunPhase::Removing { ok } => match event {
                RunEvent::Done => {
                    self.phase = RunPhase::Done { ok };
                },
                _ => {
                    self.phase = RunPhase::Done { ok: false };
                },
            },
            RunPhase::Done { ok } => {},
        }
        match self.phase {
            RunPhase::Fresh => RunAction::AddWorktree,
            RunPhase::Adding { .. } => RunAction::AddWorktree,
            RunPhase::Cleaning => RunAction::CleanStale,
            RunPhase::Committing(i) => RunAction::Commit { step: i, parent: self.last.clone() },
            RunPhase::Branching => RunAction::SetBranch {
                target: match &self.last {
                    Some(id) => id.clone(),
                    None => String::new(),
                },
            },
            RunPhase::Removing { .. } => RunAction::RemoveWorktree,
            RunPhase::Done { ok } => RunAction::Finish { ok },
        }
    }
}

/// The branch follows the last commit: a run asks for the branch only
/// when the commit asked for last was the last of the plan and was made, and
/// it sets the branch to that commit.
pub proof fn lemma_branch_follows_the_last_commit(
    state: RunState,
    count: nat,
    event: RunEventView,
)
    requires
        state_fits(state, count),
        next_state(state, count, event).phase == RunPhase::Branching,
    ensures
        state.phase matches RunPhase::Committing(i) && i + 1 == count,
        event matches RunEventView::Committed(id) && action_of(next_state(state, count, event)) == (
        RunActionView::SetBranch { target: id }),
{
}

/// The commits form a chain: the first stands on nothing, and each later
/// one is asked for only when the one before it was made, and with that one
/// as its parent.
pub proof fn lemma_commits_form_a_chain(state: RunState, count: nat, event: RunEventView)
    requires
        count <= usize::MAX,
        state_fits(state, count),
        next_state(state, count, event).phase is Committing,
    ensures
        match next_state(state, count, event).phase {
            RunPhase::Committing(step) => if step == 0 {
                action_of(next_state(state, count, event)) == (RunActionView::Commit {
                    step: 0,
                    parent: None,
                })
            } else {
                &&& state.phase == RunPhase::Committing((step - 1) as usize)
                &&& event matches RunEventView::Committed(id) && action_of(
                    next_state(state, count, event),
                ) == (RunActionView::Commit { step, parent: Some(id) })
            },
            _ => false,
        },
{
}

/// What can come up stays within what can come up.
pub proof fn lemma_states_keep_fitting(state: RunState, count: nat, event: RunEventView)
    requires
        0 < count <= usize::MAX,
        state_fits(state, count),
    ensures
        state_fits(next_state(state, count, event), count),
{
}

} // verus!
