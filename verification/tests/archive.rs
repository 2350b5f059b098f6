use gitnote::archive::{
    archive_message, commit_message_with, group_entries_by_time, reference_name, ArchivedInfo,
    ARCHIVE_AUTHOR_EMAIL, ARCHIVE_AUTHOR_NAME,
};
use gitnote::archiver::{plan_archive, ArchiveRun, ArchiveStep, RunAction, RunEvent};
use gitnote::entry::GitFileEntry;

fn article(group: &str, name: &str, time: i64) -> GitFileEntry {
    GitFileEntry::ArticleAdded {
        group: group.to_string(),
        name: name.to_string(),
        timestamp: time,
        content: "text".to_string(),
    }
}

fn group(group: &str) -> GitFileEntry {
    GitFileEntry::GroupAdded { group: group.to_string(), content: "public: true".to_string() }
}

fn entries() -> Vec<GitFileEntry> {
    vec![
        article("b", "late.md", 300),
        group("a"),
        article("a", "one.md", 100),
        GitFileEntry::ArticleRemoved { group: "a".to_string(), name: "gone.md".to_string() },
        article("", "two.md", 100),
        GitFileEntry::GroupRemoved { group: "z".to_string() },
        group("b"),
    ]
}

#[test]
fn additions_are_grouped_by_their_time() {
    let grouped = group_entries_by_time(&entries(), 200);
    let times: Vec<i64> = grouped.keys().copied().collect();
    assert_eq!(times, vec![100, 200, 300]);
    assert_eq!(grouped[&100], vec!["a/one.md".to_string(), "two.md".to_string()]);
    assert_eq!(grouped[&200], vec!["a/.group.toml".to_string(), "b/.group.toml".to_string()]);
    assert_eq!(grouped[&300], vec!["b/late.md".to_string()]);
}

#[test]
fn group_files_share_a_moment_with_articles_of_that_time() {
    let grouped = group_entries_by_time(&entries(), 100);
    let times: Vec<i64> = grouped.keys().copied().collect();
    assert_eq!(times, vec![100, 300]);
    assert_eq!(
        grouped[&100],
        vec!["a/.group.toml".to_string(), "a/one.md".to_string(), "two.md".to_string(), "b/.group.toml".to_string()]
    );
}

#[test]
fn removals_alone_give_no_groups() {
    let only = vec![GitFileEntry::GroupRemoved { group: "z".to_string() }];
    assert!(group_entries_by_time(&only, 5).is_empty());
    assert!(group_entries_by_time(&Vec::new(), 5).is_empty());
}

#[test]
fn the_archive_branch_is_named_after_the_tag() {
    assert_eq!(reference_name("2025-Q2"), "refs/heads/archive/2025-Q2");
    assert_eq!(reference_name(""), "refs/heads/archive/");
}

#[test]
fn archive_commits_have_a_fixed_author() {
    assert_eq!(ARCHIVE_AUTHOR_NAME, "gitnote-archive");
    assert_eq!(ARCHIVE_AUTHOR_EMAIL, "gitnote-archive@example.com");
}

#[test]
fn commit_messages_name_tag_and_moment() {
    assert_eq!(
        commit_message_with("2025-Q2", "2025-06-30 04:00:00"),
        "archive: archived(2025-Q2) at 2025-06-30 04:00:00"
    );
    let message = archive_message("2025-Q2", 1_751_256_000).unwrap();
    assert!(message.starts_with("archive: archived(2025-Q2) at 2025-"));
    assert_eq!(message.len(), "archive: archived(2025-Q2) at ".len() + 19);
    assert_eq!(archive_message("t", i64::MAX), None);
}

#[test]
fn a_plan_has_one_step_for_each_moment() {
    let plan = plan_archive("2025-Q2", &entries(), 200);
    assert_eq!(plan.tag, "2025-Q2");
    assert_eq!(plan.branch, "refs/heads/archive/2025-Q2");
    assert_eq!(
        plan.steps,
        vec![
            ArchiveStep { time: 100, paths: vec!["a/one.md".to_string(), "two.md".to_string()] },
            ArchiveStep {
                time: 200,
                paths: vec!["a/.group.toml".to_string(), "b/.group.toml".to_string()],
            },
            ArchiveStep { time: 300, paths: vec!["b/late.md".to_string()] },
        ]
    );
}

#[test]
fn a_run_commits_in_order_and_sets_the_branch_last() {
    let mut run = ArchiveRun::new(plan_archive("t", &entries(), 200));
    assert_eq!(run.get_plan().steps.len(), 3);
    assert_eq!(run.next(RunEvent::Done), RunAction::AddWorktree);
    assert_eq!(run.next(RunEvent::Done), RunAction::Commit { step: 0, parent: None });
    assert_eq!(
        run.next(RunEvent::Committed("c0".to_string())),
        RunAction::Commit { step: 1, parent: Some("c0".to_string()) }
    );
    assert_eq!(
        run.next(RunEvent::Committed("c1".to_string())),
        RunAction::Commit { step: 2, parent: Some("c1".to_string()) }
    );
    assert_eq!(
        run.next(RunEvent::Committed("c2".to_string())),
        RunAction::SetBranch { target: "c2".to_string() }
    );
    assert_eq!(run.next(RunEvent::Done), RunAction::RemoveWorktree);
    assert_eq!(run.next(RunEvent::Done), RunAction::Finish { ok: true });
    assert_eq!(run.next(RunEvent::Failed), RunAction::Finish { ok: true });
}

#[test]
fn a_failed_commit_removes_the_checkout_and_sets_no_branch() {
    let mut run = ArchiveRun::new(plan_archive("t", &entries(), 200));
    assert_eq!(run.next(RunEvent::Done), RunAction::AddWorktree);
    assert_eq!(run.next(RunEvent::Done), RunAction::Commit { step: 0, parent: None });
    assert_eq!(
        run.next(RunEvent::Committed("c0".to_string())),
        RunAction::Commit { step: 1, parent: Some("c0".to_string()) }
    );
    assert_eq!(run.next(RunEvent::Failed), RunAction::RemoveWorktree);
    assert_eq!(run.next(RunEvent::Done), RunAction::Finish { ok: false });
}

#[test]
fn a_stale_checkout_is_cleaned_once() {
    let mut run = ArchiveRun::new(plan_archive("t", &entries(), 200));
    assert_eq!(run.next(RunEvent::Done), RunAction::AddWorktree);
    assert_eq!(run.next(RunEvent::Conflict), RunAction::CleanStale);
    assert_eq!(run.next(RunEvent::Done), RunAction::AddWorktree);
    assert_eq!(run.next(RunEvent::Conflict), RunAction::Finish { ok: false });

    let mut healed = ArchiveRun::new(plan_archive("t", &entries(), 200));
    assert_eq!(healed.next(RunEvent::Done), RunAction::AddWorktree);
    assert_eq!(healed.next(RunEvent::Conflict), RunAction::CleanStale);
    assert_eq!(healed.next(RunEvent::Done), RunAction::AddWorktree);
    assert_eq!(healed.next(RunEvent::Done), RunAction::Commit { step: 0, parent: None });

    let mut broken = ArchiveRun::new(plan_archive("t", &entries(), 200));
    assert_eq!(broken.next(RunEvent::Done), RunAction::AddWorktree);
    assert_eq!(broken.next(RunEvent::Failed), RunAction::Finish { ok: false });
}

#[test]
fn a_branch_that_cannot_be_set_fails_the_run() {
    let one = vec![article("a", "one.md", 1)];
    let mut run = ArchiveRun::new(plan_archive("t", &one, 0));
    assert_eq!(run.next(RunEvent::Done), RunAction::AddWorktree);
    assert_eq!(run.next(RunEvent::Done), RunAction::Commit { step: 0, parent: None });
    assert_eq!(
        run.next(RunEvent::Committed("c0".to_string())),
        RunAction::SetBranch { target: "c0".to_string() }
    );
    assert_eq!(run.next(RunEvent::Failed), RunAction::RemoveWorktree);
    assert_eq!(run.next(RunEvent::Done), RunAction::Finish { ok: false });
}

fn info() -> ArchivedInfo {
    ArchivedInfo {
        branch: "refs/heads/archive/2025-Q2".to_string(),
        datetime: 1_751_256_000,
        duration_secs: 1,
        duration_nanos: 234_000_000,
        repo_entries: entries(),
    }
}

#[test]
fn a_report_counts_articles_and_group_files() {
    assert_eq!(info().counts(), (3, 2));
    assert_eq!(
        info().summary_with("1.234", "2025-06-30 04:00:00"),
        "[ARCHIVE SUMMARY] Archive completed successfully in 1.234s\n\
         [branch]    => refs/heads/archive/2025-Q2\n\
         [entries]   => 3 files, 2 configs\n\
         [datetime]  => 2025-06-30 04:00:00\n"
    );
    let text = info().summary("1.234").unwrap();
    assert!(text.starts_with("[ARCHIVE SUMMARY] Archive completed successfully in 1.234s\n"));
    assert!(text.contains("[entries]   => 3 files, 2 configs\n[datetime]  => 2025-"));
}

#[test]
fn messages_and_reports_reach_as_far_as_the_calendar() {
    let first: i64 = -8_334_601_228_800;
    let last: i64 = 8_210_266_876_799;
    assert!(archive_message("t", first).unwrap().starts_with("archive: archived(t) at "));
    assert!(archive_message("t", last).unwrap().starts_with("archive: archived(t) at "));
    assert_eq!(archive_message("t", first - 1), None);
    assert_eq!(archive_message("t", last + 1), None);

    let at = |datetime: i64| ArchivedInfo { datetime, ..info() };
    assert!(at(first).summary("0.001").unwrap().ends_with("\n"));
    assert!(at(last).summary("0.001").unwrap().ends_with("\n"));
    assert_eq!(at(first - 1).summary("0.001"), None);
    assert_eq!(at(last + 1).summary("0.001"), None);
}
