use gitnote::diff::{CommitDelta, Delta, DeltaStatus, DiffFile};
use gitnote::entry::{GitFileEntry, RepoEntry};
use gitnote::kind::{ChangeKind, FileKind};
use gitnote::prune::{prune, RepoEntryPrune};
use gitnote::strip::strip_add_then_remove;
use gitnote::sync::{diff_commits, diff_commits_range, list_files, snapshot};

fn add(group: &str, name: &str, time: i64) -> GitFileEntry {
    GitFileEntry::ArticleAdded {
        group: group.to_string(),
        name: name.to_string(),
        timestamp: time,
        content: format!("{}/{} at {}", group, name, time),
    }
}

fn remove(group: &str, name: &str) -> GitFileEntry {
    GitFileEntry::ArticleRemoved { group: group.to_string(), name: name.to_string() }
}

fn add_group(group: &str) -> GitFileEntry {
    GitFileEntry::GroupAdded { group: group.to_string(), content: "public: true".to_string() }
}

fn remove_group(group: &str) -> GitFileEntry {
    GitFileEntry::GroupRemoved { group: group.to_string() }
}

#[test]
fn a_removal_cancels_the_addition_of_the_same_file() {
    let entries = vec![add("g", "A", 1), add("g", "B", 2), remove("g", "A")];
    assert_eq!(strip_add_then_remove(entries), vec![add("g", "B", 2)]);
}

#[test]
fn the_last_addition_survives_an_earlier_pair() {
    let entries = vec![add("g", "A", 1), remove("g", "A"), add("g", "A", 3)];
    assert_eq!(strip_add_then_remove(entries), vec![add("g", "A", 3)]);
}

#[test]
fn a_removal_takes_the_most_recent_addition() {
    let entries = vec![add("g", "A", 1), add("g", "A", 2), remove("g", "A")];
    assert_eq!(strip_add_then_remove(entries), vec![add("g", "A", 1)]);
}

#[test]
fn a_removal_without_an_addition_stays() {
    let entries = vec![remove("g", "A"), add("g", "A", 2)];
    assert_eq!(strip_add_then_remove(entries), vec![remove("g", "A"), add("g", "A", 2)]);

    let twice = vec![add("g", "A", 1), remove("g", "A"), remove("g", "A")];
    assert_eq!(strip_add_then_remove(twice), vec![remove("g", "A")]);
}

#[test]
fn groups_and_articles_do_not_cancel_each_other() {
    let entries = vec![
        add_group("g"),
        add("g", "A", 1),
        remove("h", "A"),
        remove_group("g"),
        add("", "g", 2),
        remove_group("h"),
    ];
    assert_eq!(
        strip_add_then_remove(entries),
        vec![add("g", "A", 1), remove("h", "A"), add("", "g", 2), remove_group("h")]
    );
}

#[test]
fn files_that_read_alike_are_told_apart() {
    let entries = vec![
        add("a/b", "c", 1),
        add("a", "b/c", 2),
        add("ab", "c", 3),
        add("a", "bc", 4),
        add("", ":x", 5),
        add("|", "", 6),
        add("", "|:", 7),
        add_group("a:b"),
        add("caf\u{e9}", "\u{e9}", 8),
        remove("a", "b/c"),
        remove("a", "bc"),
        remove("", "|:"),
        remove_group("a"),
        remove("a:", "b"),
        remove("caf", "\u{e9}\u{e9}"),
    ];
    assert_eq!(
        strip_add_then_remove(entries),
        vec![
            add("a/b", "c", 1),
            add("ab", "c", 3),
            add("", ":x", 5),
            add("|", "", 6),
            add_group("a:b"),
            add("caf\u{e9}", "\u{e9}", 8),
            remove_group("a"),
            remove("a:", "b"),
            remove("caf", "\u{e9}\u{e9}"),
        ]
    );
}

#[test]
fn many_files_come_and_go() {
    let mut entries = Vec::new();
    for round in 0..3 {
        for file in 0..200 {
            entries.push(add(&format!("g{}", file % 7), &format!("f{}.md", file), round));
        }
    }
    for file in 0..200 {
        if file % 2 == 0 {
            entries.push(remove(&format!("g{}", file % 7), &format!("f{}.md", file)));
        }
    }
    let rest = strip_add_then_remove(entries);
    assert_eq!(rest.len(), 500);
    let mut expected = Vec::new();
    for round in 0..3 {
        for file in 0..200 {
            if round < 2 || file % 2 == 1 {
                expected.push(add(&format!("g{}", file % 7), &format!("f{}.md", file), round));
            }
        }
    }
    assert_eq!(rest, expected);
}

#[test]
fn short_lists_are_left_alone() {
    assert_eq!(strip_add_then_remove(Vec::new()), Vec::new());
    assert_eq!(strip_add_then_remove(vec![remove("g", "A")]), vec![remove("g", "A")]);
    assert_eq!(strip_add_then_remove(vec![add("g", "A", 1)]), vec![add("g", "A", 1)]);
}

#[test]
fn stripping_twice_changes_nothing_more() {
    let entries = vec![
        add("g", "A", 1),
        add("g", "B", 1),
        remove("g", "A"),
        add_group("g"),
        add("g", "A", 4),
        remove("g", "C"),
        remove_group("g"),
        add("g", "C", 5),
    ];
    let once = strip_add_then_remove(entries);
    assert_eq!(
        once,
        vec![add("g", "B", 1), add("g", "A", 4), remove("g", "C"), add("g", "C", 5)]
    );
    assert_eq!(strip_add_then_remove(once.clone()), once);
}

fn record(id: &str, path: &str, change: ChangeKind, time: i64) -> RepoEntry {
    RepoEntry::new(id.to_string(), path.to_string(), change, FileKind::from_path(path), time)
}

#[test]
fn records_of_one_path_merge_into_the_last() {
    let records = vec![
        record("1", "g/a.md", ChangeKind::Added, 1),
        record("2", "g/b.md", ChangeKind::Added, 2),
        record("3", "g/a.md", ChangeKind::Modified, 3),
    ];
    assert_eq!(
        prune(records),
        vec![
            record("2", "g/b.md", ChangeKind::Added, 2),
            record("3", "g/a.md", ChangeKind::Modified, 3),
        ]
    );
}

#[test]
fn an_addition_and_its_deletion_leave_nothing() {
    let records = vec![
        record("1", "g/a.md", ChangeKind::Added, 1),
        record("2", "g/b.md", ChangeKind::Modified, 2),
        record("1", "g/a.md", ChangeKind::Deleted, 3),
    ];
    assert_eq!(prune(records), vec![record("2", "g/b.md", ChangeKind::Modified, 2)]);
}

#[test]
fn a_path_starts_afresh_after_it_cancelled() {
    let records = vec![
        record("1", "g/a.md", ChangeKind::Added, 1),
        record("1", "g/a.md", ChangeKind::Deleted, 2),
        record("3", "g/a.md", ChangeKind::Added, 3),
    ];
    assert_eq!(prune(records), vec![record("3", "g/a.md", ChangeKind::Added, 3)]);
}

#[test]
fn a_deletion_followed_by_an_addition_is_an_addition() {
    let records = vec![
        record("1", "g/a.md", ChangeKind::Deleted, 1),
        record("2", "g/a.md", ChangeKind::Added, 2),
    ];
    assert_eq!(prune(records), vec![record("2", "g/a.md", ChangeKind::Added, 2)]);

    let gone = vec![
        record("1", "g/a.md", ChangeKind::Modified, 1),
        record("1", "g/a.md", ChangeKind::Deleted, 2),
    ];
    assert_eq!(prune(gone), vec![record("1", "g/a.md", ChangeKind::Deleted, 2)]);
}

#[test]
fn pruning_twice_changes_nothing_more() {
    let records = vec![
        record("1", "a.md", ChangeKind::Added, 1),
        record("2", "b.md", ChangeKind::Deleted, 1),
        record("3", "a.md", ChangeKind::Added, 2),
        record("4", "c.md", ChangeKind::Added, 2),
        record("4", "c.md", ChangeKind::Deleted, 3),
        record("5", "b.md", ChangeKind::Deleted, 3),
    ];
    let once = prune(records);
    assert_eq!(
        once,
        vec![record("3", "a.md", ChangeKind::Modified, 2), record("5", "b.md", ChangeKind::Deleted, 3)]
    );
    assert_eq!(prune(once.clone()), once);
    assert_eq!(once.clone().prune(), once);
    assert_eq!(prune(Vec::new()), Vec::new());
}

fn delta(status: DeltaStatus, old: Option<&str>, new: Option<&str>, content: Option<&str>) -> Delta {
    Delta {
        status,
        old_file: DiffFile { id: "0ld".to_string(), path: old.map(|p| p.to_string()) },
        new_file: DiffFile { id: "n3w".to_string(), path: new.map(|p| p.to_string()) },
        content: content.map(|c| c.to_string()),
    }
}

fn history() -> Vec<CommitDelta> {
    vec![
        CommitDelta {
            timestamp: 10,
            deltas: vec![
                delta(DeltaStatus::Added, None, Some("grp/.group.toml"), Some("public: true")),
                delta(DeltaStatus::Added, None, Some("grp/old.md"), Some("old")),
                delta(DeltaStatus::Added, None, Some("grp/logo.png"), None),
            ],
        },
        CommitDelta {
            timestamp: 20,
            deltas: vec![
                delta(DeltaStatus::Added, None, Some("grp/post.md"), Some("post")),
                delta(DeltaStatus::Deleted, Some("grp/old.md"), None, None),
            ],
        },
        CommitDelta {
            timestamp: 30,
            deltas: vec![delta(
                DeltaStatus::Modified,
                Some("grp/post.md"),
                Some("grp/post.md"),
                Some("post, again"),
            )],
        },
    ]
}

#[test]
fn a_diff_nets_the_whole_range() {
    assert_eq!(
        diff_commits(&history()),
        vec![
            GitFileEntry::GroupAdded {
                group: "grp".to_string(),
                content: "public: true".to_string(),
            },
            GitFileEntry::ArticleAdded {
                group: "grp".to_string(),
                name: "post.md".to_string(),
                timestamp: 30,
                content: "post, again".to_string(),
            },
        ]
    );
}

#[test]
fn a_range_has_one_record_for_each_path() {
    assert_eq!(
        diff_commits_range(&history(), true),
        vec![
            record("n3w", "grp/.group.toml", ChangeKind::Added, 10),
            record("n3w", "grp/post.md", ChangeKind::Modified, 30),
        ]
    );
}

#[test]
fn a_range_from_the_beginning_is_the_snapshot() {
    assert_eq!(
        diff_commits_range(&history(), false),
        vec![
            record("n3w", "grp/.group.toml", ChangeKind::Added, 10),
            record("n3w", "grp/post.md", ChangeKind::Added, 30),
        ]
    );
    assert_eq!(diff_commits_range(&history(), false), snapshot(&history()));
    assert_eq!(diff_commits_range(&Vec::new(), false), snapshot(&Vec::new()));
}

#[test]
fn a_snapshot_lists_what_is_there_as_additions() {
    assert_eq!(
        snapshot(&history()),
        vec![
            record("n3w", "grp/.group.toml", ChangeKind::Added, 10),
            record("n3w", "grp/post.md", ChangeKind::Added, 30),
        ]
    );
    assert!(snapshot(&Vec::new()).is_empty());
}

#[test]
fn a_file_that_came_and_went_is_not_in_the_snapshot() {
    let came_and_went = vec![
        CommitDelta {
            timestamp: 1,
            deltas: vec![
                delta(DeltaStatus::Added, None, Some("g/a.md"), Some("a")),
                delta(DeltaStatus::Added, None, Some("g/b.md"), Some("b")),
                delta(DeltaStatus::Added, None, Some("image.png"), None),
            ],
        },
        CommitDelta {
            timestamp: 2,
            deltas: vec![delta(DeltaStatus::Modified, Some("g/a.md"), Some("g/a.md"), Some("a2"))],
        },
        CommitDelta {
            timestamp: 3,
            deltas: vec![delta(DeltaStatus::Deleted, Some("g/a.md"), None, None)],
        },
    ];
    assert_eq!(
        diff_commits_range(&came_and_went, true),
        vec![
            record("n3w", "g/b.md", ChangeKind::Added, 1),
            record("0ld", "g/a.md", ChangeKind::Deleted, 3),
        ]
    );
    assert_eq!(snapshot(&came_and_went), vec![record("n3w", "g/b.md", ChangeKind::Added, 1)]);
    assert_eq!(diff_commits_range(&came_and_went, false), snapshot(&came_and_went));
}

#[test]
fn listing_drops_deletions_and_marks_additions() {
    let records = vec![
        record("1", "a.md", ChangeKind::Modified, 1),
        record("2", "b.md", ChangeKind::Deleted, 2),
        record("3", "c.md", ChangeKind::Added, 3),
    ];
    assert_eq!(
        list_files(&records),
        vec![record("1", "a.md", ChangeKind::Added, 1), record("3", "c.md", ChangeKind::Added, 3)]
    );
}

#[test]
fn the_same_range_gives_the_same_diff_twice() {
    let first = diff_commits(&history());
    let second = diff_commits(&history());
    assert_eq!(first, second);
    assert_eq!(diff_commits_range(&history(), true), diff_commits_range(&history(), true));
    assert_eq!(diff_commits_range(&history(), false), diff_commits_range(&history(), false));
}
