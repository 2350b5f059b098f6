use gitnote::diff::{
    collect_entries, collect_records, compute_commit_diff, into_entry, CommitDelta, Delta,
    DeltaStatus, DiffFile,
};
use gitnote::entry::{GitFileEntry, RepoEntry};
use gitnote::kind::{ChangeKind, FileKind};

fn file(id: &str, path: Option<&str>) -> DiffFile {
    DiffFile { id: id.to_string(), path: path.map(|p| p.to_string()) }
}

fn delta(status: DeltaStatus, old: Option<&str>, new: Option<&str>, content: Option<&str>) -> Delta {
    Delta {
        status,
        old_file: file("0ld", old),
        new_file: file("n3w", new),
        content: content.map(|c| c.to_string()),
    }
}

fn commit(timestamp: i64, deltas: Vec<Delta>) -> CommitDelta {
    CommitDelta { timestamp, deltas }
}

#[test]
fn an_added_article_gives_one_addition() {
    let c = commit(100, vec![delta(DeltaStatus::Added, None, Some("grp/post.md"), Some("text"))]);
    assert_eq!(
        compute_commit_diff(&c),
        vec![GitFileEntry::ArticleAdded {
            group: "grp".to_string(),
            name: "post.md".to_string(),
            timestamp: 100,
            content: "text".to_string(),
        }]
    );
}

#[test]
fn a_copied_file_is_an_addition_only() {
    let c = commit(
        5,
        vec![delta(DeltaStatus::Copied, Some("grp/a.md"), Some("grp/b.md"), Some("text"))],
    );
    assert_eq!(
        compute_commit_diff(&c),
        vec![GitFileEntry::ArticleAdded {
            group: "grp".to_string(),
            name: "b.md".to_string(),
            timestamp: 5,
            content: "text".to_string(),
        }]
    );
}

#[test]
fn a_deleted_group_file_gives_one_removal() {
    let c = commit(7, vec![delta(DeltaStatus::Deleted, Some("grp/.group.toml"), None, None)]);
    assert_eq!(
        compute_commit_diff(&c),
        vec![GitFileEntry::GroupRemoved { group: "grp".to_string() }]
    );
}

#[test]
fn a_modified_file_is_removed_and_added() {
    let c = commit(
        9,
        vec![delta(DeltaStatus::Modified, Some("grp/a.md"), Some("grp/a.md"), Some("new"))],
    );
    assert_eq!(
        compute_commit_diff(&c),
        vec![
            GitFileEntry::ArticleRemoved { group: "grp".to_string(), name: "a.md".to_string() },
            GitFileEntry::ArticleAdded {
                group: "grp".to_string(),
                name: "a.md".to_string(),
                timestamp: 9,
                content: "new".to_string(),
            },
        ]
    );
}

#[test]
fn a_rename_removes_the_old_path_and_adds_the_new() {
    let c = commit(
        9,
        vec![delta(DeltaStatus::Renamed, Some("old/a.md"), Some("new/b.md"), Some("same"))],
    );
    assert_eq!(
        compute_commit_diff(&c),
        vec![
            GitFileEntry::ArticleRemoved { group: "old".to_string(), name: "a.md".to_string() },
            GitFileEntry::ArticleAdded {
                group: "new".to_string(),
                name: "b.md".to_string(),
                timestamp: 9,
                content: "same".to_string(),
            },
        ]
    );
}

#[test]
fn other_files_and_other_statuses_give_nothing() {
    let c = commit(
        1,
        vec![
            delta(DeltaStatus::Added, None, Some("img/logo.png"), Some("bytes")),
            delta(DeltaStatus::Unmodified, Some("a.md"), Some("a.md"), Some("x")),
            delta(DeltaStatus::Typechange, Some("a.md"), Some("a.md"), Some("x")),
            delta(DeltaStatus::Conflicted, Some("a.md"), Some("a.md"), Some("x")),
            delta(DeltaStatus::Ignored, None, Some("b.md"), Some("x")),
            delta(DeltaStatus::Untracked, None, Some("b.md"), Some("x")),
            delta(DeltaStatus::Unreadable, None, Some("b.md"), Some("x")),
            delta(DeltaStatus::Added, None, None, Some("x")),
        ],
    );
    assert!(compute_commit_diff(&c).is_empty());
}

#[test]
fn an_addition_without_text_is_left_out() {
    let c = commit(
        1,
        vec![
            delta(DeltaStatus::Added, None, Some("grp/a.md"), None),
            delta(DeltaStatus::Modified, Some("grp/b.md"), Some("grp/b.md"), None),
            delta(DeltaStatus::Added, None, Some("grp/.group.toml"), None),
        ],
    );
    assert_eq!(
        compute_commit_diff(&c),
        vec![GitFileEntry::ArticleRemoved { group: "grp".to_string(), name: "b.md".to_string() }]
    );
}

#[test]
fn a_file_at_the_root_has_an_empty_group() {
    let c = commit(3, vec![delta(DeltaStatus::Added, None, Some(".group.toml"), Some("k"))]);
    assert_eq!(
        compute_commit_diff(&c),
        vec![GitFileEntry::GroupAdded { group: "".to_string(), content: "k".to_string() }]
    );
}

#[test]
fn needs_content_only_for_tracked_additions() {
    assert!(delta(DeltaStatus::Added, None, Some("a/b.md"), None).needs_content());
    assert!(delta(DeltaStatus::Renamed, Some("x"), Some("a/.group.toml"), None).needs_content());
    assert!(!delta(DeltaStatus::Added, None, Some("a/b.png"), None).needs_content());
    assert!(!delta(DeltaStatus::Deleted, Some("a/b.md"), Some("a/b.md"), None).needs_content());
    assert!(!delta(DeltaStatus::Added, None, None, None).needs_content());
}

#[test]
fn entries_follow_the_commits_in_order() {
    let commits = vec![
        commit(1, vec![delta(DeltaStatus::Added, None, Some("g/a.md"), Some("one"))]),
        commit(
            2,
            vec![
                delta(DeltaStatus::Added, None, Some("g/b.md"), Some("two")),
                delta(DeltaStatus::Deleted, Some("g/a.md"), None, None),
            ],
        ),
    ];
    assert_eq!(
        collect_entries(&commits),
        vec![
            GitFileEntry::ArticleAdded {
                group: "g".to_string(),
                name: "a.md".to_string(),
                timestamp: 1,
                content: "one".to_string(),
            },
            GitFileEntry::ArticleAdded {
                group: "g".to_string(),
                name: "b.md".to_string(),
                timestamp: 2,
                content: "two".to_string(),
            },
            GitFileEntry::ArticleRemoved { group: "g".to_string(), name: "a.md".to_string() },
        ]
    );
    assert!(collect_entries(&Vec::new()).is_empty());
}

fn record(id: &str, path: &str, change: ChangeKind, kind: FileKind, time: i64) -> RepoEntry {
    RepoEntry::new(id.to_string(), path.to_string(), change, kind, time)
}

#[test]
fn records_keep_group_files_and_articles_only() {
    let c = commit(
        4,
        vec![
            delta(DeltaStatus::Added, None, Some("g/a.md"), None),
            delta(DeltaStatus::Deleted, Some("g/.group.toml"), None, None),
            delta(DeltaStatus::Modified, Some("img.png"), Some("img.png"), None),
            delta(DeltaStatus::Added, None, Some("g/logo.png"), None),
            delta(DeltaStatus::Deleted, Some("folder/unknown"), None, None),
            delta(DeltaStatus::Renamed, Some("g/x.md"), Some("g/y.md"), None),
            delta(DeltaStatus::Renamed, Some("g/notes.txt"), Some("g/notes.md"), None),
            delta(DeltaStatus::Renamed, Some("g/old.md"), Some("g/old.bak"), None),
            delta(DeltaStatus::Copied, Some("g/x.md"), Some("g/z.md"), None),
            delta(DeltaStatus::Unmodified, Some("g/u.md"), Some("g/u.md"), None),
        ],
    );
    assert_eq!(
        into_entry(&c),
        vec![
            record("n3w", "g/a.md", ChangeKind::Added, FileKind::Markdown, 4),
            record("0ld", "g/.group.toml", ChangeKind::Deleted, FileKind::Group, 4),
            record("0ld", "g/x.md", ChangeKind::Deleted, FileKind::Markdown, 4),
            record("n3w", "g/y.md", ChangeKind::Added, FileKind::Markdown, 4),
            record("n3w", "g/notes.md", ChangeKind::Added, FileKind::Markdown, 4),
            record("0ld", "g/old.md", ChangeKind::Deleted, FileKind::Markdown, 4),
            record("n3w", "g/z.md", ChangeKind::Added, FileKind::Markdown, 4),
        ]
    );
    let other = commit(1, vec![delta(DeltaStatus::Added, None, Some("image.png"), None)]);
    assert!(into_entry(&other).is_empty());
    assert!(collect_records(&vec![other]).is_empty());
}

#[test]
fn records_follow_the_commits_in_order() {
    let commits = vec![
        commit(1, vec![delta(DeltaStatus::Added, None, Some("g/a.md"), None)]),
        commit(2, vec![delta(DeltaStatus::Modified, Some("g/a.md"), Some("g/a.md"), None)]),
    ];
    assert_eq!(
        collect_records(&commits),
        vec![
            record("n3w", "g/a.md", ChangeKind::Added, FileKind::Markdown, 1),
            record("n3w", "g/a.md", ChangeKind::Modified, FileKind::Markdown, 2),
        ]
    );
}

#[test]
fn record_getters_give_back_the_fields() {
    let r = record("abc", "g/a.md", ChangeKind::Deleted, FileKind::Markdown, -5);
    assert_eq!(r.id(), "abc");
    assert_eq!(r.path(), "g/a.md");
    assert_eq!(r.change_kind(), ChangeKind::Deleted);
    assert_eq!(r.file_kind(), FileKind::Markdown);
    assert_eq!(r.timestamp(), -5);
    assert_eq!(
        r.with_change(ChangeKind::Added),
        record("abc", "g/a.md", ChangeKind::Added, FileKind::Markdown, -5)
    );
}
