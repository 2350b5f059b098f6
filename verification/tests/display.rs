use chrono::{Local, TimeZone};
use gitnote::display::{format_with_commas, summary_of, AsSummary};
use gitnote::entry::{GitFileEntry, RepoEntry};
use gitnote::kind::{ChangeKind, FileKind};

#[test]
fn test_repo_entry_display() {
    let entry_added = RepoEntry::new(
        "123".to_string(),
        "group-a/test.md".to_string(),
        ChangeKind::Added,
        FileKind::Markdown,
        Local.with_ymd_and_hms(2024, 8, 22, 12, 30, 0).unwrap().timestamp(),
    );

    let entry_modified = RepoEntry::new(
        "124".to_string(),
        "group-a/updated.md".to_string(),
        ChangeKind::Modified,
        FileKind::Markdown,
        Local.with_ymd_and_hms(2024, 8, 22, 12, 35, 0).unwrap().timestamp(),
    );

    let output_added = entry_added.display().unwrap();
    assert!(output_added.contains("[md]"));
    assert!(output_added.contains("+"));
    assert!(output_added.contains("group-a/test.md"));
    assert!(output_added.contains("2024-08-22 12:30"));

    let output_modified = entry_modified.display().unwrap();
    assert!(output_modified.contains("[md]"));
    assert!(output_modified.contains("~"));
    assert!(output_modified.contains("group-a/updated.md"));
    assert!(output_modified.contains("2024-08-22 12:35"));
}

fn record(path: &str, change: ChangeKind, kind: FileKind, time: i64) -> RepoEntry {
    RepoEntry::new("id".to_string(), path.to_string(), change, kind, time)
}

#[test]
fn record_lines_are_label_mark_path_and_time() {
    assert_eq!(
        record("group-a/test.md", ChangeKind::Added, FileKind::Markdown, 0)
            .display_with("2024-08-22 12:30"),
        "[md]    + group-a/test.md @ 2024-08-22 12:30"
    );
    assert_eq!(
        record(".group.toml", ChangeKind::Deleted, FileKind::Group, 0).display_with("T"),
        "[group] - .group.toml @ T"
    );
    assert_eq!(
        record("a.png", ChangeKind::Modified, FileKind::Other, 0).display_with(""),
        "[-]     ~ a.png @ "
    );
}

#[test]
fn a_record_beyond_the_calendar_has_no_line() {
    assert_eq!(record("a.md", ChangeKind::Added, FileKind::Markdown, i64::MAX).display(), None);
    assert_eq!(record("a.md", ChangeKind::Added, FileKind::Markdown, i64::MIN).display(), None);
}

#[test]
fn entry_lines_note_the_size_of_what_is_added() {
    let added = GitFileEntry::ArticleAdded {
        group: "g".to_string(),
        name: "a.md".to_string(),
        timestamp: 0,
        content: "one\ntwo\n".to_string(),
    };
    assert_eq!(
        added.display_with("2024-08-22 12:30"),
        " [file] + g/a.md @ 2024-08-22 12:30  (2 lines, 8 bytes)"
    );
    let group = GitFileEntry::GroupAdded {
        group: "g".to_string(),
        content: "h\u{e9}llo".to_string(),
    };
    assert_eq!(group.display_with("unused"), "[group] + g/.group.toml  (1 lines, 6 bytes)");
    assert_eq!(group.display(), Some("[group] + g/.group.toml  (1 lines, 6 bytes)".to_string()));
    assert_eq!(
        GitFileEntry::GroupRemoved { group: "g".to_string() }.display(),
        Some("[group] - g/".to_string())
    );
    assert_eq!(
        GitFileEntry::ArticleRemoved { group: "g".to_string(), name: "a.md".to_string() }
            .display(),
        Some(" [file] - g/a.md".to_string())
    );
    let line = added.display().unwrap();
    assert!(line.starts_with(" [file] + g/a.md @ 19"));
    assert!(line.ends_with("  (2 lines, 8 bytes)"));
}

#[test]
fn lines_are_counted_as_a_reader_counts_them() {
    let text = |content: &str| {
        GitFileEntry::GroupAdded { group: "g".to_string(), content: content.to_string() }
            .display_with("")
    };
    assert_eq!(text(""), "[group] + g/.group.toml  (0 lines, 0 bytes)");
    assert_eq!(text("a"), "[group] + g/.group.toml  (1 lines, 1 bytes)");
    assert_eq!(text("a\n"), "[group] + g/.group.toml  (1 lines, 2 bytes)");
    assert_eq!(text("a\nb"), "[group] + g/.group.toml  (2 lines, 3 bytes)");
    assert_eq!(text("\n\n"), "[group] + g/.group.toml  (2 lines, 2 bytes)");
    assert_eq!(text("a\r\nb\r\n"), "[group] + g/.group.toml  (2 lines, 6 bytes)");
    for content in ["", "a", "a\n", "a\nb", "\n\n", "a\r\nb\r\n", "\n", "x\n\ny"] {
        assert!(text(content).contains(&format!("({} lines", content.lines().count())));
    }
}

#[test]
fn bytes_are_written_with_commas() {
    assert_eq!(format_with_commas(0), "0");
    assert_eq!(format_with_commas(999), "999");
    assert_eq!(format_with_commas(1000), "1,000");
    assert_eq!(format_with_commas(1234567), "1,234,567");
    assert_eq!(format_with_commas(1000000), "1,000,000");
    assert_eq!(format_with_commas(12005), "12,005");
}

#[test]
fn a_summary_has_one_line_for_each_record() {
    assert_eq!(summary_of(&Vec::new()), "No entries");
    assert_eq!(summary_of(&vec!["one".to_string()]), "one");
    assert_eq!(
        summary_of(&vec!["one".to_string(), "two".to_string(), "three".to_string()]),
        "one\ntwo\nthree"
    );

    assert_eq!(Vec::<RepoEntry>::new().as_summary(), Some("No entries".to_string()));
    let records = vec![
        record("g/a.md", ChangeKind::Added, FileKind::Markdown, 0),
        record("g/.group.toml", ChangeKind::Added, FileKind::Group, 86_400 * 365),
    ];
    let summary = records.as_summary().unwrap();
    let mut lines = summary.lines();
    assert!(lines.next().unwrap().starts_with("[md]"));
    assert!(lines.next().unwrap().starts_with("[group]"));
    assert!(lines.next().is_none());

    let beyond = vec![record("g/a.md", ChangeKind::Added, FileKind::Markdown, i64::MAX)];
    assert_eq!(beyond.as_summary(), None);
}

const FIRST_SECOND: i64 = -8_334_601_228_800;
const LAST_SECOND: i64 = 8_210_266_876_799;

#[test]
fn a_line_reaches_as_far_as_the_calendar() {
    for time in [FIRST_SECOND, -1, 0, 1_724_329_800, LAST_SECOND] {
        let line = record("a.md", ChangeKind::Added, FileKind::Markdown, time).display();
        assert!(line.unwrap().starts_with("[md]    + a.md @ "));
    }
    for time in [i64::MIN, FIRST_SECOND - 1, LAST_SECOND + 1, i64::MAX] {
        assert_eq!(record("a.md", ChangeKind::Added, FileKind::Markdown, time).display(), None);
    }
}

#[test]
fn an_entry_has_no_line_only_beyond_the_calendar() {
    let article = |time: i64| GitFileEntry::ArticleAdded {
        group: "g".to_string(),
        name: "a.md".to_string(),
        timestamp: time,
        content: "one\n".to_string(),
    };
    assert!(article(FIRST_SECOND).display().is_some());
    assert!(article(LAST_SECOND).display().is_some());
    assert_eq!(article(FIRST_SECOND - 1).display(), None);
    assert_eq!(article(LAST_SECOND + 1).display(), None);
}

#[test]
fn a_summary_needs_every_record_within_the_calendar() {
    let within = vec![
        record("a.md", ChangeKind::Added, FileKind::Markdown, FIRST_SECOND),
        record("b.md", ChangeKind::Added, FileKind::Markdown, LAST_SECOND),
    ];
    assert_eq!(within.as_summary().unwrap().lines().count(), 2);
    let beyond = vec![
        record("a.md", ChangeKind::Added, FileKind::Markdown, 0),
        record("b.md", ChangeKind::Added, FileKind::Markdown, LAST_SECOND + 1),
    ];
    assert_eq!(beyond.as_summary(), None);
}
