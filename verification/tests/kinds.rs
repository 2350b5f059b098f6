use gitnote::kind::ChangeKind::{Added, Deleted, Modified};
use gitnote::kind::{is_markdown_file, merge_change, FileKind};

#[test]
fn test_file_kind_from_path() {
    assert_eq!(FileKind::from_path(".group.toml"), FileKind::Group);
    assert_eq!(FileKind::from_path("doc.md"), FileKind::Markdown);
    assert_eq!(FileKind::from_path("notes.markdown"), FileKind::Markdown);
    assert_eq!(FileKind::from_path("image.png"), FileKind::Other);
    assert_eq!(FileKind::from_path("folder/unknown"), FileKind::Other);
}

#[test]
fn test_merge_change_logic() {
    assert_eq!(merge_change(None, Added), Some(Added));
    assert_eq!(merge_change(None, Deleted), Some(Deleted));
    assert_eq!(merge_change(None, Modified), Some(Modified));

    assert_eq!(merge_change(Some(&Added), Added), Some(Modified));
    assert_eq!(merge_change(Some(&Added), Modified), Some(Modified));
    assert_eq!(merge_change(Some(&Added), Deleted), None);

    assert_eq!(merge_change(Some(&Deleted), Added), Some(Added));
    assert_eq!(merge_change(Some(&Deleted), Deleted), Some(Deleted));
    assert_eq!(merge_change(Some(&Deleted), Modified), Some(Modified));

    assert_eq!(merge_change(Some(&Modified), Added), Some(Modified));
    assert_eq!(merge_change(Some(&Modified), Deleted), Some(Deleted));
    assert_eq!(merge_change(Some(&Modified), Modified), Some(Modified));
}

#[test]
fn test_is_markdown_file() {
    assert!(is_markdown_file("doc.md"));
    assert!(is_markdown_file("README.markdown"));
    assert!(!is_markdown_file("config.toml"));
    assert!(!is_markdown_file("no_extension"));
}

#[test]
fn file_kind_looks_at_the_last_component_only() {
    assert_eq!(FileKind::from_path("a/b/.group.toml"), FileKind::Group);
    assert_eq!(FileKind::from_path("a.md/readme"), FileKind::Other);
    assert_eq!(FileKind::from_path("a/.md"), FileKind::Other);
    assert_eq!(FileKind::from_path("a/x.MD"), FileKind::Other);
    assert_eq!(FileKind::from_path("a/.group.toml.bak"), FileKind::Other);
    assert_eq!(FileKind::from_path("notes/.hidden.md"), FileKind::Markdown);
    assert_eq!(FileKind::from_path(""), FileKind::Other);
}
