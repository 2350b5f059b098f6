use gitnote::hook::{GitPushPayload, PersistMode, PushKind, RefKind};

#[test]
fn test_ref_kind_main_branch() {
    let args = GitPushPayload {
        refname: "refs/heads/main".to_string(),
        before: "0000000000000000000000000000000000000000".to_string(),
        after: "abc123".to_string(),
        pusher: "alice".to_string(),
        repository: "repo1".to_string(),
    };
    assert!(matches!(args.push_kind(), PushKind::Sync));
}

#[test]
fn test_ref_kind_rebuild() {
    let args = GitPushPayload {
        refname: "refs/tags/cmd/rebuild".to_string(),
        before: "0000000000000000000000000000000000000000".to_string(),
        after: "abc123".to_string(),
        pusher: "bob".to_string(),
        repository: "repo2".to_string(),
    };
    assert!(matches!(args.push_kind(), PushKind::Rebuild));
}

#[test]
fn test_ref_kind_other() {
    let args = GitPushPayload {
        refname: "refs/heads/feature".to_string(),
        before: "abc123".to_string(),
        after: "def456".to_string(),
        pusher: "carol".to_string(),
        repository: "repo3".to_string(),
    };
    assert!(matches!(args.push_kind(), PushKind::Ignore));
}

#[test]
fn test_ref_kind_rebuild_with_nonzero_before() {
    let args = GitPushPayload {
        refname: "refs/tags/cmd/rebuild".to_string(),
        before: "abc123".to_string(),
        after: "def456".to_string(),
        pusher: "dave".to_string(),
        repository: "repo4".to_string(),
    };
    assert!(matches!(args.push_kind(), PushKind::Rebuild));
}

#[test]
fn test_parse_ref_kind_all_cases() {
    let cases = vec![
        ("refs/heads/main", RefKind::MainBranch),
        ("refs/tags/cmd/archive", RefKind::Archive),
        ("refs/tags/cmd/archive.merge", RefKind::ArchiveMerge),
        ("refs/tags/cmd/rebuild", RefKind::Rebuild),
        ("refs/tags/cmd/rebuild.all", RefKind::RebuildAll),
        ("refs/heads/feature-x", RefKind::Other),
        ("refs/tags/random-tag", RefKind::Other),
    ];

    for (ref_name, expected) in cases {
        let kind = RefKind::parse_ref_kind(ref_name);
        match (kind, expected) {
            (RefKind::MainBranch, RefKind::MainBranch)
            | (RefKind::Archive, RefKind::Archive)
            | (RefKind::ArchiveMerge, RefKind::ArchiveMerge)
            | (RefKind::Rebuild, RefKind::Rebuild)
            | (RefKind::RebuildAll, RefKind::RebuildAll)
            | (RefKind::Other, RefKind::Other) => {}
            (a, b) => panic!("For ref '{}', expected {:?}, got {:?}", ref_name, b, a),
        }
    }
}

fn payload(refname: &str, before: &str) -> GitPushPayload {
    GitPushPayload {
        refname: refname.to_string(),
        before: before.to_string(),
        after: "abc123".to_string(),
        pusher: "erin".to_string(),
        repository: "repo5".to_string(),
    }
}

#[test]
fn archive_tags_ask_for_an_archive() {
    let push = payload("refs/tags/archive/2025-Q2", "abc123");
    assert_eq!(push.push_kind(), PushKind::Archive);
    assert_eq!(push.archive_tag(), Some("2025-Q2".to_string()));

    let bare = payload("refs/tags/archive/", "abc123");
    assert_eq!(bare.push_kind(), PushKind::Ignore);
    assert_eq!(bare.archive_tag(), None);

    let main = payload("refs/heads/main", "abc123");
    assert_eq!(main.archive_tag(), None);
}

#[test]
fn push_kinds_choose_the_persist_mode() {
    assert_eq!(PushKind::Sync.persist_mode(), Some(PersistMode::Incremental));
    assert_eq!(PushKind::Rebuild.persist_mode(), Some(PersistMode::ResetAll));
    assert_eq!(PushKind::Archive.persist_mode(), None);
    assert_eq!(PushKind::Ignore.persist_mode(), None);
}
