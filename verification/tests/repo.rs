use gitnote::client::{GitClient, GitOperation};
use gitnote::display::AsSummary;
use gitnote::archive::ArchivedInfo;
use gitnote::archiver::{ArchiveRun, ArchiveStep, RunAction, RunEvent};
use gitnote::diff::{CommitDelta, Delta, DeltaStatus, DiffFile};
use gitnote::entry::{GitFileEntry, RepoEntry};
use gitnote::error::Error;
use gitnote::kind::{ChangeKind, FileKind};
use gitnote::repo::{load_blob, resolve_range, DiffRange, GitBareRepository, GitError};

const EMPTY_TREE: &str = "4b825dc642cb6eb9a060e54bf8d69288fbee4904";
const ZERO: &str = "0000000000000000000000000000000000000000";
const SOME: &str = "84779e0a9461e9130b5ad09241349b2c9a9619a3";
const MORE: &str = "4db775450dee399c328935eb03fd4fcc6c60e333";

#[test]
fn a_range_starts_behind_its_base() {
    assert_eq!(
        resolve_range(SOME, MORE),
        Ok(DiffRange { base: Some(SOME.to_string()), head: MORE.to_string() })
    );
}

#[test]
fn the_zero_id_and_the_empty_tree_mean_the_beginning() {
    assert_eq!(resolve_range(ZERO, MORE), Ok(DiffRange { base: None, head: MORE.to_string() }));
    assert_eq!(
        resolve_range(EMPTY_TREE, MORE),
        Ok(DiffRange { base: None, head: MORE.to_string() })
    );
    assert_eq!(resolve_range("0", MORE), Ok(DiffRange { base: None, head: MORE.to_string() }));
    assert_eq!(resolve_range("000", "abc"), Ok(DiffRange { base: None, head: "abc".to_string() }));
    assert_eq!(
        resolve_range("0001", "ABC"),
        Ok(DiffRange { base: Some("0001".to_string()), head: "ABC".to_string() })
    );
    assert_eq!(
        resolve_range("10", "abc"),
        Ok(DiffRange { base: Some("10".to_string()), head: "abc".to_string() })
    );
}

#[test]
fn a_revision_that_is_no_id_is_refused() {
    assert!(matches!(resolve_range("", MORE), Err(GitError::Git2(_))));
    assert!(matches!(resolve_range(SOME, ""), Err(GitError::Git2(_))));
    assert!(matches!(resolve_range("xyz", MORE), Err(GitError::Git2(_))));
    assert!(matches!(resolve_range(SOME, "main"), Err(GitError::Git2(_))));
    assert!(matches!(
        resolve_range("84779e0a9461e9130b5ad09241349b2c9a9619a3f", MORE),
        Err(GitError::Git2(_))
    ));
    assert!(matches!(resolve_range("\u{e9}", MORE), Err(GitError::Git2(_))));
}

#[test]
fn a_blob_is_read_as_text() {
    assert_eq!(load_blob(Some("h\u{e9}llo".as_bytes())), Ok("h\u{e9}llo".to_string()));
    assert_eq!(load_blob(Some(&[])), Ok(String::new()));
    assert_eq!(load_blob(Some(&[0xff, 0xfe])), Err(GitError::NotFound));
    assert_eq!(load_blob(Some(&[0xc3])), Err(GitError::NotFound));
    assert_eq!(load_blob(None), Err(GitError::NotFound));
}

#[test]
fn a_repository_is_known_by_its_path() {
    let repo = GitBareRepository::new("gitnote.git");
    assert_eq!(repo.path(), "gitnote.git");
}

#[test]
fn errors_answer_with_their_status() {
    assert_eq!(Error::Git(GitError::NotFound).status(), 404);
    assert_eq!(Error::Git(GitError::NotExist).status(), 404);
    assert_eq!(Error::Git(GitError::Git2("bad".to_string())).status(), 500);
    assert_eq!(Error::Git(GitError::IO("bad".to_string())).status(), 500);
    assert_eq!(Error::Git(GitError::CommandFailed("bad".to_string())).status(), 500);
    assert_eq!(Error::Sqlx("bad".to_string()).status(), 500);
    assert_eq!(Error::Reqwest("bad".to_string()).status(), 502);
    assert_eq!(Error::NotFound.status(), 404);
    assert_eq!(Error::Custom("bad").status(), 400);
    assert_eq!(Error::Serde("bad".to_string()).status(), 400);
    assert_eq!(Error::Io("bad".to_string()).status(), 500);
}

#[test]
fn errors_answer_with_what_a_caller_may_know() {
    assert_eq!(Error::Git(GitError::NotFound).body(), "blob not found");
    assert_eq!(Error::Git(GitError::NotExist).body(), "repository not exist");
    assert_eq!(Error::Git(GitError::Git2("bad id".to_string())).body(), "bad id");
    assert_eq!(Error::Git(GitError::IO("disk".to_string())).body(), "disk");
    assert_eq!(Error::Git(GitError::CommandFailed("exit 1".to_string())).body(), "exit 1");
    assert_eq!(Error::Sqlx("secret".to_string()).body(), "Internal Server Error");
    assert_eq!(Error::Reqwest("secret".to_string()).body(), "Bad Gateway");
    assert_eq!(Error::NotFound.body(), "NOT FOUND");
    assert_eq!(Error::Custom("no front matter").body(), "no front matter");
    assert_eq!(Error::Serde("line 3".to_string()).body(), "line 3");
    assert_eq!(Error::Io("secret".to_string()).body(), "Internal Server Error");
}

struct Memory {
    commits: Vec<(String, CommitDelta)>,
    blobs: Vec<(String, Vec<u8>)>,
    reachable: bool,
}

impl GitOperation for Memory {
    fn remote_update(&mut self) -> Result<(), GitError> {
        if self.reachable {
            Ok(())
        } else {
            Err(GitError::CommandFailed("no route".to_string()))
        }
    }

    fn commits_in_range(&self, range: &DiffRange) -> Result<Vec<CommitDelta>, GitError> {
        let head = self
            .commits
            .iter()
            .position(|(id, _)| *id == range.head)
            .ok_or(GitError::Git2("no such commit".to_string()))?;
        let first = match &range.base {
            Some(base) => {
                self.commits
                    .iter()
                    .position(|(id, _)| id == base)
                    .ok_or(GitError::Git2("no such commit".to_string()))?
                    + 1
            }
            None => 0,
        };
        Ok(self.commits[first..=head].iter().map(|(_, c)| c.clone()).collect())
    }

    fn blob_bytes(&self, blob_id: &str) -> Option<Vec<u8>> {
        self.blobs.iter().find(|(id, _)| id == blob_id).map(|(_, bytes)| bytes.clone())
    }
}

fn delta(status: DeltaStatus, old: Option<&str>, new: Option<&str>, id: &str) -> Delta {
    let mut delta = Delta {
        status,
        old_file: DiffFile { id: id.to_string(), path: old.map(|p| p.to_string()) },
        new_file: DiffFile { id: id.to_string(), path: new.map(|p| p.to_string()) },
        content: None,
    };
    if delta.needs_content() {
        delta.content = Some(format!("text of {}", id));
    }
    delta
}

fn memory() -> Memory {
    Memory {
        commits: vec![
            (
                "a1".to_string(),
                CommitDelta {
                    timestamp: 10,
                    deltas: vec![
                        delta(DeltaStatus::Added, None, Some("grp/.group.toml"), "b1"),
                        delta(DeltaStatus::Added, None, Some("grp/old.md"), "b2"),
                    ],
                },
            ),
            (
                "a2".to_string(),
                CommitDelta {
                    timestamp: 20,
                    deltas: vec![
                        delta(DeltaStatus::Added, None, Some("grp/post.md"), "b3"),
                        delta(DeltaStatus::Deleted, Some("grp/old.md"), None, "b2"),
                    ],
                },
            ),
        ],
        blobs: vec![
            ("b1".to_string(), b"public: true".to_vec()),
            ("b3".to_string(), b"post".to_vec()),
            ("bad".to_string(), vec![0xff]),
        ],
        reachable: true,
    }
}

fn record(id: &str, path: &str, change: ChangeKind, time: i64) -> RepoEntry {
    RepoEntry::new(id.to_string(), path.to_string(), change, FileKind::from_path(path), time)
}

#[test]
fn a_client_nets_what_the_store_hands_over() {
    let client = GitClient::new(memory());
    assert_eq!(
        client.diff_commits("a1", "a2"),
        Ok(vec![
            record("b3", "grp/post.md", ChangeKind::Added, 20),
            record("b2", "grp/old.md", ChangeKind::Deleted, 20),
        ])
    );
    assert_eq!(
        client.snapshot("a2"),
        Ok(vec![
            record("b1", "grp/.group.toml", ChangeKind::Added, 10),
            record("b3", "grp/post.md", ChangeKind::Added, 20),
        ])
    );
    assert_eq!(client.diff_commits(ZERO, "a1"), client.snapshot("a1"));
    assert_eq!(client.diff_commits("a1", "a2"), client.diff_commits("a1", "a2"));
}

#[test]
fn a_snapshot_is_the_diff_from_the_empty_tree() {
    let mut store = memory();
    store.commits.push((
        "a3".to_string(),
        CommitDelta {
            timestamp: 30,
            deltas: vec![delta(
                DeltaStatus::Modified,
                Some("grp/post.md"),
                Some("grp/post.md"),
                "b4",
            )],
        },
    ));
    let client = GitClient::new(store);
    let listing = Ok(vec![
        record("b1", "grp/.group.toml", ChangeKind::Added, 10),
        record("b4", "grp/post.md", ChangeKind::Added, 30),
    ]);
    assert_eq!(client.snapshot("a3"), listing);
    assert_eq!(client.diff_commits(EMPTY_TREE, "a3"), listing);
    assert_eq!(client.diff_commits(ZERO, "a3"), listing);
    assert_eq!(
        client.diff_commits("a1", "a3"),
        Ok(vec![
            record("b2", "grp/old.md", ChangeKind::Deleted, 20),
            record("b4", "grp/post.md", ChangeKind::Modified, 30),
        ])
    );
    for commit in ["a1", "a2", "a3", "a4", "HEAD"] {
        assert_eq!(client.snapshot(commit), client.diff_commits(EMPTY_TREE, commit));
    }
}

#[test]
fn a_client_hands_on_what_the_store_fails_with() {
    let client = GitClient::new(memory());
    let failure = GitError::Git2("no such commit".to_string());
    assert_eq!(client.diff_commits("a1", "b7"), Err(failure.clone()));
    assert_eq!(client.diff_commits("c9", "a2"), Err(failure.clone()));
    assert_eq!(client.snapshot("b7"), Err(failure.clone()));
    assert_eq!(client.diff_entries("a1", "b7"), Err(failure.clone()));
    assert_eq!(client.plan_archive("2025-Q2", "b7", 0).err(), Some(failure));
}

#[test]
fn a_client_nets_entries_and_plans_the_archive() {
    let client = GitClient::new(memory());
    let post = GitFileEntry::ArticleAdded {
        group: "grp".to_string(),
        name: "post.md".to_string(),
        timestamp: 20,
        content: "text of b3".to_string(),
    };
    let group = GitFileEntry::GroupAdded {
        group: "grp".to_string(),
        content: "text of b1".to_string(),
    };
    assert_eq!(
        client.diff_entries("a1", "a2"),
        Ok(vec![
            post.clone(),
            GitFileEntry::ArticleRemoved { group: "grp".to_string(), name: "old.md".to_string() },
        ])
    );
    assert_eq!(client.diff_entries(ZERO, "a2"), Ok(vec![group.clone(), post.clone()]));

    let (plan, entries) = client.plan_archive("2025-Q2", "a2", 99).unwrap();
    assert_eq!(entries, vec![group, post]);
    assert_eq!(plan.tag, "2025-Q2");
    assert_eq!(plan.branch, "refs/heads/archive/2025-Q2");
    assert_eq!(
        plan.steps,
        vec![
            ArchiveStep { time: 20, paths: vec!["grp/post.md".to_string()] },
            ArchiveStep { time: 99, paths: vec!["grp/.group.toml".to_string()] },
        ]
    );
    assert!(matches!(client.plan_archive("t", "HEAD", 0), Err(GitError::Git2(_))));
    assert!(matches!(client.diff_entries("a1", "zz"), Err(GitError::Git2(_))));
}

#[test]
fn a_client_refuses_what_is_no_revision() {
    let client = GitClient::new(memory());
    assert!(matches!(client.diff_commits("main", "a2"), Err(GitError::Git2(_))));
    assert!(matches!(client.snapshot("HEAD"), Err(GitError::Git2(_))));
    assert!(matches!(client.snapshot("ffff"), Err(GitError::Git2(_))));
}

#[test]
fn a_refusal_carries_what_the_id_parser_said() {
    let client = GitClient::new(memory());
    let long = "\u{20ac}".repeat(14);
    let cases = [
        ("", "unable to parse OID - too short"),
        ("4b825dc642cb6eb9a060e54bf8d69288fbee49040", "unable to parse OID - too long"),
        ("HEAD4b825dc642cb6eb9a060e54bf8d69288fbee4904", "unable to parse OID - too long"),
        (long.as_str(), "unable to parse OID - too long"),
        ("HEAD", "unable to parse OID - contains invalid characters"),
        ("zz", "unable to parse OID - contains invalid characters"),
        ("4b825dc642cb6eb9a060e54bf8d69288fbee490g", "unable to parse OID - contains invalid characters"),
        ("caf\u{e9}", "unable to parse OID - contains invalid characters"),
        ("\u{20ac}\u{20ac}", "unable to parse OID - contains invalid characters"),
        ("a b", "unable to parse OID - contains invalid characters"),
    ];
    for (bad, words) in cases {
        let said = git2::Oid::from_str(bad).unwrap_err().message().to_string();
        assert_eq!(said, words);
        let refusal = GitError::Git2(words.to_string());
        assert_eq!(client.snapshot(bad), Err(refusal.clone()));
        assert_eq!(client.diff_commits(EMPTY_TREE, bad), Err(refusal.clone()));
        assert_eq!(client.diff_commits(bad, "a1"), Err(refusal.clone()));
        assert_eq!(client.diff_entries("a1", bad), Err(refusal.clone()));
        assert_eq!(resolve_range(bad, "main").err(), Some(refusal.clone()));
        assert_eq!(resolve_range(ZERO, bad).err(), Some(refusal.clone()));
        assert_eq!(client.plan_archive("t", bad, 0).err(), Some(refusal));
    }
    assert_eq!(
        client.diff_commits("main", "").err(),
        Some(GitError::Git2("unable to parse OID - contains invalid characters".to_string()))
    );
}

#[test]
fn a_client_reads_files_as_text() {
    let client = GitClient::new(memory());
    assert_eq!(client.load_file("b1"), Ok("public: true".to_string()));
    assert_eq!(client.load_file("bad"), Err(GitError::NotFound));
    assert_eq!(client.load_file("nope"), Err(GitError::NotFound));
    assert_eq!(client.repo().commits.len(), 2);
}

#[test]
fn an_update_that_went_well_hands_the_client_back() {
    let kept = GitClient::new(memory()).updated(Ok(())).ok().unwrap();
    assert_eq!(kept.repo().commits.len(), 2);
    assert!(matches!(
        GitClient::new(memory()).updated(Err(GitError::NotExist)),
        Err(GitError::NotExist)
    ));
}

#[test]
fn a_fetch_hands_the_client_back() {
    let client = GitClient::new(memory());
    assert!(client.fetch().is_ok());
    let mut cut_off = memory();
    cut_off.reachable = false;
    assert!(matches!(
        GitClient::new(cut_off).fetch(),
        Err(GitError::CommandFailed(_))
    ));
}

const LAST_COMMIT_OID: &str = "4db775450dee399c328935eb03fd4fcc6c60e333";
const FIRST_COMMIT_OID: &str = "1b931e64cd251b0a98d9216b96ba4c51e69c7797";

fn notes() -> Memory {
    Memory {
        commits: vec![
            (
                FIRST_COMMIT_OID.to_string(),
                CommitDelta {
                    timestamp: 1_700_000_000,
                    deltas: vec![delta(DeltaStatus::Added, None, Some("notes/markdown-test.md"), "b1")],
                },
            ),
            (
                LAST_COMMIT_OID.to_string(),
                CommitDelta {
                    timestamp: 1_700_003_600,
                    deltas: vec![delta(DeltaStatus::Added, None, Some("notes/.group.toml"), "b2")],
                },
            ),
        ],
        blobs: Vec::new(),
        reachable: true,
    }
}

#[test]
fn repository_test_diff_commits() {
    let repo = GitClient::new(notes());
    let entries = repo.snapshot(LAST_COMMIT_OID).unwrap();

    let summary = entries.as_summary().unwrap();

    let mut lines = summary.lines();

    assert!(lines.next().unwrap().starts_with("[md]"));
    assert!(lines.next().unwrap().starts_with("[group]"));
    assert!(lines.next().is_none());
}

#[test]
fn test_commit_diff_extracts_entries() {
    let repo = GitClient::new(notes());

    println!("Diff range: {} \u{2192} {}", FIRST_COMMIT_OID, LAST_COMMIT_OID);

    let entries = repo.diff_entries(FIRST_COMMIT_OID, LAST_COMMIT_OID).expect("Failed to diff commits");

    for entry in &entries {
        println!("{}", entry.display().unwrap());
    }

    assert!(!entries.is_empty(), "Expected at least one change in diff");
}

#[test]
fn test_rebuild_all_generates_entry_list() {
    let repo = GitClient::new(notes());

    let entries = repo.diff_entries(ZERO, LAST_COMMIT_OID).expect("Failed to rebuild");

    for entry in &entries {
        println!("{}", entry.display().unwrap());
    }

    assert!(!entries.is_empty(), "Expected rebuild_all to return entries");
}

#[test]
fn test_diff_commit_range() {
    let repo = GitClient::new(notes());

    println!("Diff range: {} \u{2192} {}", FIRST_COMMIT_OID, LAST_COMMIT_OID);

    let entries = repo
        .diff_entries(FIRST_COMMIT_OID, LAST_COMMIT_OID)
        .expect("Failed to diff commit range");

    for entry in &entries {
        if let GitFileEntry::ArticleAdded { timestamp, .. } = entry {
            println!("{} | datetime={}", entry.display().unwrap(), timestamp);
        } else {
            println!("{}", entry.display().unwrap());
        }
    }

    assert!(!entries.is_empty(), "Expected some diff entries between commits");
}

#[test]
fn test_rebuild_all() {
    let repo = GitClient::new(notes());

    let entries = repo.diff_entries(EMPTY_TREE, LAST_COMMIT_OID).expect("Failed to rebuild entries");

    for entry in entries {
        println!("{}", entry.display().unwrap())
    }
}

#[test]
fn test_archive_creates_archive_branch() {
    let repo = GitClient::new(notes());

    let (plan, entries) =
        repo.plan_archive("2025-Q1", LAST_COMMIT_OID, 1_700_007_200).expect("archive failed");
    let branch = plan.branch.clone();

    let mut run = ArchiveRun::new(plan);
    let mut commits: Vec<(usize, Option<String>)> = Vec::new();
    let mut set: Option<String> = None;
    let mut event = RunEvent::Done;
    let ok = loop {
        event = match run.next(event) {
            RunAction::Commit { step, parent } => {
                commits.push((step, parent));
                RunEvent::Committed(format!("c{}", step))
            }
            RunAction::SetBranch { target } => {
                set = Some(target);
                RunEvent::Done
            }
            RunAction::Finish { ok } => break ok,
            _ => RunEvent::Done,
        };
    };
    assert!(ok);
    assert_eq!(commits, vec![(0, None), (1, Some("c0".to_string()))]);
    assert_eq!(set, Some("c1".to_string()));

    let info = ArchivedInfo {
        branch,
        datetime: 1_700_007_200,
        duration_secs: 0,
        duration_nanos: 12_000_000,
        repo_entries: entries,
    };
    let summary = info.summary("0.012").unwrap();
    println!("{}", summary);
    assert!(summary.contains("[branch]    => refs/heads/archive/2025-Q1\n"));
    assert!(summary.contains("[entries]   => 1 files, 1 configs\n"));
}
