use gitnote::content::{ArticleBuilder, Group};
use gitnote::kind::{is_markdown_file, FileKind};
use gitnote::path::{
    extension_of, file_name_of, file_stem_of, has_file_name_of, has_parent_of, join, parent_of,
    with_extension_of,
};
use gitnote::repo::RepoDir;
use gitnote::text::{chars_of, decimal_text, str_eq};
use std::path::Path;

fn small(alphabet: &[char], longest: usize) -> Vec<String> {
    let mut all = vec![String::new()];
    let mut last = vec![String::new()];
    for _ in 0..longest {
        let mut next = Vec::new();
        for s in &last {
            for c in alphabet {
                let mut t = s.clone();
                t.push(*c);
                next.push(t);
            }
        }
        all.extend(next.iter().cloned());
        last = next;
    }
    all
}

fn battery() -> Vec<String> {
    let mut all = small(&['a', '.', '/'], 6);
    for head in small(&['a', '.', '/'], 4) {
        for name in [".group.toml", "b.md", "x.markdown", "c", ".md", "b.git", "d.tar.gz", "e."] {
            for tail in ["", "/", "/.", "//", "/..", "/./", "/a"] {
                all.push(format!("{}{}{}", head, name, tail));
            }
        }
    }
    all
}

fn text<T: AsRef<Path>>(part: Option<T>) -> String {
    part.map(|s| s.as_ref().to_string_lossy().into_owned()).unwrap_or_default()
}

#[test]
fn paths_are_read_as_the_standard_library_reads_them() {
    for p in battery() {
        let path = Path::new(&p);
        assert_eq!(has_file_name_of(&p), path.file_name().is_some(), "file name of {:?}", p);
        assert_eq!(file_name_of(&p), text(path.file_name()), "file name of {:?}", p);
        assert_eq!(has_parent_of(&p), path.parent().is_some(), "parent of {:?}", p);
        assert_eq!(
            parent_of(&p),
            path.parent().map(|d| d.to_string_lossy().into_owned()).unwrap_or_default(),
            "parent of {:?}",
            p
        );
        assert_eq!(
            extension_of(&p),
            path.extension().map(|e| e.to_string_lossy().into_owned()),
            "extension of {:?}",
            p
        );
        assert_eq!(file_stem_of(&p), text(path.file_stem()), "stem of {:?}", p);
        assert_eq!(
            with_extension_of(&p, "git"),
            path.with_extension("git").to_string_lossy(),
            "with extension of {:?}",
            p
        );
    }
}

#[test]
fn paths_are_joined_as_the_standard_library_joins_them() {
    let parts = small(&['a', '.', '/'], 3);
    for dir in &parts {
        for name in &parts {
            assert_eq!(
                join(dir, name),
                Path::new(dir).join(name).to_string_lossy(),
                "{:?} joined with {:?}",
                dir,
                name
            );
        }
    }
}

fn kind_by_the_standard_library(p: &str) -> FileKind {
    let path = Path::new(p);
    if path.file_name().and_then(|n| n.to_str()) == Some(".group.toml") {
        return FileKind::Group;
    }
    match path.extension().and_then(|e| e.to_str()) {
        Some("md") | Some("markdown") => FileKind::Markdown,
        _ => FileKind::Other,
    }
}

#[test]
fn files_are_classified_as_the_standard_library_reads_their_paths() {
    for p in battery() {
        assert_eq!(FileKind::from_path(&p), kind_by_the_standard_library(&p), "kind of {:?}", p);
        assert_eq!(
            is_markdown_file(&p),
            matches!(
                Path::new(&p).extension().and_then(|e| e.to_str()),
                Some("md") | Some("markdown")
            ),
            "markdown {:?}",
            p
        );
    }
    assert_eq!(FileKind::from_path("a/.group.toml/"), FileKind::Group);
    assert_eq!(FileKind::from_path("a/.group.toml/."), FileKind::Group);
    assert_eq!(FileKind::from_path("a/b.md//"), FileKind::Markdown);
    assert_eq!(FileKind::from_path("a/b.md/.."), FileKind::Other);
}

#[test]
fn articles_and_groups_are_named_as_the_standard_library_reads_their_paths() {
    for p in battery() {
        let path = Path::new(&p);
        let builder = ArticleBuilder::new(&p);
        assert_eq!(
            builder.group(),
            path.parent()
                .map(|d| d.to_string_lossy().trim_matches('/').to_string())
                .unwrap_or_default(),
            "group of {:?}",
            p
        );
        assert_eq!(builder.slug(), text(path.file_stem()), "slug of {:?}", p);
        let dir = path.parent().unwrap_or(path);
        assert_eq!(
            Group::empty(&p).id,
            dir.to_string_lossy().trim_matches('/').to_string(),
            "group id of {:?}",
            p
        );
        if let Some(name) = dir.file_name() {
            let group = Group::new(&p, String::new(), false, None);
            assert_eq!(group.name, name.to_string_lossy(), "group name of {:?}", p);
            assert_eq!(group.id, Group::empty(&p).id);
        }
    }
}

fn repository_by_the_standard_library(name: &str) -> String {
    let path = Path::new(name);
    let final_name = if path.extension().and_then(|ext| ext.to_str()) == Some("git") {
        path.to_path_buf()
    } else {
        path.with_extension("git")
    };
    Path::new("repositories").join(final_name).to_string_lossy().into_owned()
}

#[test]
fn repository_paths_end_in_git() {
    assert_eq!(RepoDir::path("gitnote"), "repositories/gitnote.git");
    assert_eq!(RepoDir::path("gitnote.git"), "repositories/gitnote.git");
    assert_eq!(RepoDir::path("notes.v1"), "repositories/notes.git");
    assert_eq!(RepoDir::path("team/notes"), "repositories/team/notes.git");
    assert_eq!(RepoDir::path("team/notes/"), "repositories/team/notes.git");
    for p in battery() {
        assert_eq!(RepoDir::path(&p), repository_by_the_standard_library(&p), "repository {:?}", p);
    }
}

#[test]
fn the_parts_of_a_plain_path() {
    assert_eq!(file_name_of("a/b/c.md"), "c.md");
    assert_eq!(parent_of("a/b/c.md"), "a/b");
    assert_eq!(extension_of("a/b.tar.gz"), Some("gz".to_string()));
    assert_eq!(extension_of(".group.toml"), Some("toml".to_string()));
    assert_eq!(extension_of(".hidden"), None);
    assert_eq!(file_stem_of("group-a/test-article.md"), "test-article");
    assert_eq!(join("a/b", ".group.toml"), "a/b/.group.toml");
    assert_eq!(join("", "b.md"), "b.md");
}

#[test]
fn texts_compare_by_their_characters() {
    assert!(str_eq("abc", "abc"));
    assert!(!str_eq("abc", "abd"));
    assert!(!str_eq("abc", "ab"));
    assert!(str_eq("", ""));
    assert_eq!(chars_of("h\u{e9}llo"), vec!['h', '\u{e9}', 'l', 'l', 'o']);
}

#[test]
fn numerals_have_no_leading_zeros() {
    assert_eq!(decimal_text(0), "0");
    assert_eq!(decimal_text(7), "7");
    assert_eq!(decimal_text(10), "10");
    assert_eq!(decimal_text(1234567890), "1234567890");
}
