//! Naming revisions and objects, and reading what an object holds.

use vstd::prelude::*;
use vstd::string::*;
use vstd::utf8::{decode_utf8, encode_utf8, valid_utf8};
use crate::path::{extension, extension_of, joined, with_extension, with_extension_of};
use crate::text::str_eq;

verus! {

/// What can go wrong with a repository.
#[derive(Debug, Clone, PartialEq, Eq)]
pub enum GitError {
    /// An object is missing, or what it holds is no text.
    NotFound,
    /// There is no repository at the path.
    NotExist,
    /// The repository library refused something; its message.
    Git2(String),
    /// Reading or writing failed; the message.
    IO(String),
    /// A command ended in failure; what it wrote.
    CommandFailed(String),
}

/// What went wrong, as plain values.
pub enum GitErrorView {
    NotFound,
    NotExist,
    Git2(Seq<char>),
    IO(Seq<char>),
    CommandFailed(Seq<char>),
}

impl View for GitError {
    type V = GitErrorView;

    open spec fn view(&self) -> GitErrorView {
        match *self {
            GitError::NotFound => GitErrorView::NotFound,
            GitError::NotExist => GitErrorView::NotExist,
            GitError::Git2(message) => GitErrorView::Git2(message@),
            GitError::IO(message) => GitErrorView::IO(message@),
            GitError::CommandFailed(message) => GitErrorView::CommandFailed(message@),
        }
    }
}

/// The error type of UTF-8 validation.
#[verifier::external_type_specification]
#[verifier::external_body]
pub struct ExUtf8Error(core::str::Utf8Error);

/// Whether `c` is a hexadecimal digit, in either case.
pub open spec fn is_hex_digit(c: char) -> bool {
    ('0' <= c <= '9') || ('a' <= c <= 'f') || ('A' <= c <= 'F')
}

/// The value of a hexadecimal digit.
pub open spec fn hex_value(c: char) -> int {
    if '0' <= c <= '9' {
        c as int - '0' as int
    } else if 'a' <= c <= 'f' {
        c as int - 'a' as int + 10
    } else {
        c as int - 'A' as int + 10
    }
}

/// Whether `text` can name an object: one to forty hexadecimal digits.
pub open spec fn is_object_id(text: Seq<char>) -> bool {
    1 <= text.len() <= 40 && forall|i: int| 0 <= i < text.len() ==> is_hex_digit(#[trigger] text[i])
}

/// Byte `k` of the id that `text` names: two digits to a byte, the earlier
/// one in the high half, and zero where the digits have run out.
pub open spec fn id_byte(text: Seq<char>, k: int) -> int {
    (if 2 * k < text.len() {
        hex_value(text[2 * k]) * 16
    } else {
        0
    }) + (if 2 * k + 1 < text.len() {
        hex_value(text[2 * k + 1])
    } else {
        0
    })
}

/// Whether `text` names the id that is all zero, which stands for "no
/// revision".
pub open spec fn is_zero_id(text: Seq<char>) -> bool {
    is_object_id(text) && forall|i: int| 0 <= i < text.len() ==> #[trigger] text[i] == '0'
}

/// The id of the tree that holds nothing.
pub open spec fn empty_tree_id() -> Seq<char> {
    "4b825dc642cb6eb9a060e54bf8d69288fbee4904"@
}

/// The words with which a text that is no object id is refused: it is
/// empty, or longer than forty bytes, or else holds what is no hexadecimal
/// digit.
pub open spec fn oid_refusal(text: Seq<char>) -> Seq<char> {
    if text.len() == 0 {
        "unable to parse OID - too short"@
    } else if encode_utf8(text).len() > 40 {
        "unable to parse OID - too long"@
    } else {
        "unable to parse OID - contains invalid characters"@
    }
}

/// `git2::Oid::from_str`, with the id handed back as its twenty bytes and a
/// failure as the message of its error. It succeeds exactly on one to forty
/// hexadecimal digits, and packs them two to a byte from the front, the
/// missing ones as zero. What it refuses it refuses in the words of the
/// library underneath, which looks at the length first and then at the
/// digits.
#[verifier::external_body]
fn parse_oid(text: &str) -> (parsed: Result<Vec<u8>, String>)
    ensures
        parsed is Ok <==> is_object_id(text@),
        match parsed {
            Ok(bytes) => bytes@.len() == 20 && forall|k: int|
                0 <= k < 20 ==> #[trigger] bytes@[k] as int == id_byte(text@, k),
            Err(message) => message@ == oid_refusal(text@),
        },
{
    match git2::Oid::from_str(text) {
        Ok(oid) => Ok(oid.as_bytes().to_vec()),
        Err(error) => Err(error.message().to_string()),
    }
}

/// `core::str::from_utf8` succeeds exactly on valid UTF-8, and the text it
/// gives is made of the bytes it was given.
pub assume_specification[ core::str::from_utf8 ](bytes: &[u8]) -> (text: Result<
    &str,
    core::str::Utf8Error,
>)
    ensures
        text is Ok <==> valid_utf8(bytes@),
        match text {
            Ok(t) => t.spec_bytes() == bytes@,
            Err(_) => true,
        },
;

/// The revisions that bound a diff: every commit that `head` reaches and
/// `base` does not, or every commit that `head` reaches where `base` is
/// `None`.
#[derive(Debug, Clone, PartialEq, Eq)]
pub struct DiffRange {
    pub base: Option<String>,
    pub head: String,
}

/// A range as plain values.
pub struct DiffRangeView {
    pub base: Option<Seq<char>>,
    pub head: Seq<char>,
}

impl View for DiffRange {
    type V = DiffRangeView;

    open spec fn view(&self) -> DiffRangeView {
        DiffRangeView { base: crate::diff::text_view(self.base), head: self.head@ }
    }
}

/// The range of a diff from `old` to `new`.
pub open spec fn range_of(old: Seq<char>, new: Seq<char>) -> DiffRangeView {
    DiffRangeView { base: base_of(old), head: new }
}

/// What the two revisions of a diff come to: the range where both are
/// object ids, else the refusal of the first that is none.
pub open spec fn resolved(old: Seq<char>, new: Seq<char>) -> Result<DiffRangeView, GitErrorView> {
    if !is_object_id(old) {
        Err(GitErrorView::Git2(oid_refusal(old)))
    } else if !is_object_id(new) {
        Err(GitErrorView::Git2(oid_refusal(new)))
    } else {
        Ok(range_of(old, new))
    }
}

/// The base that `old` stands for: none where it names the zero id or the
/// empty tree.
pub open spec fn base_of(old: Seq<char>) -> Option<Seq<char>> {
    if is_zero_id(old) || old == empty_tree_id() {
        None
    } else {
        Some(old)
    }
}

/// Byte `k` of an id is zero exactly where the digits it is packed from are.
proof fn lemma_zero_byte(text: Seq<char>, k: int)
    requires
        is_object_id(text),
        0 <= k < 20,
    ensures
        id_byte(text, k) == 0 <==> (2 * k < text.len() ==> text[2 * k] == '0') && (2 * k + 1
            < text.len() ==> text[2 * k + 1] == '0'),
{
    if 2 * k < text.len() {
        assert(is_hex_digit(text[2 * k]));
    }
    if 2 * k + 1 < text.len() {
        assert(is_hex_digit(text[2 * k + 1]));
    }
}

/// Whether the id with these bytes is all zero.
fn all_zero(bytes: &Vec<u8>) -> (yes: bool)
    ensures
        yes == forall|k: int| 0 <= k < bytes@.len() ==> #[trigger] bytes@[k] == 0,
{
    let mut k: usize = 0;
    while k < bytes.len()
        invariant
            k <= bytes.len(),
            forall|j: int| 0 <= j < k ==> #[trigger] bytes@[j] == 0,
        decreases bytes.len() - k,
    {
        if bytes[k] != 0 {
            return false;
        }
        k += 1;
    }
    true
}

/// Checks the two revisions of a diff and says where it starts: from the
/// beginning where `old` is the zero id or the empty tree, else behind `old`.
/// A revision that is no object id is refused, `old` before `new`.
pub fn resolve_range(old: &str, new: &str) -> (range: Result<DiffRange, GitError>)
    ensures
        range is Ok <==> is_object_id(old@) && is_object_id(new@),
        match range {
            Ok(r) => resolved(old@, new@) == Ok::<DiffRangeView, GitErrorView>(r@),
            Err(e) => resolved(old@, new@) == Err::<DiffRangeView, GitErrorView>(e@),
        },
{
    let old_bytes = match parse_oid(old) {
        Ok(bytes) => bytes,
        Err(message) => {
            return Err(GitError::Git2(message));
        },
    };
    match parse_oid(new) {
        Ok(_) => {},
        Err(message) => {
            return Err(GitError::Git2(message));
        },
    }
    let zero = all_zero(&old_bytes);
    proof {
        if zero {
            assert forall|i: int| 0 <= i < old@.len() implies #[trigger] old@[i] == '0' by {
                lemma_zero_byte(old@, i / 2);
                assert(old_bytes@[i / 2] == 0);
            }
        }
        if is_zero_id(old@) {
            assert forall|k: int| 0 <= k < old_bytes@.len() implies #[trigger] old_bytes@[k]
                == 0 by {
                lemma_zero_byte(old@, k);
            }
        }
    }
    let from_start = zero || str_eq(old, "4b825dc642cb6eb9a060e54bf8d69288fbee4904");
    let base = if from_start {
        None
    } else {
        Some(old.to_owned())
    };
    Ok(DiffRange { base, head: new.to_owned() })
}

/// The text that an object holds: its bytes where there is one and they are
/// valid UTF-8, else `NotFound`.
pub fn load_blob(bytes: Option<&[u8]>) -> (text: Result<String, GitError>)
    ensures
        match text {
            Ok(t) => bytes is Some && valid_utf8(bytes->0@) && t@ == decode_utf8(bytes->0@),
            Err(e) => e is NotFound && (bytes is None || !valid_utf8(bytes->0@)),
        },
{
    match bytes {
        Some(raw) => match core::str::from_utf8(raw) {
            Ok(t) => {
                proof {
                    vstd::utf8::encode_utf8_decode_utf8(t@);
                }
                Ok(t.to_owned())
            },
            Err(_) => Err(GitError::NotFound),
        },
        None => Err(GitError::NotFound),
    }
}

/// Where the repositories are kept.
pub struct RepoDir;

/// The directory that holds every repository.
pub open spec fn root_dir() -> Seq<char> {
    "repositories"@
}

/// The name of a repository's directory: `name` itself where its extension
/// is `git`, else `name` with that extension in place of its own.
pub open spec fn git_dir_name(name: Seq<char>) -> Seq<char> {
    if extension(name) == Some("git"@) {
        name
    } else {
        with_extension(name, "git"@)
    }
}

impl RepoDir {
    /// The path of the repository `name` below the root directory.
    pub fn path(name: &str) -> (path: String)
        ensures
            path@ == joined(root_dir(), git_dir_name(name@)),
    {
        let is_git = match extension_of(name) {
            Some(ext) => str_eq(ext.as_str(), "git"),
            None => false,
        };
        let dir = if is_git {
            name.to_owned()
        } else {
            with_extension_of(name, "git")
        };
        crate::path::join("repositories", dir.as_str())
    }
}

/// A bare repository, known by the path it lies at.
#[derive(Debug, Clone, PartialEq, Eq)]
pub struct GitBareRepository(String);

impl View for GitBareRepository {
    type V = Seq<char>;

    closed spec fn view(&self) -> Seq<char> {
        self.0@
    }
}

impl GitBareRepository {
    /// The repository at `path`. Nothing is opened yet.
    pub fn new(path: &str) -> (repo: GitBareRepository)
        ensures
            repo@ == path@,
    {
        GitBareRepository(path.to_owned())
    }

    /// The path the repository lies at.
    pub fn path(&self) -> (path: &str)
        ensures
            path@ == self@,
    {
        self.0.as_str()
    }
}

} // verus!
