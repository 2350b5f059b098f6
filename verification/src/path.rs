//! Paths, read component by component.
//!
//! A path is a run of components parted by `/`. Slashes that repeat or end
//! the path part nothing, and a component `.` names nothing unless it begins
//! the path: `a/b`, `a//b`, `a/b/` and `a/b/.` all name `b` in `a`. The last
//! component is the file name, unless it is `..`; what stands before it is
//! the parent.

use vstd::prelude::*;
use vstd::string::*;
use crate::text::{chars_of, last_index_of, text_between};

verus! {

/// Where the first `n` characters of `path` end once what names nothing is
/// cut from their end: trailing slashes, but for a slash that is the root,
/// and trailing components `.`.
pub open spec fn cut_end(path: Seq<char>, n: int) -> int
    decreases n,
{
    if 1 < n <= path.len() && path[n - 1] == '/' {
        cut_end(path, n - 1)
    } else if 2 <= n <= path.len() && path[n - 1] == '.' && path[n - 2] == '/' {
        cut_end(path, n - 1)
    } else {
        n
    }
}

/// `path` without what names nothing at its end.
pub open spec fn trimmed(path: Seq<char>) -> Seq<char> {
    path.take(cut_end(path, path.len() as int))
}

/// Where the last component of `path` begins.
pub open spec fn name_start(path: Seq<char>) -> int {
    last_index_of(trimmed(path), '/') + 1
}

/// The last component of `path`.
pub open spec fn last_component(path: Seq<char>) -> Seq<char> {
    trimmed(path).skip(name_start(path))
}

/// Whether `path` ends in a file name: its last component is there and is
/// neither `.` nor `..`.
pub open spec fn has_file_name(path: Seq<char>) -> bool {
    last_component(path).len() > 0 && last_component(path) != seq!['.'] && last_component(path)
        != seq!['.', '.']
}

/// The file name of `path`, and nothing where it has none.
pub open spec fn file_name(path: Seq<char>) -> Seq<char> {
    if has_file_name(path) {
        last_component(path)
    } else {
        Seq::empty()
    }
}

/// Whether `path` has a parent: it is neither empty nor the root alone.
pub open spec fn has_parent(path: Seq<char>) -> bool {
    trimmed(path).len() > 0 && trimmed(path) != seq!['/']
}

/// Where the parent of `path` ends.
pub open spec fn parent_end(path: Seq<char>) -> int {
    if has_parent(path) && name_start(path) > 0 {
        cut_end(path, name_start(path))
    } else {
        0
    }
}

/// The parent of `path`: what stands before its last component, without
/// what names nothing at its end; nothing where the path has no parent.
pub open spec fn parent(path: Seq<char>) -> Seq<char> {
    path.take(parent_end(path))
}

/// Where the extension of a file name begins: behind its last `.`, unless
/// that dot opens the name or the name has none.
pub open spec fn extension_start(name: Seq<char>) -> Option<int> {
    let dot = last_index_of(name, '.');
    if dot <= 0 {
        None
    } else {
        Some(dot + 1)
    }
}

/// The extension of the file name of `path`, without its dot.
pub open spec fn extension(path: Seq<char>) -> Option<Seq<char>> {
    if has_file_name(path) {
        match extension_start(last_component(path)) {
            Some(at) => Some(last_component(path).skip(at)),
            None => None,
        }
    } else {
        None
    }
}

/// The file name of `path` without its extension, and nothing where the
/// path has no file name.
pub open spec fn file_stem(path: Seq<char>) -> Seq<char> {
    if has_file_name(path) {
        match extension_start(last_component(path)) {
            Some(at) => last_component(path).take(at - 1),
            None => last_component(path),
        }
    } else {
        Seq::empty()
    }
}

/// `dir` and `name` put together as one path: a `name` that begins at the
/// root stands alone, and a `/` comes between the two unless `dir` is empty
/// or ends in one.
pub open spec fn joined(dir: Seq<char>, name: Seq<char>) -> Seq<char> {
    if name.len() > 0 && name[0] == '/' {
        name
    } else if dir.len() == 0 || dir.last() == '/' {
        dir + name
    } else {
        dir + seq!['/'] + name
    }
}

/// `path` with its extension cut off behind the dot, as the first step of
/// giving it another.
pub open spec fn without_extension(path: Seq<char>) -> Seq<char> {
    match extension(path) {
        Some(ext) => path.take(path.len() - ext.len()),
        None => path,
    }
}

/// `path` with the extension `ext` on its file name, and with nothing
/// behind the file name; `path` itself where it has no file name.
pub open spec fn extended(path: Seq<char>, ext: Seq<char>) -> Seq<char> {
    if has_file_name(path) {
        path.take(name_start(path) + file_stem(path).len()) + seq!['.'] + ext
    } else {
        path
    }
}

/// `path` with the extension `ext` in place of its own: the old extension
/// goes first, then the new one is set on what is left.
pub open spec fn with_extension(path: Seq<char>, ext: Seq<char>) -> Seq<char> {
    extended(without_extension(path), ext)
}

/// The positions that part a path: where it ends once what names nothing
/// is cut away, where its last component begins, whether that component is
/// a file name, and where the extension of the file name begins.
pub(crate) struct Split {
    pub(crate) end: usize,
    pub(crate) name_at: usize,
    pub(crate) named: bool,
    pub(crate) ext_at: Option<usize>,
}

/// Where the first `from` characters of `path` end once what names nothing
/// is cut from their end.
pub(crate) fn cut(path: &Vec<char>, from: usize) -> (end: usize)
    requires
        from <= path.len(),
    ensures
        end == cut_end(path@, from as int),
        end <= from,
{
    let mut end: usize = from;
    while (end > 1 && path[end - 1] == '/') || (end >= 2 && path[end - 1] == '.' && path[end - 2]
        == '/')
        invariant
            end <= from <= path.len(),
            cut_end(path@, from as int) == cut_end(path@, end as int),
        decreases end,
    {
        end -= 1;
    }
    end
}

/// Parts `path` into parent, file name and extension.
pub(crate) fn split(path: &Vec<char>) -> (at: Split)
    ensures
        at.end == cut_end(path@, path.len() as int),
        at.name_at == name_start(path@),
        at.name_at <= at.end <= path.len(),
        at.named == has_file_name(path@),
        at.named ==> at.name_at < at.end,
        match at.ext_at {
            Some(e) => at.named && extension_start(last_component(path@)) == Some(e - at.name_at)
                && at.name_at < e <= at.end,
            None => !at.named || extension_start(last_component(path@)) is None,
        },
{
    let end = cut(path, path.len());
    let ghost whole = path@.take(end as int);
    let mut name_at: usize = end;
    assert(whole.take(end as int) =~= whole);
    while name_at > 0 && path[name_at - 1] != '/'
        invariant
            name_at <= end <= path.len(),
            whole == path@.take(end as int),
            last_index_of(whole, '/') == last_index_of(whole.take(name_at as int), '/'),
        decreases name_at,
    {
        proof {
            assert(whole.take(name_at as int).drop_last() =~= whole.take(name_at - 1));
        }
        name_at -= 1;
    }
    proof {
        if name_at == 0 {
            assert(whole.take(0).len() == 0);
        } else {
            assert(whole.take(name_at as int).last() == '/');
        }
    }
    let ghost name = last_component(path@);
    assert(name =~= path@.subrange(name_at as int, end as int));
    let size = end - name_at;
    let one_dot = size == 1 && path[name_at] == '.';
    let two_dots = size == 2 && path[name_at] == '.' && path[name_at + 1] == '.';
    proof {
        if one_dot {
            assert(name =~= seq!['.']);
        }
        if name == seq!['.'] {
            assert(name.len() == 1 && name[0] == '.');
        }
        if two_dots {
            assert(name =~= seq!['.', '.']);
        }
        if name == seq!['.', '.'] {
            assert(name.len() == 2 && name[0] == '.' && name[1] == '.');
        }
    }
    let named = size > 0 && !one_dot && !two_dots;
    let mut dot: Option<usize> = None;
    let mut n: usize = end;
    assert(name.take(n - name_at) =~= name);
    while n > name_at
        invariant_except_break
            dot is None,
            last_index_of(name, '.') == last_index_of(name.take(n - name_at), '.'),
        invariant
            name_at <= n <= end <= path.len(),
            name == path@.subrange(name_at as int, end as int),
        ensures
            name_at <= n <= end,
            match dot {
                Some(d) => name_at <= d < end && d - name_at == last_index_of(name, '.'),
                None => last_index_of(name, '.') == -1,
            },
        decreases n,
    {
        if path[n - 1] == '.' {
            dot = Some(n - 1);
            break;
        }
        proof {
            assert(name.take(n - name_at).drop_last() =~= name.take(n - 1 - name_at));
        }
        n -= 1;
    }
    let ext_at: Option<usize> = match dot {
        Some(d) => {
            if named && d > name_at {
                Some(d + 1)
            } else {
                None
            }
        },
        None => None,
    };
    Split { end, name_at, named, ext_at }
}

/// The last `c` of `s` stands inside `s`, and nothing equal follows it.
pub proof fn lemma_last_index_bounds(s: Seq<char>, c: char)
    ensures
        -1 <= last_index_of(s, c) < s.len(),
        last_index_of(s, c) >= 0 ==> s[last_index_of(s, c)] == c,
        forall|j: int| last_index_of(s, c) < j < s.len() ==> s[j] != c,
    decreases s.len(),
{
    if s.len() > 0 && s.last() != c {
        lemma_last_index_bounds(s.drop_last(), c);
        assert forall|j: int| last_index_of(s, c) < j < s.len() implies s[j] != c by {
            if j < s.len() - 1 {
                assert(s.drop_last()[j] == s[j]);
            }
        }
    }
}

/// What is cut from the end of a path is never more than the path.
pub proof fn lemma_cut_end_bounds(path: Seq<char>, n: int)
    requires
        0 <= n <= path.len(),
    ensures
        0 <= cut_end(path, n) <= n,
        n > 0 ==> cut_end(path, n) > 0,
    decreases n,
{
    if 1 < n && path[n - 1] == '/' {
        lemma_cut_end_bounds(path, n - 1);
    } else if 2 <= n && path[n - 1] == '.' && path[n - 2] == '/' {
        lemma_cut_end_bounds(path, n - 1);
    }
}

/// Whether `path` ends in a file name.
pub fn has_file_name_of(path: &str) -> (yes: bool)
    ensures
        yes == has_file_name(path@),
{
    let v = chars_of(path);
    split(&v).named
}

/// The file name of `path`, and nothing where it has none.
pub fn file_name_of(path: &str) -> (name: String)
    ensures
        name@ == file_name(path@),
{
    let v = chars_of(path);
    let at = split(&v);
    if at.named {
        proof {
            assert(last_component(path@) =~= path@.subrange(at.name_at as int, at.end as int));
        }
        text_between(path, at.name_at, at.end)
    } else {
        String::new()
    }
}

/// Whether `path` has a parent.
pub fn has_parent_of(path: &str) -> (yes: bool)
    ensures
        yes == has_parent(path@),
{
    let v = chars_of(path);
    let end = cut(&v, v.len());
    proof {
        let whole = trimmed(path@);
        if end == 1 && v[0] == '/' {
            assert(whole =~= seq!['/']);
        }
        if whole == seq!['/'] {
            assert(whole.len() == 1 && whole[0] == '/');
        }
    }
    end > 0 && !(end == 1 && v[0] == '/')
}

/// The parent of `path`, and nothing where it has none.
pub fn parent_of(path: &str) -> (dir: String)
    ensures
        dir@ == parent(path@),
{
    let v = chars_of(path);
    let at = split(&v);
    proof {
        let whole = trimmed(path@);
        if at.end == 1 && v[0] == '/' {
            assert(whole =~= seq!['/']);
        }
        if whole == seq!['/'] {
            assert(whole.len() == 1 && whole[0] == '/');
        }
    }
    let with_parent = at.end > 0 && !(at.end == 1 && v[0] == '/');
    if with_parent && at.name_at > 0 {
        let end = cut(&v, at.name_at);
        proof {
            assert(path@.take(end as int) =~= path@.subrange(0, end as int));
        }
        text_between(path, 0, end)
    } else {
        proof {
            assert(path@.take(0) =~= Seq::<char>::empty());
        }
        String::new()
    }
}

/// The extension of the file name of `path`.
pub fn extension_of(path: &str) -> (ext: Option<String>)
    ensures
        match ext {
            Some(e) => extension(path@) == Some(e@),
            None => extension(path@) is None,
        },
{
    let v = chars_of(path);
    let at = split(&v);
    match at.ext_at {
        Some(e) => {
            proof {
                let name = last_component(path@);
                assert(name =~= path@.subrange(at.name_at as int, at.end as int));
                assert(name.skip(e - at.name_at) =~= path@.subrange(e as int, at.end as int));
            }
            Some(text_between(path, e, at.end))
        },
        None => None,
    }
}

/// The file name of `path` without its extension.
pub fn file_stem_of(path: &str) -> (stem: String)
    ensures
        stem@ == file_stem(path@),
{
    let v = chars_of(path);
    let at = split(&v);
    if !at.named {
        return String::new();
    }
    let end: usize = match at.ext_at {
        Some(e) => e - 1,
        None => at.end,
    };
    proof {
        let name = last_component(path@);
        assert(name =~= path@.subrange(at.name_at as int, at.end as int));
        assert(name.take(end - at.name_at) =~= path@.subrange(at.name_at as int, end as int));
    }
    text_between(path, at.name_at, end)
}

/// `dir` and `name` put together as one path.
pub fn join(dir: &str, name: &str) -> (path: String)
    ensures
        path@ == joined(dir@, name@),
{
    let d = chars_of(dir);
    let n = chars_of(name);
    if n.len() > 0 && n[0] == '/' {
        name.to_owned()
    } else {
        let mut path = dir.to_owned();
        if d.len() > 0 && d[d.len() - 1] != '/' {
            proof {
                reveal_strlit("/");
                assert("/"@ =~= seq!['/']);
            }
            path.append("/");
        }
        path.append(name);
        path
    }
}

/// `path` with the extension `ext` on its file name.
fn set_extension(path: &str, ext: &str) -> (set: String)
    ensures
        set@ == extended(path@, ext@),
{
    let v = chars_of(path);
    let at = split(&v);
    if !at.named {
        return path.to_owned();
    }
    let end: usize = match at.ext_at {
        Some(e) => e - 1,
        None => at.end,
    };
    proof {
        let name = last_component(path@);
        assert(name =~= path@.subrange(at.name_at as int, at.end as int));
        assert(file_stem(path@).len() == end - at.name_at);
        assert(path@.take(end as int) =~= path@.subrange(0, end as int));
        reveal_strlit(".");
        assert("."@ =~= seq!['.']);
    }
    let mut set = text_between(path, 0, end);
    set.append(".");
    set.append(ext);
    set
}

/// `path` with the extension `ext` in place of its own.
pub fn with_extension_of(path: &str, ext: &str) -> (changed: String)
    ensures
        changed@ == with_extension(path@, ext@),
{
    let v = chars_of(path);
    let at = split(&v);
    match at.ext_at {
        Some(e) => {
            proof {
                let name = last_component(path@);
                assert(name =~= path@.subrange(at.name_at as int, at.end as int));
                assert(name.skip(e - at.name_at).len() == at.end - e);
                assert(path@.take(path@.len() - (at.end - e)) =~= path@.subrange(
                    0,
                    path@.len() - (at.end - e),
                ));
            }
            let cut_off = text_between(path, 0, v.len() - (at.end - e));
            set_extension(cut_off.as_str(), ext)
        },
        None => set_extension(path, ext),
    }
}

/// Whether `path` is written as a tree writes the path of a file: below
/// the root, without a slash at its end, without an empty component or a
/// component `.`, and with a last component that is neither `.` nor `..`.
pub open spec fn is_tree_path(path: Seq<char>) -> bool {
    &&& path.len() > 0
    &&& path[0] != '/'
    &&& path.last() != '/'
    &&& forall|k: int|
        0 < k < path.len() && #[trigger] path[k] == '/' ==> path[k - 1] != '/' && !(path[k - 1]
            == '.' && (k == 1 || path[k - 2] == '/'))
    &&& path.skip(last_index_of(path, '/') + 1) != seq!['.']
    &&& path.skip(last_index_of(path, '/') + 1) != seq!['.', '.']
}

/// A path that is written as a tree writes it is read as it stands: its
/// file name is what follows its last slash, and its parent is what stands
/// before that slash.
pub proof fn lemma_tree_paths_read_as_they_stand(path: Seq<char>)
    requires
        is_tree_path(path),
    ensures
        has_file_name(path),
        has_parent(path),
        file_name(path) == path.skip(last_index_of(path, '/') + 1),
        parent(path) == (if last_index_of(path, '/') < 0 {
            Seq::<char>::empty()
        } else {
            path.take(last_index_of(path, '/'))
        }),
{
    let n = path.len() as int;
    let i = last_index_of(path, '/');
    lemma_last_index_bounds(path, '/');
    let tail = path.skip(i + 1);
    assert(cut_end(path, n) == n) by {
        if n >= 2 && path[n - 1] == '.' && path[n - 2] == '/' {
            assert(i == n - 2);
            assert(tail =~= seq!['.']);
        }
    }
    assert(trimmed(path) =~= path);
    assert(i < n - 1);
    assert(tail.len() > 0);
    assert(trimmed(path) != seq!['/']) by {
        assert(trimmed(path)[0] != '/');
    }
    if i >= 0 {
        assert(path[i] == '/');
        assert(i >= 1);
        assert(cut_end(path, i + 1) == cut_end(path, i));
        assert(cut_end(path, i) == i);
    } else {
        assert(path.take(0) =~= Seq::<char>::empty());
    }
}

} // verus!
