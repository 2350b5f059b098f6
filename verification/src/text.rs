//! Small verified operations on text, stated over sequences of characters.

use vstd::prelude::*;
use vstd::string::*;

verus! {

/// Whether `pat` stands in `hay` at position `i`.
pub open spec fn matches_at(hay: Seq<char>, pat: Seq<char>, i: int) -> bool {
    0 <= i && i + pat.len() <= hay.len() && hay.subrange(i, i + pat.len()) == pat
}

/// The first position at or after `i` where `pat` stands in `hay`.
pub open spec fn find_from(hay: Seq<char>, pat: Seq<char>, i: int) -> Option<int>
    decreases hay.len() + 1 - i,
{
    if i < 0 || i + pat.len() > hay.len() {
        None
    } else if matches_at(hay, pat, i) {
        Some(i)
    } else {
        find_from(hay, pat, i + 1)
    }
}

/// Whether `hay` begins with `pat`.
pub open spec fn starts_with(hay: Seq<char>, pat: Seq<char>) -> bool {
    matches_at(hay, pat, 0)
}

/// The position of the last `c` in `s`, or -1 where `s` holds none.
pub open spec fn last_index_of(s: Seq<char>, c: char) -> int
    decreases s.len(),
{
    if s.len() == 0 {
        -1
    } else if s.last() == c {
        s.len() - 1
    } else {
        last_index_of(s.drop_last(), c)
    }
}

/// The characters that count as white space: the code points with the
/// Unicode property `White_Space`.
pub open spec fn is_space(c: char) -> bool {
    let n = c as u32;
    (0x09 <= n <= 0x0d) || n == 0x20 || n == 0x85 || n == 0xa0 || n == 0x1680 || (0x2000 <= n
        <= 0x200a) || n == 0x2028 || n == 0x2029 || n == 0x202f || n == 0x205f || n == 0x3000
}

/// The first position at or after `i` whose character is no white space.
pub open spec fn skip_spaces(s: Seq<char>, i: int) -> int
    decreases s.len() - i,
{
    if 0 <= i < s.len() && is_space(s[i]) {
        skip_spaces(s, i + 1)
    } else {
        i
    }
}

/// The end of `s` once the white space before position `n` is cut away.
pub open spec fn back_spaces(s: Seq<char>, n: int) -> int
    decreases n,
{
    if 0 < n <= s.len() && is_space(s[n - 1]) {
        back_spaces(s, n - 1)
    } else {
        n
    }
}

/// `s` without its leading white space.
pub open spec fn trim_start(s: Seq<char>) -> Seq<char> {
    s.skip(skip_spaces(s, 0))
}

/// `s` without its trailing white space.
pub open spec fn trim_end(s: Seq<char>) -> Seq<char> {
    s.take(back_spaces(s, s.len() as int))
}

/// `s` without the white space at either end.
pub open spec fn trim(s: Seq<char>) -> Seq<char> {
    trim_end(trim_start(s))
}

/// The first position at or after `i` whose character is not `c`.
pub open spec fn skip_char(s: Seq<char>, c: char, i: int) -> int
    decreases s.len() - i,
{
    if 0 <= i < s.len() && s[i] == c {
        skip_char(s, c, i + 1)
    } else {
        i
    }
}

/// The end of `s` once the run of `c` before position `n` is cut away.
pub open spec fn back_char(s: Seq<char>, c: char, n: int) -> int
    decreases n,
{
    if 0 < n <= s.len() && s[n - 1] == c {
        back_char(s, c, n - 1)
    } else {
        n
    }
}

/// `s` without the runs of `c` at either end.
pub open spec fn trim_char(s: Seq<char>, c: char) -> Seq<char> {
    let rest = s.skip(skip_char(s, c, 0));
    rest.take(back_char(rest, c, rest.len() as int))
}

/// The digit character of a value below ten.
pub open spec fn digit(d: nat) -> char {
    if d == 0 {
        '0'
    } else if d == 1 {
        '1'
    } else if d == 2 {
        '2'
    } else if d == 3 {
        '3'
    } else if d == 4 {
        '4'
    } else if d == 5 {
        '5'
    } else if d == 6 {
        '6'
    } else if d == 7 {
        '7'
    } else if d == 8 {
        '8'
    } else {
        '9'
    }
}

/// The decimal numeral of `n`, without leading zeros.
pub open spec fn decimal(n: nat) -> Seq<char>
    decreases n,
{
    if n < 10 {
        seq![digit(n)]
    } else {
        decimal(n / 10).push(digit(n % 10))
    }
}

/// The number of lines of `s`: a line begins at the start of the text and
/// after each line feed, and an empty text has none.
pub open spec fn line_count(s: Seq<char>) -> nat
    decreases s.len(),
{
    if s.len() == 0 {
        0
    } else if s.len() == 1 || s[s.len() - 2] == '\n' {
        line_count(s.drop_last()) + 1
    } else {
        line_count(s.drop_last())
    }
}

/// The characters of `s`, in order.
pub fn chars_of(s: &str) -> (v: Vec<char>)
    ensures
        v@ == s@,
{
    let mut v: Vec<char> = Vec::new();
    for c in it: s.chars()
        invariant
            v@ == it.seq().take(it.index() as int),
            it.seq() == s@,
    {
        v.push(c);
    }
    v
}

/// Whether two vectors hold the same characters.
pub fn chars_eq(a: &Vec<char>, b: &Vec<char>) -> (same: bool)
    ensures
        same == (a@ == b@),
{
    if a.len() != b.len() {
        return false;
    }
    let mut i: usize = 0;
    while i < a.len()
        invariant
            i <= a.len(),
            a.len() == b.len(),
            forall|j: int| 0 <= j < i ==> a@[j] == b@[j],
        decreases a.len() - i,
    {
        if a[i] != b[i] {
            return false;
        }
        i += 1;
    }
    assert(a@ =~= b@);
    true
}

/// Whether two texts hold the same characters.
pub fn str_eq(a: &str, b: &str) -> (same: bool)
    ensures
        same == (a@ == b@),
{
    let x = chars_of(a);
    let y = chars_of(b);
    chars_eq(&x, &y)
}

/// Whether `pat` stands in `hay` at position `i`.
pub(crate) fn matches_at_exec(hay: &Vec<char>, pat: &Vec<char>, i: usize) -> (hit: bool)
    ensures
        hit == matches_at(hay@, pat@, i as int),
{
    if pat.len() > hay.len() || i > hay.len() - pat.len() {
        return false;
    }
    let mut k: usize = 0;
    while k < pat.len()
        invariant
            k <= pat.len(),
            i + pat.len() <= hay.len(),
            forall|j: int| 0 <= j < k ==> hay@[i + j] == pat@[j],
        decreases pat.len() - k,
    {
        if hay[i + k] != pat[k] {
            assert(hay@.subrange(i as int, i + pat.len())[k as int] == hay@[i + k]);
            return false;
        }
        k += 1;
    }
    assert(hay@.subrange(i as int, i + pat.len()) =~= pat@);
    true
}

/// The first position at or after `from` where `pat` stands in `hay`.
pub(crate) fn find_exec(hay: &Vec<char>, pat: &Vec<char>, from: usize) -> (at: Option<usize>)
    ensures
        match at {
            Some(i) => find_from(hay@, pat@, from as int) == Some(i as int),
            None => find_from(hay@, pat@, from as int) is None,
        },
{
    let mut i: usize = from;
    while i <= hay.len() && pat.len() <= hay.len() - i
        invariant
            from <= i,
            find_from(hay@, pat@, from as int) == find_from(hay@, pat@, i as int),
        decreases hay.len() + 1 - i,
    {
        if matches_at_exec(hay, pat, i) {
            return Some(i);
        }
        assert(i < hay.len()) by {
            if pat.len() == 0 {
                assert(hay@.subrange(i as int, i as int) =~= pat@);
            }
        }
        i += 1;
    }
    None
}

/// The position of the last `c` in `s`.
pub(crate) fn rfind_char(s: &Vec<char>, c: char) -> (at: Option<usize>)
    ensures
        match at {
            Some(i) => last_index_of(s@, c) == i && i < s.len(),
            None => last_index_of(s@, c) == -1,
        },
{
    let mut n: usize = s.len();
    assert(s@.take(n as int) =~= s@);
    while n > 0
        invariant
            n <= s.len(),
            last_index_of(s@, c) == last_index_of(s@.take(n as int), c),
        decreases n,
    {
        if s[n - 1] == c {
            return Some(n - 1);
        }
        proof {
            assert(s@.take(n as int).drop_last() =~= s@.take(n - 1));
        }
        n -= 1;
    }
    assert(s@.take(0).len() == 0);
    None
}

/// Whether `c` counts as white space.
pub(crate) fn is_space_exec(c: char) -> (yes: bool)
    ensures
        yes == is_space(c),
{
    let n: u32 = c as u32;
    (0x09 <= n && n <= 0x0d) || n == 0x20 || n == 0x85 || n == 0xa0 || n == 0x1680 || (0x2000 <= n
        && n <= 0x200a) || n == 0x2028 || n == 0x2029 || n == 0x202f || n == 0x205f || n == 0x3000
}

/// The first position at or after `from` whose character is no white space.
pub(crate) fn skip_spaces_exec(s: &Vec<char>, from: usize) -> (at: usize)
    requires
        from <= s.len(),
    ensures
        at == skip_spaces(s@, from as int),
        from <= at <= s.len(),
{
    let mut i: usize = from;
    while i < s.len() && is_space_exec(s[i])
        invariant
            from <= i <= s.len(),
            skip_spaces(s@, from as int) == skip_spaces(s@, i as int),
        decreases s.len() - i,
    {
        i += 1;
    }
    i
}

/// The end of the part of `s` between `from` and `to` once its trailing
/// white space is cut away.
pub(crate) fn back_spaces_exec(s: &Vec<char>, from: usize, to: usize) -> (at: usize)
    requires
        from <= to <= s.len(),
    ensures
        at - from == back_spaces(s@.subrange(from as int, to as int), to - from),
        from <= at <= to,
{
    let ghost part = s@.subrange(from as int, to as int);
    let mut n: usize = to;
    while n > from && is_space_exec(s[n - 1])
        invariant
            from <= n <= to <= s.len(),
            part == s@.subrange(from as int, to as int),
            back_spaces(part, to - from) == back_spaces(part, n - from),
        decreases n,
    {
        n -= 1;
    }
    n
}

/// The first position at or after `from` whose character is not `c`.
pub(crate) fn skip_char_exec(s: &Vec<char>, c: char, from: usize) -> (at: usize)
    requires
        from <= s.len(),
    ensures
        at == skip_char(s@, c, from as int),
        from <= at <= s.len(),
{
    let mut i: usize = from;
    while i < s.len() && s[i] == c
        invariant
            from <= i <= s.len(),
            skip_char(s@, c, from as int) == skip_char(s@, c, i as int),
        decreases s.len() - i,
    {
        i += 1;
    }
    i
}

/// The end of the part of `s` between `from` and `to` once its trailing run
/// of `c` is cut away.
pub(crate) fn back_char_exec(s: &Vec<char>, c: char, from: usize, to: usize) -> (at: usize)
    requires
        from <= to <= s.len(),
    ensures
        at - from == back_char(s@.subrange(from as int, to as int), c, to - from),
        from <= at <= to,
{
    let ghost part = s@.subrange(from as int, to as int);
    let mut n: usize = to;
    while n > from && s[n - 1] == c
        invariant
            from <= n <= to <= s.len(),
            part == s@.subrange(from as int, to as int),
            back_char(part, c, to - from) == back_char(part, c, n - from),
        decreases n,
    {
        n -= 1;
    }
    n
}

/// The part of `s` from position `from` up to `to`, as a text of its own.
pub(crate) fn text_between(s: &str, from: usize, to: usize) -> (part: String)
    requires
        from <= to <= s@.len(),
    ensures
        part@ == s@.subrange(from as int, to as int),
{
    s.substring_char(from, to).to_owned()
}

/// `s` without the runs of `c` at either end.
pub fn trim_char_exec(s: &str, c: char) -> (part: String)
    ensures
        part@ == trim_char(s@, c),
{
    let v = chars_of(s);
    let from = skip_char_exec(&v, c, 0);
    let to = back_char_exec(&v, c, from, v.len());
    proof {
        let rest = s@.skip(from as int);
        assert(rest =~= s@.subrange(from as int, s@.len() as int));
        assert(rest.take(to - from) =~= s@.subrange(from as int, to as int));
    }
    text_between(s, from, to)
}

/// The text of one decimal digit.
pub(crate) fn digit_text(d: usize) -> (t: &'static str)
    requires
        d < 10,
    ensures
        t@ == seq![digit(d as nat)],
{
    proof {
        reveal_strlit("0");
        reveal_strlit("1");
        reveal_strlit("2");
        reveal_strlit("3");
        reveal_strlit("4");
        reveal_strlit("5");
        reveal_strlit("6");
        reveal_strlit("7");
        reveal_strlit("8");
        reveal_strlit("9");
    }
    let t = if d == 0 {
        "0"
    } else if d == 1 {
        "1"
    } else if d == 2 {
        "2"
    } else if d == 3 {
        "3"
    } else if d == 4 {
        "4"
    } else if d == 5 {
        "5"
    } else if d == 6 {
        "6"
    } else if d == 7 {
        "7"
    } else if d == 8 {
        "8"
    } else {
        "9"
    };
    assert(t@ =~= seq![digit(d as nat)]);
    t
}

/// The decimal numeral of `n`.
pub fn decimal_text(n: usize) -> (t: String)
    ensures
        t@ == decimal(n as nat),
    decreases n,
{
    if n < 10 {
        String::from_str(digit_text(n))
    } else {
        let mut t = decimal_text(n / 10);
        t.append(digit_text(n % 10));
        assert(t@ =~= decimal(n as nat));
        t
    }
}

/// The number of lines of `s`.
pub(crate) fn line_count_exec(s: &Vec<char>) -> (n: usize)
    ensures
        n == line_count(s@),
{
    let mut n: usize = 0;
    let mut i: usize = 0;
    while i < s.len()
        invariant
            i <= s.len(),
            n <= i,
            n == line_count(s@.take(i as int)),
        decreases s.len() - i,
    {
        proof {
            let next = s@.take(i + 1);
            assert(next.drop_last() =~= s@.take(i as int));
            assert(next.last() == s@[i as int]);
            if i > 0 {
                assert(next[next.len() - 2] == s@[i - 1]);
            }
        }
        if i == 0 || s[i - 1] == '\n' {
            n += 1;
        }
        i += 1;
    }
    assert(s@.take(s.len() as int) =~= s@);
    n
}

} // verus!
