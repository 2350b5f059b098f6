//! Cancelling each removal against the addition it undoes.
//!
//! Over a whole history a path may be added and removed many times. Where
//! only the final state counts, every removal is matched with the most recent
//! addition of the same file that is still pending, and both leave the list.

use vstd::prelude::*;
use vstd::hash_map::StringHashMap;
use vstd::string::StringExecFns;
use crate::entry::{EntryKey, EntryView, GitFileEntry};

verus! {

/// The additions of `key` among the first `n` entries that no later removal
/// among them has cancelled: their positions, oldest first. An addition
/// joins at the end, and a removal of the same key takes the last one away.
pub open spec fn pending(entries: Seq<EntryView>, key: EntryKey, n: int) -> Seq<int>
    decreases n,
{
    if n <= 0 {
        Seq::empty()
    } else {
        let before = pending(entries, key, n - 1);
        let entry = entries[n - 1];
        if entry.key() != key {
            before
        } else if entry.is_add() {
            before.push(n - 1)
        } else if before.len() > 0 {
            before.drop_last()
        } else {
            before
        }
    }
}

/// Whether the entry at `i` is a removal that finds an addition to cancel.
pub open spec fn cancels(entries: Seq<EntryView>, i: int) -> bool {
    !entries[i].is_add() && pending(entries, entries[i].key(), i).len() > 0
}

/// The addition that the removal at `i` cancels: the most recent pending one.
pub open spec fn partner(entries: Seq<EntryView>, i: int) -> int {
    pending(entries, entries[i].key(), i).last()
}

/// For each entry, whether it is still kept once the first `n` entries have
/// been looked at: a removal that cancels drops itself and its partner.
pub open spec fn kept(entries: Seq<EntryView>, n: int) -> Seq<bool>
    decreases n,
{
    if n <= 0 {
        Seq::new(entries.len(), |i: int| true)
    } else if cancels(entries, n - 1) {
        kept(entries, n - 1).update(partner(entries, n - 1), false).update(n - 1, false)
    } else {
        kept(entries, n - 1)
    }
}

/// Those of the first `n` entries whose flag in `keep` is set, in order.
pub open spec fn select<T>(entries: Seq<T>, keep: Seq<bool>, n: int) -> Seq<T>
    decreases n,
{
    if n <= 0 {
        Seq::empty()
    } else if keep[n - 1] {
        select(entries, keep, n - 1).push(entries[n - 1])
    } else {
        select(entries, keep, n - 1)
    }
}

/// The entries that are left once every removal has cancelled the most
/// recent pending addition of the same file, in their first order.
pub open spec fn stripped(entries: Seq<EntryView>) -> Seq<EntryView> {
    select(entries, kept(entries, entries.len() as int), entries.len() as int)
}

/// The key under which the walk files the pending additions of an article:
/// one stroke for each character of the group, a colon, the group, and the
/// name. No two articles share it.
spec fn article_key(group: Seq<char>, name: Seq<char>) -> Seq<char> {
    Seq::new(group.len(), |i: int| '|') + seq![':'] + group + name
}

/// The positions that a stack holds.
spec fn positions(stack: Vec<usize>) -> Seq<int> {
    Seq::new(stack@.len(), |t: int| stack@[t] as int)
}

/// Whether one of the stacks is that of `key`.
spec fn has_stack(owners: Seq<EntryKey>, key: EntryKey) -> bool {
    exists|m: int| 0 <= m < owners.len() && #[trigger] owners[m] == key
}

/// What the walk knows once the first `n` entries have been looked at: each
/// stack holds the pending additions of its owner, no key owns two stacks,
/// and a key without a stack has nothing pending.
spec fn walk_inv(
    entries: Seq<EntryView>,
    owners: Seq<EntryKey>,
    stacks: Seq<Vec<usize>>,
    n: int,
) -> bool {
    &&& owners.len() == stacks.len()
    &&& forall|m: int|
        0 <= m < stacks.len() ==> positions(#[trigger] stacks[m]) == pending(entries, owners[m], n)
    &&& forall|a: int, b: int|
        0 <= a < b < owners.len() ==> #[trigger] owners[a] != #[trigger] owners[b]
    &&& forall|key: EntryKey|
        !has_stack(owners, key) ==> (#[trigger] pending(entries, key, n)).len() == 0
}

/// Whether the maps know the stack of `key`.
spec fn is_filed(
    key: EntryKey,
    groups: Map<Seq<char>, usize>,
    articles: Map<Seq<char>, usize>,
) -> bool {
    match key {
        EntryKey::Group { group } => groups.contains_key(group),
        EntryKey::Article { group, name } => articles.contains_key(article_key(group, name)),
    }
}

/// The maps lead from every key that owns a stack to that stack, and to
/// nothing else.
spec fn index_inv(
    owners: Seq<EntryKey>,
    groups: Map<Seq<char>, usize>,
    articles: Map<Seq<char>, usize>,
) -> bool {
    &&& forall|group: Seq<char>| #[trigger]
        groups.contains_key(group) ==> groups[group] < owners.len() && owners[groups[group] as int]
            == (EntryKey::Group { group })
    &&& forall|group: Seq<char>, name: Seq<char>| #[trigger]
        articles.contains_key(article_key(group, name)) ==> articles[article_key(group, name)]
            < owners.len() && owners[articles[article_key(group, name)] as int]
            == (EntryKey::Article { group, name })
    &&& forall|m: int| 0 <= m < owners.len() ==> is_filed(#[trigger] owners[m], groups, articles)
}

/// Two articles with one key are one article.
proof fn lemma_article_keys_differ(
    group: Seq<char>,
    name: Seq<char>,
    other_group: Seq<char>,
    other_name: Seq<char>,
)
    requires
        article_key(group, name) == article_key(other_group, other_name),
    ensures
        group == other_group,
        name == other_name,
{
    let key = article_key(group, name);
    let other = article_key(other_group, other_name);
    let len = group.len() as int;
    let other_len = other_group.len() as int;
    assert(key.len() == 2 * len + 1 + name.len());
    assert(other.len() == 2 * other_len + 1 + other_name.len());
    if len < other_len {
        assert(key[len] == ':');
        assert(other[len] == '|');
    } else if other_len < len {
        assert(other[other_len] == ':');
        assert(key[other_len] == '|');
    }
    assert(len == other_len);
    assert forall|i: int| 0 <= i < len implies group[i] == other_group[i] by {
        assert(key[len + 1 + i] == group[i]);
        assert(other[len + 1 + i] == other_group[i]);
    }
    assert(group =~= other_group);
    assert forall|i: int| 0 <= i < name.len() implies name[i] == other_name[i] by {
        assert(key[2 * len + 1 + i] == name[i]);
        assert(other[2 * len + 1 + i] == other_name[i]);
    }
    assert(name =~= other_name);
}

/// Pending additions lie among the entries looked at so far, and each is an
/// addition of the key it is pending for.
pub proof fn lemma_pending_bounds(entries: Seq<EntryView>, key: EntryKey, n: int)
    requires
        0 <= n <= entries.len(),
    ensures
        forall|t: int|
            0 <= t < pending(entries, key, n).len() ==> {
                let at = #[trigger] pending(entries, key, n)[t];
                0 <= at < n && entries[at].is_add() && entries[at].key() == key
            },
    decreases n,
{
    if n > 0 {
        lemma_pending_bounds(entries, key, n - 1);
        let now = pending(entries, key, n);
        let before = pending(entries, key, n - 1);
        assert forall|t: int| 0 <= t < now.len() implies {
            let at = #[trigger] now[t];
            0 <= at < n && entries[at].is_add() && entries[at].key() == key
        } by {
            if t < before.len() {
                assert(now[t] == before[t]);
            }
        }
    }
}

/// The flags cover every entry.
pub proof fn lemma_kept_len(entries: Seq<EntryView>, n: int)
    requires
        0 <= n <= entries.len(),
    ensures
        kept(entries, n).len() == entries.len(),
    decreases n,
{
    if n > 0 {
        lemma_kept_len(entries, n - 1);
        if cancels(entries, n - 1) {
            lemma_pending_bounds(entries, entries[n - 1].key(), n - 1);
        }
    }
}

/// The parts of an entry's key: whether it is an article, its group, and
/// its name (empty for a group).
fn key_parts(entry: &GitFileEntry) -> (parts: (bool, &str, &str))
    ensures
        entry@.key() == key_of(parts.0, parts.1@, parts.2@),
{
    match entry {
        GitFileEntry::GroupAdded { group, .. } => (false, group.as_str(), ""),
        GitFileEntry::GroupRemoved { group } => (false, group.as_str(), ""),
        GitFileEntry::ArticleAdded { group, name, .. } => (true, group.as_str(), name.as_str()),
        GitFileEntry::ArticleRemoved { group, name } => (true, group.as_str(), name.as_str()),
    }
}

/// The key of the entry whose parts these are.
spec fn key_of(article: bool, group: Seq<char>, name: Seq<char>) -> EntryKey {
    if article {
        EntryKey::Article { group, name }
    } else {
        EntryKey::Group { group }
    }
}

/// The key under which the pending additions of an article are filed.
fn article_key_of(group: &str, name: &str) -> (key: String)
    ensures
        key@ == article_key(group@, name@),
{
    let len = group.unicode_len();
    let mut key = String::from_str("");
    proof {
        reveal_strlit("");
        reveal_strlit("|");
        reveal_strlit(":");
    }
    let mut i: usize = 0;
    while i < len
        invariant
            i <= len,
            len == group@.len(),
            "|"@ == seq!['|'],
            key@ == Seq::new(i as nat, |t: int| '|'),
        decreases len - i,
    {
        key.append("|");
        i += 1;
        assert(key@ =~= Seq::new(i as nat, |t: int| '|'));
    }
    key.append(":");
    key.append(group);
    key.append(name);
    assert(key@ =~= article_key(group@, name@));
    key
}

/// Where the stack of a key stands.
fn find_stack(
    groups: &StringHashMap<usize>,
    articles: &StringHashMap<usize>,
    Ghost(owners): Ghost<Seq<EntryKey>>,
    article: bool,
    group: &str,
    name: &str,
) -> (at: Option<usize>)
    requires
        index_inv(owners, groups@, articles@),
    ensures
        match at {
            Some(m) => m < owners.len() && owners[m as int] == key_of(article, group@, name@),
            None => !has_stack(owners, key_of(article, group@, name@)),
        },
{
    let at = if article {
        let key = article_key_of(group, name);
        match articles.get(key.as_str()) {
            Some(m) => Some(*m),
            None => None,
        }
    } else {
        match groups.get(group) {
            Some(m) => Some(*m),
            None => None,
        }
    };
    proof {
        if at is None {
            assert forall|m: int| 0 <= m < owners.len() implies #[trigger] owners[m] != key_of(
                article,
                group@,
                name@,
            ) by {
                assert(is_filed(owners[m], groups@, articles@));
            }
        }
    }
    at
}

/// Takes out of `entries` every removal together with the most recent
/// addition of the same file that no earlier removal has cancelled; what is
/// left keeps its order.
pub fn strip_add_then_remove(entries: Vec<GitFileEntry>) -> (rest: Vec<GitFileEntry>)
    ensures
        rest.deep_view() == stripped(entries.deep_view()),
{
    let ghost views = entries.deep_view();
    let n = entries.len();
    let mut keep: Vec<bool> = Vec::new();
    let mut f: usize = 0;
    while f < n
        invariant
            f <= n,
            keep@.len() == f,
            forall|j: int| 0 <= j < f ==> keep@[j],
        decreases n - f,
    {
        keep.push(true);
        f += 1;
    }
    assert(keep@ =~= kept(views, 0));

    let mut stacks: Vec<Vec<usize>> = Vec::new();
    let mut groups: StringHashMap<usize> = StringHashMap::new();
    let mut articles: StringHashMap<usize> = StringHashMap::new();
    let ghost mut owners: Seq<EntryKey> = Seq::empty();
    let mut i: usize = 0;
    while i < n
        invariant
            i <= n,
            n == entries.len(),
            views == entries.deep_view(),
            keep@ == kept(views, i as int),
            keep@.len() == n,
            walk_inv(views, owners, stacks@, i as int),
            index_inv(owners, groups@, articles@),
        decreases n - i,
    {
        let entry = &entries[i];
        assert(views[i as int] == entry@);
        let (article, group, name) = key_parts(entry);
        let ghost key = entry@.key();
        let ghost old_owners = owners;
        let ghost old_stacks = stacks@;
        let ghost old_groups = groups@;
        let ghost old_articles = articles@;
        let found = find_stack(&groups, &articles, Ghost(owners), article, group, name);
        if entry.is_add() {
            match found {
                Some(m) => {
                    stacks[m].push(i);
                    assert(positions(stacks@[m as int]) =~= positions(old_stacks[m as int]).push(
                        i as int,
                    ));
                },
                None => {
                    let mut first: Vec<usize> = Vec::new();
                    first.push(i);
                    assert(pending(views, key, i as int).len() == 0);
                    assert(positions(first) =~= pending(views, key, i as int).push(i as int));
                    let m = stacks.len();
                    stacks.push(first);
                    if article {
                        articles.insert(article_key_of(group, name), m);
                    } else {
                        groups.insert(group.to_owned(), m);
                    }
                    proof {
                        owners = old_owners.push(key);
                        assert forall|g: Seq<char>, f: Seq<char>| #[trigger]
                            articles@.contains_key(article_key(g, f)) implies articles@[article_key(
                                g,
                                f,
                            )] < owners.len() && owners[articles@[article_key(g, f)] as int] == (
                            EntryKey::Article { group: g, name: f }) by {
                            if article && article_key(g, f) == article_key(group@, name@) {
                                lemma_article_keys_differ(g, f, group@, name@);
                            } else {
                                assert(old_articles.contains_key(article_key(g, f)));
                            }
                        }
                        assert forall|g: Seq<char>| #[trigger]
                            groups@.contains_key(g) implies groups@[g] < owners.len()
                            && owners[groups@[g] as int] == (EntryKey::Group { group: g }) by {
                            if !(!article && g == group@) {
                                assert(old_groups.contains_key(g));
                            }
                        }
                        assert forall|t: int| 0 <= t < owners.len() implies is_filed(
                            #[trigger] owners[t],
                            groups@,
                            articles@,
                        ) by {
                            if t < old_owners.len() {
                                assert(is_filed(old_owners[t], old_groups, old_articles));
                            }
                        }
                    }
                },
            }
        } else {
            match found {
                Some(m) => {
                    assert(positions(old_stacks[m as int]) == pending(views, key, i as int));
                    if stacks[m].len() > 0 {
                        proof {
                            lemma_pending_bounds(views, key, i as int);
                        }
                        let j = stacks[m].pop().unwrap();
                        assert(j as int == positions(old_stacks[m as int]).last());
                        assert(positions(stacks@[m as int]) =~= positions(
                            old_stacks[m as int],
                        ).drop_last());
                        keep[j] = false;
                        keep[i] = false;
                    }
                },
                None => {
                    assert(pending(views, key, i as int).len() == 0);
                },
            }
        }
        proof {
            let now = stacks@;
            assert(now.len() >= old_stacks.len());
            assert(owners.len() == now.len());
            assert forall|m: int| 0 <= m < now.len() implies positions(#[trigger] now[m])
                == pending(views, owners[m], i + 1) by {
                if m < old_stacks.len() {
                    assert(owners[m] == old_owners[m]);
                    assert(positions(old_stacks[m]) == pending(views, old_owners[m], i as int));
                    if owners[m] != key {
                        assert(now[m] == old_stacks[m]);
                    }
                }
            }
            assert forall|a: int, b: int| 0 <= a < b < owners.len() implies #[trigger] owners[a]
                != #[trigger] owners[b] by {
                assert(owners[a] == old_owners[a]);
                if b < old_owners.len() {
                    assert(owners[b] == old_owners[b]);
                } else {
                    assert(owners[b] == key);
                    assert(!has_stack(old_owners, key));
                }
            }
            assert forall|other: EntryKey| !has_stack(owners, other) implies (#[trigger] pending(
                views,
                other,
                i + 1,
            )).len() == 0 by {
                if has_stack(old_owners, other) {
                    let m = choose|m: int|
                        0 <= m < old_owners.len() && #[trigger] old_owners[m] == other;
                    assert(owners[m] == other);
                }
                assert(pending(views, other, i as int).len() == 0);
                if other == key {
                    if entry@.is_add() {
                        assert(owners[owners.len() - 1] == key || has_stack(old_owners, key));
                    }
                }
            }
        }
        i += 1;
    }

    let mut rest: Vec<GitFileEntry> = Vec::new();
    let ghost all = entries@;
    let mut at: usize = 0;
    assert(rest.deep_view() =~= select(views, keep@, 0));
    for entry in it: entries
        invariant
            it.seq() == all,
            all.len() == n,
            keep@.len() == n,
            at == it.index(),
            forall|j: int| 0 <= j < n ==> views[j] == (#[trigger] all[j])@,
            rest.deep_view() == select(views, keep@, at as int),
    {
        let ghost before = rest.deep_view();
        if keep[at] {
            rest.push(entry);
            assert(rest.deep_view() =~= before.push(views[at as int]));
        }
        at += 1;
    }
    rest
}

} // verus!
