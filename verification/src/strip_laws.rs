//! What stripping guarantees.
//!
//! Four laws: a list that replays a history on an empty tree is stripped
//! down to the files in place at its end; no removal is left behind an
//! addition of the same file; stripping twice is stripping once; and what
//! is dropped is dropped in pairs of an addition and a later removal of the
//! same file, no entry in two pairs.

use vstd::prelude::*;
use crate::entry::{EntryKey, EntryView};
use crate::strip::{
    cancels, kept, lemma_kept_len, lemma_pending_bounds, partner, pending, select, stripped,
};

verus! {

/// The files that are in place once the first `n` entries have been
/// replayed on a tree that holds the files `start`: an addition puts its
/// file in place, a removal takes it away.
pub open spec fn live_from(start: Set<EntryKey>, entries: Seq<EntryView>, n: int) -> Set<EntryKey>
    decreases n,
{
    if n <= 0 {
        start
    } else if entries[n - 1].is_add() {
        live_from(start, entries, n - 1).insert(entries[n - 1].key())
    } else {
        live_from(start, entries, n - 1).remove(entries[n - 1].key())
    }
}

/// Whether `entries` can be replayed on a tree that holds the files
/// `start`: each addition puts a file where none is, and each removal takes
/// away one that is there.
pub open spec fn coherent_from(start: Set<EntryKey>, entries: Seq<EntryView>) -> bool {
    forall|i: int|
        #![trigger entries[i]]
        0 <= i < entries.len() ==> (entries[i].is_add() <==> !live_from(start, entries, i).contains(
            entries[i].key(),
        ))
}

/// The files that are in place once the first `n` entries have been
/// replayed on an empty tree.
pub open spec fn live(entries: Seq<EntryView>, n: int) -> Set<EntryKey> {
    live_from(Set::empty(), entries, n)
}

/// Whether `entries` can be replayed on an empty tree.
pub open spec fn coherent(entries: Seq<EntryView>) -> bool {
    coherent_from(Set::empty(), entries)
}

/// Whether the entry at `i` is the one pending addition of its file once
/// the first `n` entries have been looked at.
pub open spec fn stands(entries: Seq<EntryView>, i: int, n: int) -> bool {
    entries[i].is_add() && pending(entries, entries[i].key(), n).len() == 1 && pending(
        entries,
        entries[i].key(),
        n,
    )[0] == i
}

/// While a replay on an empty tree is walked, a file in place has exactly
/// one pending addition and a file not in place has none.
proof fn lemma_pending_of_replay(entries: Seq<EntryView>, key: EntryKey, n: int)
    requires
        coherent(entries),
        0 <= n <= entries.len(),
    ensures
        live(entries, n).contains(key) ==> pending(entries, key, n).len() == 1,
        !live(entries, n).contains(key) ==> pending(entries, key, n).len() == 0,
    decreases n,
{
    if n > 0 {
        lemma_pending_of_replay(entries, key, n - 1);
        let entry = entries[n - 1];
        assert(entry.is_add() <==> !live(entries, n - 1).contains(entry.key()));
    }
}

/// While a replay on an empty tree is walked, an entry is kept as long as
/// it is the pending addition of its file.
proof fn lemma_kept_of_replay(entries: Seq<EntryView>, n: int)
    requires
        coherent(entries),
        0 <= n <= entries.len(),
    ensures
        kept(entries, n).len() == entries.len(),
        forall|i: int| 0 <= i < n ==> (#[trigger] kept(entries, n)[i] <==> stands(entries, i, n)),
        forall|i: int| n <= i < entries.len() ==> #[trigger] kept(entries, n)[i],
    decreases n,
{
    lemma_kept_len(entries, n);
    if n > 0 {
        let m = n - 1;
        lemma_kept_len(entries, m);
        lemma_kept_of_replay(entries, m);
        let entry = entries[m];
        let key = entry.key();
        lemma_pending_bounds(entries, key, m);
        lemma_pending_of_replay(entries, key, m);
        lemma_pending_of_replay(entries, key, n);
        assert(entry.is_add() <==> !live(entries, m).contains(key));
        let before = pending(entries, key, m);
        if entry.is_add() {
            assert(before.len() == 0);
            assert(!cancels(entries, m));
            assert(kept(entries, n) == kept(entries, m));
            assert(pending(entries, key, n) == before.push(m));
            assert forall|i: int| 0 <= i < n implies (#[trigger] kept(entries, n)[i] <==> stands(
                entries,
                i,
                n,
            )) by {
                if i < m {
                    if entries[i].key() == key {
                        assert(!stands(entries, i, m));
                        assert(!stands(entries, i, n));
                    } else {
                        assert(pending(entries, entries[i].key(), n) == pending(
                            entries,
                            entries[i].key(),
                            m,
                        ));
                    }
                } else {
                    assert(stands(entries, m, n));
                }
            }
        } else {
            assert(before.len() == 1);
            let j = before[0];
            assert(before.last() == j);
            assert(cancels(entries, m));
            assert(partner(entries, m) == j);
            assert(0 <= j < m && entries[j].key() == key);
            assert(kept(entries, n) == kept(entries, m).update(j, false).update(m, false));
            assert(pending(entries, key, n).len() == 0);
            assert forall|i: int| 0 <= i < n implies (#[trigger] kept(entries, n)[i] <==> stands(
                entries,
                i,
                n,
            )) by {
                if i < m {
                    if entries[i].key() == key {
                        assert(!stands(entries, i, n));
                        if i != j {
                            assert(!stands(entries, i, m));
                        }
                    } else {
                        assert(i != j);
                        assert(pending(entries, entries[i].key(), n) == pending(
                            entries,
                            entries[i].key(),
                            m,
                        ));
                    }
                } else {
                    assert(!stands(entries, m, n));
                }
            }
        }
    }
}

/// A list that replays on an empty tree is stripped down to the files that
/// are in place at its end: every entry that is kept adds a file that is in
/// place, every file in place has an entry that is kept, and no file has two.
pub proof fn lemma_strip_keeps_what_is_live(entries: Seq<EntryView>)
    requires
        coherent(entries),
    ensures
        forall|i: int|
            0 <= i < entries.len() && #[trigger] kept(entries, entries.len() as int)[i]
                ==> entries[i].is_add() && live(entries, entries.len() as int).contains(
                entries[i].key(),
            ),
        forall|key: EntryKey| #[trigger]
            live(entries, entries.len() as int).contains(key) ==> exists|i: int|
                0 <= i < entries.len() && #[trigger] kept(entries, entries.len() as int)[i]
                    && entries[i].key() == key,
        forall|i: int, j: int|
            0 <= i < j < entries.len() && #[trigger] kept(entries, entries.len() as int)[i]
                && #[trigger] kept(entries, entries.len() as int)[j] ==> entries[i].key()
                != entries[j].key(),
{
    let n = entries.len() as int;
    lemma_kept_of_replay(entries, n);
    assert forall|i: int| 0 <= i < n && #[trigger] kept(entries, n)[i] implies entries[i].is_add()
        && live(entries, n).contains(entries[i].key()) by {
        assert(stands(entries, i, n));
        lemma_pending_of_replay(entries, entries[i].key(), n);
    }
    assert forall|key: EntryKey| #[trigger] live(entries, n).contains(key) implies exists|i: int|
        0 <= i < n && #[trigger] kept(entries, n)[i] && entries[i].key() == key by {
        lemma_pending_bounds(entries, key, n);
        lemma_pending_of_replay(entries, key, n);
        let i = pending(entries, key, n)[0];
        assert(stands(entries, i, n));
        assert(kept(entries, n)[i]);
    }
    assert forall|i: int, j: int|
        0 <= i < j < n && #[trigger] kept(entries, n)[i] && #[trigger] kept(
            entries,
            n,
        )[j] implies entries[i].key() != entries[j].key() by {
        assert(stands(entries, i, n));
        assert(stands(entries, j, n));
    }
}

/// Whether `entry` stands among the first `n` entries at a position that
/// `keep` marks.
pub open spec fn is_marked<T>(entries: Seq<T>, keep: Seq<bool>, n: int, entry: T) -> bool {
    exists|i: int| 0 <= i < n && #[trigger] keep[i] && entries[i] == entry
}

/// What a selection holds is what its flags mark: every marked entry is a
/// member, and every member is a marked entry.
pub proof fn lemma_select_members<T>(entries: Seq<T>, keep: Seq<bool>, n: int)
    requires
        0 <= n <= entries.len(),
        keep.len() == entries.len(),
    ensures
        forall|i: int|
            0 <= i < n && keep[i] ==> #[trigger] select(entries, keep, n).contains(entries[i]),
        forall|at: int|
            0 <= at < select(entries, keep, n).len() ==> is_marked(
                entries,
                keep,
                n,
                #[trigger] select(entries, keep, n)[at],
            ),
        select(entries, keep, n).len() <= n,
    decreases n,
{
    if n > 0 {
        lemma_select_members(entries, keep, n - 1);
        let before = select(entries, keep, n - 1);
        let now = select(entries, keep, n);
        assert forall|i: int| 0 <= i < n && keep[i] implies #[trigger] now.contains(
            entries[i],
        ) by {
            if i < n - 1 {
                assert(before.contains(entries[i]));
                let at = choose|at: int| 0 <= at < before.len() && before[at] == entries[i];
                assert(now[at] == entries[i]);
            } else {
                assert(now[now.len() - 1] == entries[i]);
            }
        }
        assert forall|at: int| 0 <= at < now.len() implies is_marked(
            entries,
            keep,
            n,
            #[trigger] now[at],
        ) by {
            if at < before.len() {
                assert(now[at] == before[at]);
                assert(is_marked(entries, keep, n - 1, before[at]));
                let i = choose|i: int|
                    0 <= i < n - 1 && #[trigger] keep[i] && entries[i] == before[at];
                assert(0 <= i < n && keep[i] && entries[i] == now[at]);
            } else {
                assert(keep[n - 1] && entries[n - 1] == now[at]);
            }
        }
    }
}

/// A snapshot lists what is there: where `entries` replay a history on an
/// empty tree, what is left of them after stripping is additions only, each
/// of a file that is in place at the end, and every file in place is among
/// them.
pub proof fn lemma_snapshot_lists_live_files(entries: Seq<EntryView>)
    requires
        coherent(entries),
    ensures
        forall|at: int|
            0 <= at < stripped(entries).len() ==> (#[trigger] stripped(entries)[at]).is_add()
                && live(entries, entries.len() as int).contains(stripped(entries)[at].key()),
        forall|key: EntryKey| #[trigger]
            live(entries, entries.len() as int).contains(key) ==> exists|at: int|
                0 <= at < stripped(entries).len() && (#[trigger] stripped(entries)[at]).key()
                    == key,
{
    let n = entries.len() as int;
    let keep = kept(entries, n);
    let rest = stripped(entries);
    lemma_kept_len(entries, n);
    lemma_strip_keeps_what_is_live(entries);
    lemma_select_members(entries, keep, n);
    assert forall|at: int| 0 <= at < rest.len() implies (#[trigger] rest[at]).is_add() && live(
        entries,
        n,
    ).contains(rest[at].key()) by {
        assert(is_marked(entries, keep, n, rest[at]));
        let i = choose|i: int| 0 <= i < n && #[trigger] keep[i] && entries[i] == rest[at];
        assert(kept(entries, n)[i]);
    }
    assert forall|key: EntryKey| #[trigger] live(entries, n).contains(key) implies exists|at: int|
        0 <= at < rest.len() && (#[trigger] rest[at]).key() == key by {
        let i = choose|i: int| 0 <= i < n && #[trigger] kept(entries, n)[i] && entries[i].key() == key;
        assert(keep[i]);
        assert(rest.contains(entries[i]));
        let at = choose|at: int| 0 <= at < rest.len() && rest[at] == entries[i];
        assert(rest[at].key() == key);
    }
}

/// An entry that is dropped stays dropped: what is kept after `n` entries
/// was kept after fewer.
proof fn lemma_kept_only_falls(entries: Seq<EntryView>, m: int, n: int, i: int)
    requires
        0 <= m <= n <= entries.len(),
        0 <= i < entries.len(),
        kept(entries, n)[i],
    ensures
        kept(entries, m)[i],
    decreases n - m,
{
    if m < n {
        lemma_kept_len(entries, n - 1);
        if cancels(entries, n - 1) {
            lemma_pending_bounds(entries, entries[n - 1].key(), n - 1);
        }
        lemma_kept_only_falls(entries, m, n - 1, i);
    }
}

/// An addition that is kept is pending: as long as no removal has taken it,
/// it waits among the pending additions of its file.
proof fn lemma_kept_addition_is_pending(entries: Seq<EntryView>, i: int, n: int)
    requires
        0 <= i < n <= entries.len(),
        entries[i].is_add(),
        kept(entries, n)[i],
    ensures
        pending(entries, entries[i].key(), n).contains(i),
    decreases n,
{
    let key = entries[i].key();
    if n == i + 1 {
        let now = pending(entries, key, n);
        assert(now[now.len() - 1] == i);
    } else {
        lemma_kept_only_falls(entries, n - 1, n, i);
        lemma_kept_addition_is_pending(entries, i, n - 1);
        lemma_kept_len(entries, n - 1);
        let before = pending(entries, key, n - 1);
        let now = pending(entries, key, n);
        let at = choose|at: int| 0 <= at < before.len() && before[at] == i;
        let entry = entries[n - 1];
        if entry.key() == key {
            if entry.is_add() {
                assert(now[at] == i);
            } else {
                lemma_pending_bounds(entries, key, n - 1);
                assert(cancels(entries, n - 1));
                assert(partner(entries, n - 1) != i);
                assert(at < before.len() - 1);
                assert(now[at] == i);
            }
        } else {
            assert(now[at] == i);
        }
    }
}

/// A removal that is kept found nothing to cancel.
proof fn lemma_kept_removal_found_nothing(entries: Seq<EntryView>, j: int)
    requires
        0 <= j < entries.len(),
        !entries[j].is_add(),
        kept(entries, entries.len() as int)[j],
    ensures
        pending(entries, entries[j].key(), j).len() == 0,
{
    lemma_kept_only_falls(entries, j + 1, entries.len() as int, j);
    lemma_kept_len(entries, j);
    if cancels(entries, j) {
        lemma_pending_bounds(entries, entries[j].key(), j);
        assert(!kept(entries, j + 1)[j]);
    }
}

/// Whether `first` and `second` stand among the first `n` entries at two
/// positions that `keep` marks, `first` before `second`.
pub open spec fn is_marked_pair<T>(
    entries: Seq<T>,
    keep: Seq<bool>,
    n: int,
    first: T,
    second: T,
) -> bool {
    exists|i: int, j: int|
        0 <= i < j < n && #[trigger] keep[i] && #[trigger] keep[j] && entries[i] == first
            && entries[j] == second
}

/// A selection keeps the order: two of its members, one before the other,
/// are two marked entries in the same order.
pub proof fn lemma_select_keeps_order<T>(entries: Seq<T>, keep: Seq<bool>, n: int)
    requires
        0 <= n <= entries.len(),
        keep.len() == entries.len(),
    ensures
        forall|a: int, b: int|
            0 <= a < b < select(entries, keep, n).len() ==> is_marked_pair(
                entries,
                keep,
                n,
                #[trigger] select(entries, keep, n)[a],
                #[trigger] select(entries, keep, n)[b],
            ),
    decreases n,
{
    if n > 0 {
        lemma_select_keeps_order(entries, keep, n - 1);
        lemma_select_members(entries, keep, n - 1);
        let before = select(entries, keep, n - 1);
        let now = select(entries, keep, n);
        assert forall|a: int, b: int| 0 <= a < b < now.len() implies is_marked_pair(
            entries,
            keep,
            n,
            #[trigger] now[a],
            #[trigger] now[b],
        ) by {
            assert(now[a] == before[a]);
            if b < before.len() {
                assert(now[b] == before[b]);
                assert(is_marked_pair(entries, keep, n - 1, before[a], before[b]));
                let (i, j) = choose|i: int, j: int|
                    0 <= i < j < n - 1 && #[trigger] keep[i] && #[trigger] keep[j] && entries[i]
                        == before[a] && entries[j] == before[b];
                assert(0 <= i < j < n && keep[i] && keep[j]);
            } else {
                assert(is_marked(entries, keep, n - 1, before[a]));
                let i = choose|i: int|
                    0 <= i < n - 1 && #[trigger] keep[i] && entries[i] == before[a];
                assert(0 <= i < n - 1 < n && keep[i] && keep[n - 1]);
            }
        }
    }
}

/// In what is left after stripping, no removal follows an addition of the
/// same file.
pub proof fn lemma_no_removal_after_its_addition(entries: Seq<EntryView>, a: int, b: int)
    requires
        0 <= a < b < stripped(entries).len(),
        stripped(entries)[a].is_add(),
        stripped(entries)[a].key() == stripped(entries)[b].key(),
    ensures
        stripped(entries)[b].is_add(),
{
    let n = entries.len() as int;
    let keep = kept(entries, n);
    let rest = stripped(entries);
    lemma_kept_len(entries, n);
    lemma_select_keeps_order(entries, keep, n);
    assert(is_marked_pair(entries, keep, n, rest[a], rest[b]));
    let (i, j) = choose|i: int, j: int|
        0 <= i < j < n && #[trigger] keep[i] && #[trigger] keep[j] && entries[i] == rest[a]
            && entries[j] == rest[b];
    if !entries[j].is_add() {
        lemma_kept_removal_found_nothing(entries, j);
        lemma_kept_only_falls(entries, j, n, i);
        lemma_kept_addition_is_pending(entries, i, j);
    }
}

/// Where no removal follows an addition of the same file, no removal finds
/// anything to cancel, and every entry is kept.
proof fn lemma_nothing_left_to_cancel(rest: Seq<EntryView>, m: int)
    requires
        0 <= m <= rest.len(),
        forall|a: int, b: int|
            0 <= a < b < rest.len() && (#[trigger] rest[a]).is_add() && rest[a].key() == (
            #[trigger] rest[b]).key() ==> rest[b].is_add(),
    ensures
        kept(rest, m) == Seq::new(rest.len(), |i: int| true),
        select(rest, kept(rest, m), m) == rest.take(m),
    decreases m,
{
    if m > 0 {
        lemma_nothing_left_to_cancel(rest, m - 1);
        let last = rest[m - 1];
        if !last.is_add() {
            let waiting = pending(rest, last.key(), m - 1);
            if waiting.len() > 0 {
                lemma_pending_bounds(rest, last.key(), m - 1);
                let at = waiting[0];
                assert(rest[at].is_add() && rest[at].key() == rest[m - 1].key());
            }
        }
        assert(!cancels(rest, m - 1));
        assert(rest.take(m) =~= rest.take(m - 1).push(rest[m - 1]));
    } else {
        assert(rest.take(0) =~= Seq::<EntryView>::empty());
    }
}

/// Stripping is done in one go: stripping what is left changes nothing.
pub proof fn lemma_strip_is_idempotent(entries: Seq<EntryView>)
    ensures
        stripped(stripped(entries)) == stripped(entries),
{
    let rest = stripped(entries);
    assert forall|a: int, b: int|
        0 <= a < b < rest.len() && (#[trigger] rest[a]).is_add() && rest[a].key() == (
        #[trigger] rest[b]).key() implies rest[b].is_add() by {
        lemma_no_removal_after_its_addition(entries, a, b);
    }
    lemma_nothing_left_to_cancel(rest, rest.len() as int);
    assert(rest.take(rest.len() as int) =~= rest);
}

/// Whether the entries at `i` and `j` leave as a pair: the removal at `j`
/// cancels the addition at `i`.
pub open spec fn is_pair(entries: Seq<EntryView>, i: int, j: int) -> bool {
    0 <= i < j < entries.len() && cancels(entries, j) && partner(entries, j) == i
}

/// Whether one of the first `n` entries makes a pair that the entry at `x`
/// belongs to.
pub open spec fn leaves_in_pair(entries: Seq<EntryView>, n: int, x: int) -> bool {
    exists|i: int, j: int| j < n && #[trigger] is_pair(entries, i, j) && (x == i || x == j)
}

/// Pending additions wait in the order they came in.
proof fn lemma_pending_rises(entries: Seq<EntryView>, key: EntryKey, n: int)
    requires
        0 <= n <= entries.len(),
    ensures
        forall|a: int, b: int|
            0 <= a < b < pending(entries, key, n).len() ==> pending(entries, key, n)[a] < pending(
                entries,
                key,
                n,
            )[b],
    decreases n,
{
    if n > 0 {
        lemma_pending_rises(entries, key, n - 1);
        lemma_pending_bounds(entries, key, n - 1);
        let before = pending(entries, key, n - 1);
        let now = pending(entries, key, n);
        assert forall|a: int, b: int| 0 <= a < b < now.len() implies now[a] < now[b] by {
            assert(now[a] == before[a]);
            if b < before.len() {
                assert(now[b] == before[b]);
            }
        }
    }
}

/// An addition that a removal has cancelled is never pending again.
proof fn lemma_cancelled_stays_out(entries: Seq<EntryView>, j: int, m: int)
    requires
        0 <= j < m <= entries.len(),
        cancels(entries, j),
    ensures
        !pending(entries, entries[j].key(), m).contains(partner(entries, j)),
    decreases m,
{
    let key = entries[j].key();
    let gone = partner(entries, j);
    lemma_pending_bounds(entries, key, j);
    let now = pending(entries, key, m);
    if m == j + 1 {
        lemma_pending_rises(entries, key, j);
        let before = pending(entries, key, j);
        assert(now == before.drop_last());
        assert forall|t: int| 0 <= t < now.len() implies now[t] != gone by {
            assert(now[t] == before[t]);
        }
    } else {
        lemma_cancelled_stays_out(entries, j, m - 1);
        let before = pending(entries, key, m - 1);
        assert forall|t: int| 0 <= t < now.len() implies now[t] != gone by {
            if t < before.len() {
                assert(now[t] == before[t]);
                assert(before.contains(before[t]));
            }
        }
    }
}

/// What the first `n` entries drop, they drop in pairs.
proof fn lemma_dropped_in_pairs(entries: Seq<EntryView>, n: int)
    requires
        0 <= n <= entries.len(),
    ensures
        forall|x: int|
            0 <= x < entries.len() ==> (!(#[trigger] kept(entries, n)[x]) <==> leaves_in_pair(
                entries,
                n,
                x,
            )),
    decreases n,
{
    lemma_kept_len(entries, n);
    if n > 0 {
        lemma_dropped_in_pairs(entries, n - 1);
        lemma_kept_len(entries, n - 1);
        let j = n - 1;
        if cancels(entries, j) {
            lemma_pending_bounds(entries, entries[j].key(), j);
            assert(is_pair(entries, partner(entries, j), j));
        }
        assert forall|x: int| 0 <= x < entries.len() implies (!(#[trigger] kept(entries, n)[x])
            <==> leaves_in_pair(entries, n, x)) by {
            if leaves_in_pair(entries, n - 1, x) {
                let (a, b) = choose|a: int, b: int|
                    b < n - 1 && #[trigger] is_pair(entries, a, b) && (x == a || x == b);
                assert(b < n && is_pair(entries, a, b));
            }
            if leaves_in_pair(entries, n, x) && !leaves_in_pair(entries, n - 1, x) {
                let (a, b) = choose|a: int, b: int|
                    b < n && #[trigger] is_pair(entries, a, b) && (x == a || x == b);
                assert(b == j);
            }
        }
    } else {
        assert forall|x: int| 0 <= x < entries.len() implies (!(#[trigger] kept(entries, n)[x])
            <==> leaves_in_pair(entries, n, x)) by {
            if leaves_in_pair(entries, n, x) {
                let (a, b) = choose|a: int, b: int|
                    b < n && #[trigger] is_pair(entries, a, b) && (x == a || x == b);
            }
        }
    }
}

/// Entries leave in pairs, and in pairs only: a pair is an addition and a
/// later removal of the same file; an entry is dropped exactly where it
/// belongs to a pair; and no entry belongs to two pairs.
pub proof fn lemma_entries_leave_in_pairs(entries: Seq<EntryView>)
    ensures
        forall|i: int, j: int| #[trigger]
            is_pair(entries, i, j) ==> entries[i].is_add() && !entries[j].is_add()
                && entries[i].key() == entries[j].key(),
        forall|x: int|
            0 <= x < entries.len() ==> (!(#[trigger] kept(entries, entries.len() as int)[x])
                <==> leaves_in_pair(entries, entries.len() as int, x)),
        forall|i: int, j: int, a: int, b: int|
            #[trigger] is_pair(entries, i, j) && #[trigger] is_pair(entries, a, b) && (i == a || j
                == b || i == b || j == a) ==> i == a && j == b,
{
    lemma_dropped_in_pairs(entries, entries.len() as int);
    assert forall|i: int, j: int| #[trigger] is_pair(entries, i, j) implies entries[i].is_add()
        && !entries[j].is_add() && entries[i].key() == entries[j].key() by {
        lemma_pending_bounds(entries, entries[j].key(), j);
    }
    assert forall|i: int, j: int, a: int, b: int|
        #[trigger] is_pair(entries, i, j) && #[trigger] is_pair(entries, a, b) && (i == a || j == b
            || i == b || j == a) implies i == a && j == b by {
        lemma_pending_bounds(entries, entries[j].key(), j);
        lemma_pending_bounds(entries, entries[b].key(), b);
        if i == a && j != b {
            if j < b {
                lemma_cancelled_stays_out(entries, j, b);
                let waiting = pending(entries, entries[b].key(), b);
                assert(waiting[waiting.len() - 1] == a);
                assert(waiting.contains(a));
            } else {
                lemma_cancelled_stays_out(entries, b, j);
                let waiting = pending(entries, entries[j].key(), j);
                assert(waiting[waiting.len() - 1] == i);
                assert(waiting.contains(i));
            }
        }
    }
}

} // verus!
