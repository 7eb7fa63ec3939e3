//! The mathematics of a recency-ordered index: a sequence of `(key, size)`
//! entries that runs from the least recently used entry to the most recently
//! used one.

use vstd::prelude::*;

verus! {

/// One entry of the index: a blob's name and its size in bytes.
pub type Entry = (Seq<char>, u64);

/// The entries of an index, least recently used first.
pub type Entries = Seq<Entry>;

/// The bytes that a run of entries accounts for.
pub open spec fn total_size(entries: Entries) -> int
    decreases entries.len(),
{
    if entries.len() == 0 {
        0
    } else {
        total_size(entries.drop_last()) + entries.last().1
    }
}

/// Whether some entry is recorded under `key`.
pub open spec fn holds(entries: Entries, key: Seq<char>) -> bool {
    exists|i: int| 0 <= i < entries.len() && (#[trigger] entries[i]).0 == key
}

/// The place of `key` among the entries (meaningful where `holds`).
pub open spec fn index_of(entries: Entries, key: Seq<char>) -> int {
    choose|i: int| 0 <= i < entries.len() && (#[trigger] entries[i]).0 == key
}

/// No key is recorded twice.
pub open spec fn distinct_keys(entries: Entries) -> bool {
    forall|i: int, j: int|
        0 <= i < j < entries.len() ==> (#[trigger] entries[i]).0 != (#[trigger] entries[j]).0
}

/// The names of the entries, in the same order.
pub open spec fn keys_of(entries: Entries) -> Seq<Seq<char>> {
    Seq::new(entries.len(), |i: int| entries[i].0)
}

/// The entries after `key` was used: its entry, if there is one, moves to the
/// most recently used end; the others keep their order.
pub open spec fn refreshed(entries: Entries, key: Seq<char>) -> Entries {
    if holds(entries, key) {
        let i = index_of(entries, key);
        entries.remove(i).push(entries[i])
    } else {
        entries
    }
}

/// What a bounded index makes of its entries by itself: least recently used
/// entries leave, one by one, until what remains accounts for no more than
/// `capacity` bytes. The cache makes room beforehand and names what goes, so
/// that it never comes to this.
pub open spec fn fitted(entries: Entries, capacity: int) -> Entries
    decreases entries.len(),
{
    if entries.len() > 0 && total_size(entries) > capacity {
        fitted(entries.drop_first(), capacity)
    } else {
        entries
    }
}

/// The sizes add up to what a `usize` can hold (and so does each of them:
/// none is larger than their sum).
pub open spec fn within_usize(entries: Entries) -> bool {
    total_size(entries) <= usize::MAX
}

pub proof fn lemma_total_nonnegative(entries: Entries)
    ensures
        total_size(entries) >= 0,
    decreases entries.len(),
{
    if entries.len() > 0 {
        lemma_total_nonnegative(entries.drop_last());
    }
}

pub proof fn lemma_total_single(entries: Entries)
    requires
        entries.len() == 1,
    ensures
        total_size(entries) == entries[0].1,
{
    assert(total_size(entries.drop_last()) == 0);
}

pub proof fn lemma_total_push(entries: Entries, entry: Entry)
    ensures
        total_size(entries.push(entry)) == total_size(entries) + entry.1,
{
    assert(entries.push(entry).drop_last() =~= entries);
}

pub proof fn lemma_total_remove(entries: Entries, i: int)
    requires
        0 <= i < entries.len(),
    ensures
        total_size(entries.remove(i)) == total_size(entries) - entries[i].1,
    decreases entries.len(),
{
    if i == entries.len() - 1 {
        assert(entries.remove(i) =~= entries.drop_last());
    } else {
        lemma_total_remove(entries.drop_last(), i);
        assert(entries.remove(i).drop_last() =~= entries.drop_last().remove(i));
    }
}

pub proof fn lemma_total_drop_first(entries: Entries)
    requires
        entries.len() > 0,
    ensures
        total_size(entries.drop_first()) == total_size(entries) - entries[0].1,
{
    lemma_total_remove(entries, 0);
    assert(entries.remove(0) =~= entries.drop_first());
}

pub proof fn lemma_total_concat(front: Entries, back: Entries)
    ensures
        total_size(front + back) == total_size(front) + total_size(back),
    decreases back.len(),
{
    if back.len() == 0 {
        assert(front + back =~= front);
    } else {
        lemma_total_concat(front, back.drop_last());
        assert((front + back).drop_last() =~= front + back.drop_last());
    }
}

/// Where `key` is held and no key occurs twice, `index_of` is its only place.
pub proof fn lemma_index_of(entries: Entries, key: Seq<char>, i: int)
    requires
        distinct_keys(entries),
        0 <= i < entries.len(),
        entries[i].0 == key,
    ensures
        holds(entries, key),
        index_of(entries, key) == i,
{
    let j = index_of(entries, key);
    if j < i {
        assert(entries[j].0 != entries[i].0);
    } else if i < j {
        assert(entries[i].0 != entries[j].0);
    }
}

/// Using a key neither adds nor loses an entry, and the used key ends up most
/// recently used.
pub proof fn lemma_refreshed(entries: Entries, key: Seq<char>)
    requires
        distinct_keys(entries),
    ensures
        refreshed(entries, key).len() == entries.len(),
        total_size(refreshed(entries, key)) == total_size(entries),
        distinct_keys(refreshed(entries, key)),
        forall|k: Seq<char>| holds(refreshed(entries, key), k) <==> holds(entries, k),
        holds(entries, key) ==> refreshed(entries, key).last() == entries[index_of(entries, key)],
        within_usize(entries) ==> within_usize(refreshed(entries, key)),
{
    let after = refreshed(entries, key);
    if holds(entries, key) {
        let i = index_of(entries, key);
        let rest = entries.remove(i);
        lemma_total_remove(entries, i);
        lemma_total_push(rest, entries[i]);
        assert forall|a: int, b: int| 0 <= a < b < after.len() implies (#[trigger] after[a]).0 != (
        #[trigger] after[b]).0 by {
            let pa = if a < i { a } else { a + 1 };
            let pb = if b == after.len() - 1 { i } else if b < i { b } else { b + 1 };
            assert(after[a] == entries[pa]);
            assert(after[b] == entries[pb]);
            if pa < pb {
                assert(entries[pa].0 != entries[pb].0);
            } else {
                assert(entries[pb].0 != entries[pa].0);
            }
        }
        assert forall|k: Seq<char>| holds(after, k) <==> holds(entries, k) by {
            if holds(after, k) {
                let a = index_of(after, k);
                let pa = if a == after.len() - 1 { i } else if a < i { a } else { a + 1 };
                assert(after[a] == entries[pa]);
            }
            if holds(entries, k) {
                let p = index_of(entries, k);
                let a = if p == i { after.len() - 1 } else if p < i { p } else { p - 1 };
                assert(after[a] == entries[p]);
            }
        }
    }
}

/// What making room leaves: a tail of the entries that fits, and all of them
/// where they fitted already.
pub proof fn lemma_fitted(entries: Entries, capacity: int)
    requires
        capacity >= 0,
    ensures
        total_size(fitted(entries, capacity)) <= capacity,
        fitted(entries, capacity).len() <= entries.len(),
        fitted(entries, capacity) == entries.skip(entries.len() - fitted(entries, capacity).len()),
        total_size(entries) <= capacity ==> fitted(entries, capacity) == entries,
        total_size(fitted(entries, capacity)) <= total_size(entries),
    decreases entries.len(),
{
    if entries.len() > 0 && total_size(entries) > capacity {
        let rest = entries.drop_first();
        lemma_fitted(rest, capacity);
        lemma_total_drop_first(entries);
        let kept = fitted(rest, capacity);
        assert(rest.skip(rest.len() - kept.len()) =~= entries.skip(entries.len() - kept.len()));
    } else {
        assert(entries.skip(0) =~= entries);
    }
}

/// A tail of entries inherits what holds of all of them.
pub proof fn lemma_skip_keeps(entries: Entries, n: int)
    requires
        0 <= n <= entries.len(),
    ensures
        distinct_keys(entries) ==> distinct_keys(entries.skip(n)),
        within_usize(entries) ==> within_usize(entries.skip(n)),
        total_size(entries.skip(n)) == total_size(entries) - total_size(entries.take(n)),
        forall|k: Seq<char>| holds(entries.skip(n), k) ==> holds(entries, k),
{
    let tail = entries.skip(n);
    assert(entries.take(n) + tail =~= entries);
    lemma_total_concat(entries.take(n), tail);
    lemma_total_nonnegative(entries.take(n));
    if distinct_keys(entries) {
        assert forall|a: int, b: int| 0 <= a < b < tail.len() implies (#[trigger] tail[a]).0 != (
        #[trigger] tail[b]).0 by {
            assert(tail[a] == entries[a + n]);
            assert(tail[b] == entries[b + n]);
        }
    }
    assert forall|k: Seq<char>| holds(tail, k) implies holds(entries, k) by {
        let a = index_of(tail, k);
        assert(tail[a] == entries[a + n]);
    }
}

/// A new key at the most recently used end keeps the keys distinct.
pub proof fn lemma_push_keeps(entries: Entries, entry: Entry)
    requires
        distinct_keys(entries),
        !holds(entries, entry.0),
    ensures
        distinct_keys(entries.push(entry)),
        forall|k: Seq<char>| holds(entries.push(entry), k) <==> (k == entry.0 || holds(entries, k)),
        (within_usize(entries) && total_size(entries) + entry.1 <= usize::MAX) ==> within_usize(
            entries.push(entry),
        ),
{
    let after = entries.push(entry);
    lemma_total_push(entries, entry);
    lemma_total_nonnegative(entries);
    assert forall|k: Seq<char>| holds(after, k) <==> (k == entry.0 || holds(entries, k)) by {
        if holds(after, k) {
            let a = index_of(after, k);
            if a < entries.len() {
                assert(after[a] == entries[a]);
            }
        }
        if holds(entries, k) {
            let a = index_of(entries, k);
            assert(after[a] == entries[a]);
        }
        if k == entry.0 {
            assert(after[entries.len() as int].0 == k);
        }
    }
    assert forall|a: int, b: int| 0 <= a < b < after.len() implies (#[trigger] after[a]).0 != (
    #[trigger] after[b]).0 by {
        assert(after[a] == entries[a]);
        if b < entries.len() {
            assert(after[b] == entries[b]);
        }
    }
}

/// The first entries inherit what holds of all of them, and share no key with
/// the rest.
pub proof fn lemma_take_keeps(entries: Entries, n: int)
    requires
        0 <= n <= entries.len(),
        distinct_keys(entries),
    ensures
        distinct_keys(entries.take(n)),
        forall|k: Seq<char>| holds(entries.take(n), k) ==> holds(entries, k),
        forall|k: Seq<char>| !(holds(entries.take(n), k) && holds(entries.skip(n), k)),
{
    let head = entries.take(n);
    let tail = entries.skip(n);
    assert forall|a: int, b: int| 0 <= a < b < head.len() implies (#[trigger] head[a]).0 != (
    #[trigger] head[b]).0 by {
        assert(head[a] == entries[a]);
        assert(head[b] == entries[b]);
    }
    assert forall|k: Seq<char>| holds(head, k) implies holds(entries, k) by {
        let a = index_of(head, k);
        assert(head[a] == entries[a]);
    }
    assert forall|k: Seq<char>| !(holds(head, k) && holds(tail, k)) by {
        if holds(head, k) && holds(tail, k) {
            let a = index_of(head, k);
            let b = index_of(tail, k);
            assert(head[a] == entries[a]);
            assert(tail[b] == entries[b + n]);
            assert(entries[a].0 != entries[b + n].0);
        }
    }
}

/// Taking one entry out keeps the keys distinct, and its key is then gone.
pub proof fn lemma_remove_keeps(entries: Entries, i: int)
    requires
        0 <= i < entries.len(),
        distinct_keys(entries),
    ensures
        distinct_keys(entries.remove(i)),
        !holds(entries.remove(i), entries[i].0),
        forall|k: Seq<char>| holds(entries.remove(i), k) ==> holds(entries, k),
        forall|k: Seq<char>| holds(entries, k) && k != entries[i].0 ==> holds(entries.remove(i), k),
{
    let rest = entries.remove(i);
    assert forall|a: int, b: int| 0 <= a < b < rest.len() implies (#[trigger] rest[a]).0 != (
    #[trigger] rest[b]).0 by {
        let pa = if a < i { a } else { a + 1 };
        let pb = if b < i { b } else { b + 1 };
        assert(rest[a] == entries[pa]);
        assert(rest[b] == entries[pb]);
    }
    if holds(rest, entries[i].0) {
        let a = index_of(rest, entries[i].0);
        let pa = if a < i { a } else { a + 1 };
        assert(rest[a] == entries[pa]);
        if pa < i {
            assert(entries[pa].0 != entries[i].0);
        } else {
            assert(entries[i].0 != entries[pa].0);
        }
    }
    assert forall|k: Seq<char>| holds(rest, k) implies holds(entries, k) by {
        let a = index_of(rest, k);
        let pa = if a < i { a } else { a + 1 };
        assert(rest[a] == entries[pa]);
    }
    assert forall|k: Seq<char>| holds(entries, k) && k != entries[i].0 implies holds(rest, k) by {
        let p = index_of(entries, k);
        let a = if p < i { p } else { p - 1 };
        assert(rest[a] == entries[p]);
    }
}

/// Whether a blob of `len` bytes can be recorded beside the entries: where
/// they and the blob together are within `capacity`, or where there is no
/// entry at all (a blob larger than the capacity is recorded alone).
pub open spec fn fits(entries: Entries, len: u64, capacity: u64) -> bool {
    entries.len() == 0 || total_size(entries) + len <= capacity
}

/// How many of the least recently used entries must go before a blob of `len`
/// bytes fits.
pub open spec fn shortfall(entries: Entries, len: u64, capacity: u64) -> nat
    decreases entries.len(),
{
    if fits(entries, len, capacity) {
        0
    } else {
        1 + shortfall(entries.drop_first(), len, capacity)
    }
}

/// Once as many entries have gone as the shortfall says, the blob fits; and
/// no more than all entries ever have to go.
pub proof fn lemma_shortfall(entries: Entries, len: u64, capacity: u64)
    ensures
        shortfall(entries, len, capacity) <= entries.len(),
        fits(entries.skip(shortfall(entries, len, capacity) as int), len, capacity),
    decreases entries.len(),
{
    if fits(entries, len, capacity) {
        assert(entries.skip(0) =~= entries);
    } else {
        let rest = entries.drop_first();
        lemma_shortfall(rest, len, capacity);
        let n = shortfall(rest, len, capacity) as int;
        assert(rest.skip(n) =~= entries.skip(n + 1));
    }
}

} // verus!
