//! A size-bounded index of the blobs kept on disk, with least-recently-used
//! eviction.
//!
//! The index decides; it touches no file. An operation that needs the disk
//! says which files are to be deleted or written, and is told afterwards how
//! that went. No entry leaves the index but as a victim that is named, so
//! that its file can be deleted and its eviction announced.

use crate::lru::{
    lru_capacity, lru_capacity_of, lru_contains_key, lru_entries, lru_get, lru_insert,
    lru_remove_lru, lru_size, lru_with_meter, LruIndex,
};
use crate::recency::{
    distinct_keys, fits, holds, index_of, keys_of, lemma_fitted, lemma_index_of,
    lemma_push_keeps, lemma_refreshed, lemma_remove_keeps, lemma_shortfall, lemma_skip_keeps,
    lemma_take_keeps, lemma_total_drop_first, lemma_total_nonnegative, lemma_total_push,
    lemma_total_single,
    lemma_total_remove, refreshed, shortfall, total_size, within_usize, Entries, Entry,
};
use crate::{DiscaError, IoFailure};
use sccache::lru_disk_cache::Meter;
use vstd::prelude::*;

verus! {

/// Measures an index entry by the size recorded for it.
pub struct DiskCacheMeter {}

impl<K> Meter<K, u64> for DiskCacheMeter {
    type Measure = usize;

    /// The size that is recorded, whatever the key: the recorded number as a
    /// `usize`, which is the number itself wherever it fits one.
    fn measure<Q: ?Sized>(&self, _key: &Q, value: &u64) -> usize where K: std::borrow::Borrow<Q>
        returns
            *value as usize,
    {
        *value as usize
    }
}

/// A change of the index that those who advertise the blobs are told of.
#[derive(Debug, Clone, PartialEq, Eq)]
pub enum Notice {
    /// The blob was admitted and its file written.
    Added(String),
    /// The blob was evicted and its file deleted.
    Removed(String),
}

/// A [`Notice`] as a plain value.
pub enum NoticeView {
    Added(Seq<char>),
    Removed(Seq<char>),
}

impl View for Notice {
    type V = NoticeView;

    open spec fn view(&self) -> NoticeView {
        match *self {
            Notice::Added(key) => NoticeView::Added(key@),
            Notice::Removed(key) => NoticeView::Removed(key@),
        }
    }
}

/// What `insert` found and what is to happen next.
#[derive(Debug, Clone, PartialEq, Eq)]
pub enum Admission {
    /// The key is in the index already: nothing was changed and nothing is to
    /// be written.
    Present,
    /// The key was recorded: its file is to be written now.
    Write,
    /// Room is being made: the files of these keys are to be deleted, and each
    /// outcome reported with `evicted`. The key is recorded when the blob
    /// fits and the last report is in.
    Evict { victims: Vec<String> },
}

/// An [`Admission`] as a plain value.
pub enum AdmissionView {
    Present,
    Write,
    Evict { victims: Seq<Seq<char>> },
}

impl View for Admission {
    type V = AdmissionView;

    open spec fn view(&self) -> AdmissionView {
        match *self {
            Admission::Present => AdmissionView::Present,
            Admission::Write => AdmissionView::Write,
            Admission::Evict { victims } => AdmissionView::Evict { victims: names(victims@) },
        }
    }
}

/// What the report of one deletion led to.
#[derive(Debug, Clone, PartialEq, Eq)]
pub struct Settled {
    /// The eviction to announce, where the file was deleted.
    pub notice: Option<Notice>,
    /// The key whose file is to be written now: the one that waited, once the
    /// last report is in and the blob fits.
    pub write: Option<String>,
    /// More keys whose files are to be deleted, and each outcome reported:
    /// the last report is in, but entries came back whose files could not be
    /// deleted, and the blob that waits does not fit beside them.
    pub victims: Vec<String>,
}

/// A [`Settled`] as a plain value.
pub struct SettledView {
    pub notice: Option<NoticeView>,
    pub write: Option<Seq<char>>,
    pub victims: Seq<Seq<char>>,
}

impl View for Settled {
    type V = SettledView;

    open spec fn view(&self) -> SettledView {
        SettledView {
            notice: match self.notice {
                Some(notice) => Some(notice@),
                None => None,
            },
            write: match self.write {
                Some(key) => Some(key@),
                None => None,
            },
            victims: names(self.victims@),
        }
    }
}

/// The strings of a vector as plain values.
pub open spec fn names(strings: Seq<String>) -> Seq<Seq<char>> {
    Seq::new(strings.len(), |i: int| strings[i]@)
}

/// The entries of a vector as plain values.
pub open spec fn entries_of(pairs: Seq<(String, u64)>) -> Entries {
    Seq::new(pairs.len(), |i: int| (pairs[i].0@, pairs[i].1))
}

/// The index as a plain value.
pub struct CacheState {
    /// The recorded blobs, least recently used first.
    pub entries: Entries,
    /// The number of bytes that the recorded blobs may add up to.
    pub capacity: u64,
    /// The size of an eviction batch, plus one.
    pub files_to_evict: u64,
    /// The victims whose files are not yet known to be deleted.
    pub evicting: Entries,
    /// The blob that waits for room.
    pub admitting: Option<Entry>,
}

impl CacheState {
    /// The bytes that the recorded blobs add up to.
    pub open spec fn size(self) -> int {
        total_size(self.entries)
    }

    /// No deletion is under way.
    pub open spec fn idle(self) -> bool {
        self.evicting.len() == 0
    }

    /// What holds of every index: no key is known twice; the recorded blobs
    /// are within the capacity, even with the victims counted in, unless
    /// there is one blob only; and a blob waits only while deletions are
    /// under way.
    pub open spec fn wf(self) -> bool {
        &&& distinct_keys(self.entries)
        &&& distinct_keys(self.evicting)
        &&& forall|key: Seq<char>| !(holds(self.entries, key) && holds(self.evicting, key))
        &&& (total_size(self.entries) + total_size(self.evicting) <= self.capacity
            || self.entries.len() + self.evicting.len() == 1)
        &&& total_size(self.entries) + total_size(self.evicting) <= usize::MAX
        &&& match self.admitting {
            Some((key, len)) => {
                &&& self.evicting.len() > 0
                &&& !holds(self.entries, key)
                &&& !holds(self.evicting, key)
                &&& total_size(self.entries) + total_size(self.evicting) + len <= usize::MAX
            },
            None => true,
        }
    }

    /// How many entries one eviction batch takes: `files_to_evict - 1`, or all
    /// there are if that is fewer.
    pub open spec fn batch(self) -> int {
        if self.files_to_evict <= 1 {
            0
        } else if self.files_to_evict - 1 <= self.entries.len() {
            self.files_to_evict - 1
        } else {
            self.entries.len() as int
        }
    }

    /// The index after `key` was used.
    pub open spec fn touched(self, key: Seq<char>) -> CacheState {
        CacheState { entries: refreshed(self.entries, key), ..self }
    }

    /// The index after its `n` least recently used entries have become
    /// victims.
    pub open spec fn departed(self, n: int) -> CacheState {
        CacheState {
            entries: self.entries.skip(n),
            evicting: self.evicting + self.entries.take(n),
            ..self
        }
    }

    /// The index after an eviction batch has begun.
    pub open spec fn evicting_begun(self) -> CacheState {
        self.departed(self.batch())
    }

    /// The index with `entry` recorded as the most recently used one.
    pub open spec fn recorded(self, entry: Entry) -> CacheState {
        CacheState { entries: self.entries.push(entry), ..self }
    }

    /// How many entries must go before a blob of `len` bytes is recorded:
    /// none where it is within the capacity together with those recorded;
    /// else one eviction batch, and after it as many more as are in the
    /// blob's way.
    pub open spec fn departures(self, len: u64) -> int {
        if self.size() + len > self.capacity {
            self.batch() + shortfall(self.entries.skip(self.batch()), len, self.capacity)
        } else {
            0
        }
    }

    /// `insert` where the key is recorded or no deletion is under way: the
    /// index afterwards, and what is to happen next.
    pub open spec fn inserted(self, key: Seq<char>, len: u64) -> (CacheState, AdmissionView) {
        if holds(self.entries, key) {
            (self, AdmissionView::Present)
        } else if self.departures(len) > 0 {
            (
                CacheState { admitting: Some((key, len)), ..self.departed(self.departures(len)) },
                AdmissionView::Evict {
                    victims: keys_of(self.entries.take(self.departures(len))),
                },
            )
        } else {
            (self.recorded((key, len)), AdmissionView::Write)
        }
    }

    /// The index after the report on `key`, before it is seen to the blob
    /// that waits: a victim whose file is gone is forgotten, one whose file
    /// could not be deleted is on record again, as the most recently used
    /// entry and with the size it had.
    pub open spec fn reported(self, key: Seq<char>, deleted: bool) -> CacheState {
        CacheState {
            entries: if deleted {
                self.entries
            } else {
                self.entries.push(self.evicting[index_of(self.evicting, key)])
            },
            evicting: self.evicting.remove(index_of(self.evicting, key)),
            ..self
        }
    }

    /// `evicted`: the index after the deletion of `key`'s file was reported,
    /// and what that led to.
    pub open spec fn settled(self, key: Seq<char>, deleted: bool) -> (CacheState, SettledView) {
        if !holds(self.evicting, key) {
            (self, SettledView { notice: None, write: None, victims: Seq::empty() })
        } else {
            let notice = if deleted {
                Some(NoticeView::Removed(key))
            } else {
                None
            };
            let after = self.reported(key, deleted);
            match self.admitting {
                Some(entry) if after.evicting.len() == 0 => {
                    let more = shortfall(after.entries, entry.1, self.capacity) as int;
                    if more == 0 {
                        (
                            CacheState { admitting: None, ..after.recorded(entry) },
                            SettledView { notice, write: Some(entry.0), victims: Seq::empty() },
                        )
                    } else {
                        (
                            after.departed(more),
                            SettledView {
                                notice,
                                write: None,
                                victims: keys_of(after.entries.take(more)),
                            },
                        )
                    }
                },
                _ => (after, SettledView { notice, write: None, victims: Seq::empty() }),
            }
        }
    }
}

impl CacheState {
    /// Victims are entries as they were: turning the least recently used
    /// entries into victims leaves a sound index, and loses none.
    pub proof fn lemma_departed(self, n: int)
        requires
            self.wf(),
            self.idle(),
            0 <= n <= self.entries.len(),
        ensures
            self.departed(n).wf(),
            self.departed(n).admitting is None,
            self.departed(n).evicting == self.entries.take(n),
            total_size(self.departed(n).entries) + total_size(self.departed(n).evicting)
                == total_size(self.entries),
            forall|key: Seq<char>|
                holds(self.entries, key) <==> holds(self.departed(n).entries, key) || holds(
                    self.departed(n).evicting,
                    key,
                ),
    {
        let after = self.departed(n);
        assert(self.evicting + self.entries.take(n) =~= self.entries.take(n));
        lemma_skip_keeps(self.entries, n);
        lemma_take_keeps(self.entries, n);
        assert forall|key: Seq<char>| holds(self.entries, key) implies holds(after.entries, key)
            || holds(after.evicting, key) by {
            let at = index_of(self.entries, key);
            if at < n {
                assert(after.evicting[at] == self.entries[at]);
            } else {
                assert(after.entries[at - n] == self.entries[at]);
            }
        }
    }

    /// Recording a new blob that fits, while no deletion is under way, leaves
    /// a sound index.
    pub proof fn lemma_recorded(self, entry: Entry)
        requires
            self.wf(),
            self.idle(),
            self.admitting is None,
            !holds(self.entries, entry.0),
            fits(self.entries, entry.1, self.capacity),
            total_size(self.entries) + entry.1 <= usize::MAX,
        ensures
            self.recorded(entry).wf(),
    {
        lemma_push_keeps(self.entries, entry);
        lemma_total_push(self.entries, entry);
        assert(total_size(self.evicting) == 0);
    }

    /// What the report on a victim leaves: a sound index, but for the blob
    /// that may wait though the last report is in. A victim that comes back
    /// fits where it was taken from.
    pub proof fn lemma_reported(self, key: Seq<char>, deleted: bool)
        requires
            self.wf(),
            holds(self.evicting, key),
        ensures
            (CacheState { admitting: None, ..self.reported(key, deleted) }).wf(),
            self.evicting[index_of(self.evicting, key)].0 == key,
            !holds(self.entries, key),
            fits(self.entries, self.evicting[index_of(self.evicting, key)].1, self.capacity),
            total_size(self.entries) + self.evicting[index_of(self.evicting, key)].1 <= usize::MAX,
            total_size(self.reported(key, deleted).entries) + total_size(
                self.reported(key, deleted).evicting,
            ) <= total_size(self.entries) + total_size(self.evicting),
            forall|k: Seq<char>|
                !holds(self.entries, k) && !holds(self.evicting, k) ==> !holds(
                    self.reported(key, deleted).entries,
                    k,
                ) && !holds(self.reported(key, deleted).evicting, k),
    {
        let at = index_of(self.evicting, key);
        let victim = self.evicting[at];
        let after = self.reported(key, deleted);
        lemma_remove_keeps(self.evicting, at);
        lemma_total_remove(self.evicting, at);
        lemma_total_nonnegative(after.evicting);
        lemma_total_nonnegative(self.entries);
        assert(holds(self.evicting, victim.0));
        if !deleted {
            lemma_push_keeps(self.entries, victim);
            lemma_total_push(self.entries, victim);
        }
        assert forall|k: Seq<char>| !(holds(after.entries, k) && holds(after.evicting, k)) by {
            if holds(after.evicting, k) {
                assert(holds(self.evicting, k));
                assert(!holds(self.entries, k));
            }
        }
    }

    /// The report of a deletion leaves a sound index.
    pub proof fn lemma_settled(self, key: Seq<char>, deleted: bool)
        requires
            self.wf(),
        ensures
            self.settled(key, deleted).0.wf(),
    {
        if holds(self.evicting, key) {
            self.lemma_reported(key, deleted);
            let after = self.reported(key, deleted);
            let calm = CacheState { admitting: None, ..after };
            match self.admitting {
                Some(entry) if after.evicting.len() == 0 => {
                    let more = shortfall(after.entries, entry.1, self.capacity) as int;
                    lemma_shortfall(after.entries, entry.1, self.capacity);
                    lemma_total_nonnegative(self.evicting);
                    if more == 0 {
                        calm.lemma_recorded(entry);
                        assert(self.settled(key, deleted).0 == calm.recorded(entry));
                    } else {
                        calm.lemma_departed(more);
                        assert(after.departed(more).entries == calm.departed(more).entries);
                        assert(after.departed(more).evicting == calm.departed(more).evicting);
                    }
                },
                _ => {},
            }
        }
    }

    /// `insert` leaves a sound index.
    pub proof fn lemma_inserted(self, key: Seq<char>, len: u64)
        requires
            self.wf(),
            !holds(self.entries, key) ==> self.idle() && self.size() + len <= usize::MAX,
        ensures
            self.inserted(key, len).0.wf(),
            0 <= self.departures(len) <= self.entries.len(),
            self.departures(len) == 0 ==> fits(self.entries, len, self.capacity),
    {
        let rest = self.entries.skip(self.batch());
        lemma_shortfall(rest, len, self.capacity);
        if self.departures(len) == 0 && self.size() + len > self.capacity {
            assert(rest =~= self.entries);
            assert(fits(rest, len, self.capacity));
        }
        if !holds(self.entries, key) {
            let n = self.departures(len);
            if n > 0 {
                self.lemma_departed(n);
            } else {
                self.lemma_recorded((key, len));
            }
        }
    }
}

impl CacheState {
    /// The recorded blobs never add up to more than the capacity, unless
    /// the only blob on record is itself larger than that.
    pub proof fn law_capacity_bound(self)
        requires
            self.wf(),
        ensures
            self.size() <= self.capacity || (self.entries.len() == 1 && self.entries[0].1
                > self.capacity),
    {
        lemma_total_nonnegative(self.evicting);
        lemma_total_nonnegative(self.entries);
        if self.entries.len() == 1 {
            lemma_total_single(self.entries);
        }
    }

    /// `insert` leaves a sound index, with the same capacity, that is within
    /// this capacity unless a single blob larger than that is all it holds.
    pub proof fn law_insert_sound(self, key: Seq<char>, len: u64)
        requires
            self.wf(),
            !holds(self.entries, key) ==> self.idle() && self.size() + len <= usize::MAX,
        ensures
            self.inserted(key, len).0.wf(),
            self.inserted(key, len).0.capacity == self.capacity,
            self.inserted(key, len).0.size() <= self.capacity || (self.inserted(
                key,
                len,
            ).0.entries.len() == 1 && self.inserted(key, len).0.entries[0].1 > self.capacity),
    {
        self.lemma_inserted(key, len);
        self.inserted(key, len).0.law_capacity_bound();
    }

    /// A key that was used is the most recently used one afterwards, and the
    /// use neither adds nor loses an entry.
    pub proof fn law_touch_recency(self, key: Seq<char>)
        requires
            self.wf(),
        ensures
            self.touched(key).wf(),
            self.touched(key).size() == self.size(),
            forall|k: Seq<char>| holds(self.touched(key).entries, k) <==> holds(self.entries, k),
            holds(self.entries, key) ==> self.touched(key).entries.last().0 == key,
    {
        lemma_refreshed(self.entries, key);
    }

    /// Victims are the least recently used entries: every entry that goes
    /// was used less recently than every entry that stays, and what goes and
    /// what stays is what was recorded. This holds of an eviction batch
    /// (`n` is `batch()`) and of what `insert` takes (`n` is `departures`).
    pub proof fn law_eviction_order(self, n: int)
        requires
            self.wf(),
            self.idle(),
            0 <= n <= self.entries.len(),
        ensures
            self.departed(n).wf(),
            self.departed(n).evicting + self.departed(n).entries == self.entries,
            self.departed(n).evicting.len() == n,
            forall|i: int| 0 <= i < n ==> self.departed(n).evicting[i] == self.entries[i],
            forall|i: int|
                n <= i < self.entries.len() ==> self.departed(n).entries[i - n] == self.entries[i],
    {
        self.lemma_departed(n);
        assert(self.entries.take(n) + self.entries.skip(n) =~= self.entries);
    }

    /// A batch of size zero (`files_to_evict` at most 1) takes nothing.
    pub proof fn law_empty_batch(self)
        requires
            self.idle(),
            self.files_to_evict <= 1,
        ensures
            self.evicting_begun() == self,
    {
        assert(self.entries.skip(0) =~= self.entries);
        assert(self.evicting + self.entries.take(0) =~= self.evicting);
    }

    /// No entry leaves the index on `insert` but as a victim that is named:
    /// every key that is recorded before and not after is among the victims.
    /// Where nothing is named, nothing has left.
    pub proof fn law_insert_names_every_departure(self, key: Seq<char>, len: u64, gone: Seq<char>)
        requires
            self.wf(),
            !holds(self.entries, key) ==> self.idle() && self.size() + len <= usize::MAX,
            holds(self.entries, gone),
            !holds(self.inserted(key, len).0.entries, gone),
        ensures
            self.inserted(key, len).1 matches AdmissionView::Evict { victims } && victims.contains(
                gone,
            ),
            holds(self.inserted(key, len).0.evicting, gone),
    {
        self.lemma_inserted(key, len);
        let n = self.departures(len);
        if n > 0 {
            self.lemma_departed(n);
            let victims = keys_of(self.entries.take(n));
            let at = index_of(self.entries.take(n), gone);
            assert(victims[at] == gone);
        } else {
            lemma_push_keeps(self.entries, (key, len));
        }
    }

    /// No entry leaves the index on a report but as a victim that is named:
    /// every key that is recorded before and not after is among the further
    /// victims that the report leads to.
    pub proof fn law_report_names_every_departure(
        self,
        key: Seq<char>,
        deleted: bool,
        gone: Seq<char>,
    )
        requires
            self.wf(),
            holds(self.entries, gone),
            !holds(self.settled(key, deleted).0.entries, gone),
        ensures
            self.settled(key, deleted).1.victims.contains(gone),
            holds(self.settled(key, deleted).0.evicting, gone),
    {
        if holds(self.evicting, key) {
            self.lemma_reported(key, deleted);
            let after = self.reported(key, deleted);
            let calm = CacheState { admitting: None, ..after };
            if !deleted {
                lemma_push_keeps(self.entries, self.evicting[index_of(self.evicting, key)]);
            }
            assert(holds(after.entries, gone));
            match self.admitting {
                Some(entry) if after.evicting.len() == 0 => {
                    let more = shortfall(after.entries, entry.1, self.capacity) as int;
                    lemma_shortfall(after.entries, entry.1, self.capacity);
                    if more == 0 {
                        lemma_push_keeps(after.entries, entry);
                    } else {
                        calm.lemma_departed(more);
                        assert(after.departed(more).entries == calm.departed(more).entries);
                        assert(after.departed(more).evicting == calm.departed(more).evicting);
                        let at = index_of(after.entries.take(more), gone);
                        assert(keys_of(after.entries.take(more))[at] == gone);
                    }
                },
                _ => {},
            }
        }
    }

    /// A second `insert` under a key changes nothing: once a blob is recorded
    /// under the key, the index keeps what it has, whatever the second blob's
    /// length. (Where `insert` makes room first, the blob is recorded later:
    /// see `law_settled_blob_is_on_record`.)
    pub proof fn law_insert_idempotent(self, key: Seq<char>, len: u64, other: u64)
        requires
            self.wf(),
            !holds(self.entries, key) ==> self.idle() && self.size() + len <= usize::MAX,
            !(self.inserted(key, len).1 is Evict),
        ensures
            self.inserted(key, len).1 is Write ==> self.inserted(key, len).0.entries.last() == (
                key,
                len,
            ),
            self.inserted(key, len).0.inserted(key, other) == (
                self.inserted(key, len).0,
                AdmissionView::Present,
            ),
    {
        if !holds(self.entries, key) {
            let after = self.inserted(key, len).0;
            assert(after.entries[after.entries.len() - 1].0 == key);
        }
    }

    /// The blob that waited is on record once its file is to be written, as
    /// the most recently used one; and an `insert` under its key changes
    /// nothing from then on.
    pub proof fn law_settled_blob_is_on_record(
        self,
        key: Seq<char>,
        deleted: bool,
        waiting: Entry,
        other: u64,
    )
        requires
            self.wf(),
            self.admitting == Some(waiting),
            self.settled(key, deleted).1.write is Some,
        ensures
            self.settled(key, deleted).1.write == Some(waiting.0),
            self.settled(key, deleted).0.idle(),
            self.settled(key, deleted).0.entries.last() == waiting,
            self.settled(key, deleted).0.inserted(waiting.0, other) == (
                self.settled(key, deleted).0,
                AdmissionView::Present,
            ),
    {
        let after = self.settled(key, deleted).0;
        assert(after.entries[after.entries.len() - 1].0 == waiting.0);
    }

    /// A blob larger than the capacity is accepted: on an empty index it is
    /// recorded at once, alone and with its true size, and its file is to be
    /// written.
    pub proof fn law_oversize_blob(self, key: Seq<char>, len: u64)
        requires
            self.wf(),
            self.idle(),
            self.entries.len() == 0,
            len > self.capacity,
        ensures
            self.inserted(key, len).1 is Write,
            self.inserted(key, len).0.entries == seq![(key, len)],
            self.inserted(key, len).0.size() == len,
    {
        assert(self.entries.skip(self.batch()) =~= self.entries);
        let after = self.inserted(key, len).0;
        assert(after.entries =~= seq![(key, len)]);
        lemma_total_single(after.entries);
    }

    /// Looking up a key whose file is gone answers "absent" and keeps the
    /// entry on record.
    pub proof fn law_missing_file<F>(self, key: Seq<char>)
        requires
            self.wf(),
        ensures
            lookup_result::<F>(Err(IoFailure::NotFound)) matches Ok(None),
            holds(self.entries, key) ==> holds(self.touched(key).entries, key),
            self.touched(key).entries.len() == self.entries.len(),
    {
        lemma_refreshed(self.entries, key);
    }
}

impl CacheState {
    /// The index agrees with the node's surroundings: every blob that is
    /// recorded, or that is a victim still, has its file of the recorded
    /// length and is advertised; and nothing else is advertised. `files`
    /// gives the length of each file in the cache's directory, `advertised`
    /// the keys that the notices so far have announced.
    pub open spec fn agrees(self, files: Map<Seq<char>, nat>, advertised: Set<Seq<char>>) -> bool {
        &&& forall|i: int|
            0 <= i < self.entries.len() ==> {
                &&& files.contains_key((#[trigger] self.entries[i]).0)
                &&& files[self.entries[i].0] == self.entries[i].1
                &&& advertised.contains(self.entries[i].0)
            }
        &&& forall|i: int|
            0 <= i < self.evicting.len() ==> {
                &&& files.contains_key((#[trigger] self.evicting[i]).0)
                &&& files[self.evicting[i].0] == self.evicting[i].1
                &&& advertised.contains(self.evicting[i].0)
            }
        &&& forall|key: Seq<char>|
            advertised.contains(key) ==> holds(self.entries, key) || holds(self.evicting, key)
    }

    /// Entries that become victims change nothing in the surroundings.
    proof fn lemma_departed_agrees(
        self,
        n: int,
        files: Map<Seq<char>, nat>,
        advertised: Set<Seq<char>>,
    )
        requires
            self.wf(),
            self.idle(),
            0 <= n <= self.entries.len(),
            self.agrees(files, advertised),
        ensures
            self.departed(n).agrees(files, advertised),
    {
        let after = self.departed(n);
        self.lemma_departed(n);
        assert forall|i: int| 0 <= i < after.entries.len() implies {
            &&& files.contains_key((#[trigger] after.entries[i]).0)
            &&& files[after.entries[i].0] == after.entries[i].1
            &&& advertised.contains(after.entries[i].0)
        } by {
            assert(after.entries[i] == self.entries[i + n]);
        }
        assert forall|i: int| 0 <= i < after.evicting.len() implies {
            &&& files.contains_key((#[trigger] after.evicting[i]).0)
            &&& files[after.evicting[i].0] == after.evicting[i].1
            &&& advertised.contains(after.evicting[i].0)
        } by {
            assert(after.evicting[i] == self.entries[i]);
        }
    }

    /// A blob that is recorded, written and announced keeps the agreement.
    proof fn lemma_recorded_agrees(
        self,
        entry: Entry,
        files: Map<Seq<char>, nat>,
        advertised: Set<Seq<char>>,
    )
        requires
            distinct_keys(self.entries),
            !holds(self.entries, entry.0),
            !holds(self.evicting, entry.0),
            self.agrees(files, advertised),
        ensures
            self.recorded(entry).agrees(
                files.insert(entry.0, entry.1 as nat),
                advertised.insert(entry.0),
            ),
    {
        let after = self.recorded(entry);
        lemma_push_keeps(self.entries, entry);
        assert forall|i: int| 0 <= i < after.entries.len() implies {
            &&& files.insert(entry.0, entry.1 as nat).contains_key((#[trigger] after.entries[i]).0)
            &&& files.insert(entry.0, entry.1 as nat)[after.entries[i].0] == after.entries[i].1
            &&& advertised.insert(entry.0).contains(after.entries[i].0)
        } by {
            if i < self.entries.len() {
                assert(after.entries[i] == self.entries[i]);
                assert(holds(self.entries, self.entries[i].0));
            }
        }
        assert forall|i: int| 0 <= i < after.evicting.len() implies {
            &&& files.insert(entry.0, entry.1 as nat).contains_key((#[trigger] after.evicting[i]).0)
            &&& files.insert(entry.0, entry.1 as nat)[after.evicting[i].0] == after.evicting[i].1
            &&& advertised.insert(entry.0).contains(after.evicting[i].0)
        } by {
            assert(holds(self.evicting, self.evicting[i].0));
        }
    }

    /// Between two operations, when no deletion is under way, agreement means
    /// that the advertised keys are the recorded ones, and that each recorded
    /// blob has its file of the recorded length.
    pub proof fn law_agreement_at_rest(
        self,
        files: Map<Seq<char>, nat>,
        advertised: Set<Seq<char>>,
        key: Seq<char>,
    )
        requires
            self.idle(),
            self.agrees(files, advertised),
        ensures
            advertised.contains(key) <==> holds(self.entries, key),
            holds(self.entries, key) ==> files.contains_key(key) && files[key]
                == self.entries[index_of(self.entries, key)].1,
    {
        if holds(self.entries, key) {
            let at = index_of(self.entries, key);
            assert(advertised.contains(self.entries[at].0));
        }
        if advertised.contains(key) && holds(self.evicting, key) {
            assert(self.evicting.len() > 0);
        }
    }

    /// Every `insert` keeps the index in agreement with its surroundings, as
    /// long as what it asks for is done: where the file is to be written, it
    /// is written with the blob's length, and the notice that `written` gives
    /// is announced.
    pub proof fn law_insert_keeps_agreement(
        self,
        files: Map<Seq<char>, nat>,
        advertised: Set<Seq<char>>,
        key: Seq<char>,
        len: u64,
    )
        requires
            self.wf(),
            !holds(self.entries, key) ==> self.idle() && self.size() + len <= usize::MAX,
            self.agrees(files, advertised),
        ensures
            write_result(key, Ok(())) matches Ok(NoticeView::Added(announced)) && announced == key,
            match self.inserted(key, len).1 {
                AdmissionView::Write => self.inserted(key, len).0.agrees(
                    files.insert(key, len as nat),
                    advertised.insert(key),
                ),
                _ => self.inserted(key, len).0.agrees(files, advertised),
            },
    {
        self.lemma_inserted(key, len);
        if !holds(self.entries, key) {
            let n = self.departures(len);
            if n > 0 {
                self.lemma_departed_agrees(n, files, advertised);
            } else {
                self.lemma_recorded_agrees((key, len), files, advertised);
            }
        }
    }

    /// Every report of a deletion keeps the index in agreement with its
    /// surroundings, as long as the report is true (the file is gone exactly
    /// where it says so), the notice is announced, and the blob that waited,
    /// where its file is to be written now, is written and announced. A
    /// deletion that failed breaks nothing: the entry is on record again, and
    /// its file is still there.
    pub proof fn law_report_keeps_agreement(
        self,
        files: Map<Seq<char>, nat>,
        advertised: Set<Seq<char>>,
        key: Seq<char>,
        deleted: bool,
    )
        requires
            self.wf(),
            self.agrees(files, advertised),
            holds(self.evicting, key),
        ensures
            self.settled(key, deleted).1.notice == (if deleted {
                Some(NoticeView::Removed(key))
            } else {
                None
            }),
            match (self.admitting, self.settled(key, deleted).1.write) {
                (Some(waiting), Some(written)) => written == waiting.0 && self.settled(
                    key,
                    deleted,
                ).0.agrees(
                    (if deleted {
                        files.remove(key)
                    } else {
                        files
                    }).insert(waiting.0, waiting.1 as nat),
                    (if deleted {
                        advertised.remove(key)
                    } else {
                        advertised
                    }).insert(waiting.0),
                ),
                _ => self.settled(key, deleted).0.agrees(
                    if deleted {
                        files.remove(key)
                    } else {
                        files
                    },
                    if deleted {
                        advertised.remove(key)
                    } else {
                        advertised
                    },
                ),
            },
    {
        let at = index_of(self.evicting, key);
        let victim = self.evicting[at];
        let after = self.reported(key, deleted);
        let calm = CacheState { admitting: None, ..after };
        let files1 = if deleted {
            files.remove(key)
        } else {
            files
        };
        let advertised1 = if deleted {
            advertised.remove(key)
        } else {
            advertised
        };
        self.lemma_reported(key, deleted);
        lemma_remove_keeps(self.evicting, at);
        if !deleted {
            lemma_push_keeps(self.entries, victim);
        }
        assert forall|i: int| 0 <= i < after.entries.len() implies {
            &&& files1.contains_key((#[trigger] after.entries[i]).0)
            &&& files1[after.entries[i].0] == after.entries[i].1
            &&& advertised1.contains(after.entries[i].0)
        } by {
            if i < self.entries.len() {
                assert(after.entries[i] == self.entries[i]);
                assert(holds(self.entries, self.entries[i].0));
            } else {
                assert(after.entries[i] == self.evicting[at]);
            }
        }
        assert forall|i: int| 0 <= i < after.evicting.len() implies {
            &&& files1.contains_key((#[trigger] after.evicting[i]).0)
            &&& files1[after.evicting[i].0] == after.evicting[i].1
            &&& advertised1.contains(after.evicting[i].0)
        } by {
            let from = if i < at {
                i
            } else {
                i + 1
            };
            assert(after.evicting[i] == self.evicting[from]);
            assert(holds(after.evicting, after.evicting[i].0));
        }
        assert forall|k: Seq<char>| advertised1.contains(k) implies holds(after.entries, k)
            || holds(after.evicting, k) by {
            if holds(self.entries, k) {
                let p = index_of(self.entries, k);
                assert(after.entries[p] == self.entries[p]);
            } else {
                assert(holds(self.evicting, k));
                if k == key {
                    assert(!deleted);
                    assert(after.entries[self.entries.len() as int].0 == k);
                }
            }
        }
        assert(calm.agrees(files1, advertised1));
        match self.admitting {
            Some(entry) if after.evicting.len() == 0 => {
                let more = shortfall(after.entries, entry.1, self.capacity) as int;
                lemma_shortfall(after.entries, entry.1, self.capacity);
                if more == 0 {
                    calm.lemma_recorded_agrees(entry, files1, advertised1);
                    assert(self.settled(key, deleted).0.entries == calm.recorded(entry).entries);
                } else {
                    calm.lemma_departed_agrees(more, files1, advertised1);
                    assert(after.departed(more).entries == calm.departed(more).entries);
                    assert(after.departed(more).evicting == calm.departed(more).evicting);
                }
            },
            _ => {},
        }
    }
}

/// What `get` returns for what came of opening the file: the file; nothing,
/// where there is no such file; the failure otherwise.
pub open spec fn lookup_result<F>(opened: Result<F, IoFailure>) -> Result<Option<F>, DiscaError> {
    match opened {
        Ok(file) => Ok(Some(file)),
        Err(IoFailure::NotFound) => Ok(None),
        Err(failure) => Err(DiscaError::Io(failure)),
    }
}

/// What `written` returns for what came of writing the file.
pub open spec fn write_result(key: Seq<char>, outcome: Result<(), IoFailure>) -> Result<
    NoticeView,
    DiscaError,
> {
    match outcome {
        Ok(()) => Ok(NoticeView::Added(key)),
        Err(failure) => Err(DiscaError::Io(failure)),
    }
}

/// The index of the blobs on disk: which are there, how large each is, and
/// which was used last.
pub struct DiskCache {
    /// The recorded blobs that are no larger than the capacity.
    lru: LruIndex,
    /// The recorded blob that is larger than the capacity, which the bounded
    /// index above cannot hold. While there is one, it is the only one.
    oversize: Option<(String, u64)>,
    files_to_evict: u64,
    evicting: Vec<(String, u64)>,
    admitting: Option<(String, u64)>,
}

impl View for DiskCache {
    type V = CacheState;

    closed spec fn view(&self) -> CacheState {
        CacheState {
            entries: match self.oversize {
                Some((key, len)) => seq![(key@, len)],
                None => lru_entries(self.lru),
            },
            capacity: lru_capacity(self.lru),
            files_to_evict: self.files_to_evict,
            evicting: entries_of(self.evicting@),
            admitting: match self.admitting {
                Some((key, len)) => Some((key@, len)),
                None => None,
            },
        }
    }
}

impl DiskCache {
    /// How the recorded blobs are kept: those within the capacity in the
    /// bounded index, the one beyond it apart and alone.
    closed spec fn kept_right(&self) -> bool {
        &&& within_usize(lru_entries(self.lru))
        &&& match self.oversize {
            Some((_, len)) => lru_entries(self.lru).len() == 0 && len > lru_capacity(self.lru),
            None => true,
        }
    }

    /// The index is sound: what `CacheState::wf` says holds of it.
    pub closed spec fn wf(&self) -> bool {
        self.kept_right() && self@.wf()
    }

    /// A sound index is sound as a plain value.
    pub proof fn lemma_wf(&self)
        requires
            self.wf(),
        ensures
            self@.wf(),
    {
    }

    /// An empty index for `capacity` bytes, whose eviction batches take up to
    /// `files_to_evict - 1` entries.
    pub fn new(files_to_evict: u64, capacity: u64) -> (cache: Self)
        ensures
            cache.wf(),
            cache@ == (CacheState {
                entries: Seq::empty(),
                capacity,
                files_to_evict,
                evicting: Seq::empty(),
                admitting: None,
            }),
    {
        let cache = DiskCache {
            lru: lru_with_meter(capacity),
            oversize: None,
            files_to_evict,
            evicting: Vec::new(),
            admitting: None,
        };
        assert(cache@.entries =~= Seq::empty());
        assert(cache@.evicting =~= Seq::empty());
        cache
    }

    /// The bytes that the recorded blobs add up to, however the blobs are
    /// kept.
    fn recorded_size(&self) -> (size: u64)
        requires
            self.kept_right(),
        ensures
            size == self@.size(),
    {
        match &self.oversize {
            Some(blob) => {
                proof {
                    lemma_total_single(self@.entries);
                }
                blob.1
            },
            None => lru_size(&self.lru),
        }
    }

    /// The bytes that the recorded blobs add up to.
    pub fn size(&self) -> (size: u64)
        requires
            self.wf(),
        ensures
            size == self@.size(),
    {
        self.recorded_size()
    }

    /// The number of bytes that the recorded blobs may add up to.
    pub fn capacity(&self) -> (capacity: u64)
        ensures
            capacity == self@.capacity,
    {
        lru_capacity_of(&self.lru)
    }

    /// Whether a blob is recorded under `key`. This is no use of the key.
    pub fn contains_key(&self, key: &str) -> (found: bool)
        ensures
            found == holds(self@.entries, key@),
    {
        match &self.oversize {
            Some(blob) => {
                let wanted = key.to_owned();
                proof {
                    if holds(self@.entries, key@) {
                        assert(index_of(self@.entries, key@) == 0);
                    }
                    if blob.0@ == key@ {
                        assert(self@.entries[0].0 == key@);
                    }
                }
                blob.0 == wanted
            },
            None => lru_contains_key(&self.lru, key),
        }
    }

    /// Whether no deletion is under way.
    pub fn is_idle(&self) -> (idle: bool)
        ensures
            idle == self@.idle(),
    {
        self.evicting.len() == 0
    }

    /// Marks `key` as the most recently used, if it is recorded; nothing
    /// happens if it is not.
    pub fn touch(&mut self, key: &str)
        requires
            old(self).wf(),
        ensures
            final(self).wf(),
            final(self)@ == old(self)@.touched(key@),
    {
        proof {
            lemma_refreshed(self@.entries, key@);
        }
        if self.oversize.is_some() {
            proof {
                let entries = self@.entries;
                if holds(entries, key@) {
                    assert(index_of(entries, key@) == 0);
                    assert(entries.remove(0).push(entries[0]) =~= entries);
                }
            }
        } else {
            lru_get(&mut self.lru, key);
        }
    }

    /// Looks `key` up: marks it as the most recently used, and turns what came
    /// of opening its file into the answer. A file that is not there is no
    /// failure: the answer is then `None`, and the entry stays recorded.
    pub fn get<F>(&mut self, key: &str, opened: Result<F, IoFailure>) -> (found: Result<
        Option<F>,
        DiscaError,
    >)
        requires
            old(self).wf(),
        ensures
            final(self).wf(),
            final(self)@ == old(self)@.touched(key@),
            found == lookup_result(opened),
    {
        self.touch(key);
        match opened {
            Ok(file) => Ok(Some(file)),
            Err(IoFailure::NotFound) => Ok(None),
            Err(failure) => Err(DiscaError::Io(failure)),
        }
    }

    /// Takes the least recently used entry off the record, if there is one.
    fn take_oldest(&mut self) -> (oldest: Option<(String, u64)>)
        requires
            old(self).kept_right(),
        ensures
            final(self).kept_right(),
            match oldest {
                Some((key, size)) => {
                    &&& old(self)@.entries.len() > 0
                    &&& (key@, size) == old(self)@.entries[0]
                    &&& final(self)@ == (CacheState {
                        entries: old(self)@.entries.drop_first(),
                        ..old(self)@
                    })
                },
                None => old(self)@.entries.len() == 0 && final(self)@ == old(self)@,
            },
    {
        if self.oversize.is_some() {
            let oldest = self.oversize.take();
            assert(self@.entries =~= old(self)@.entries.drop_first());
            oldest
        } else {
            proof {
                if lru_entries(self.lru).len() > 0 {
                    lemma_total_drop_first(lru_entries(self.lru));
                }
            }
            lru_remove_lru(&mut self.lru)
        }
    }

    /// Makes the least recently used entry a victim and names it.
    fn depart(&mut self, victims: &mut Vec<String>) -> (gone: bool)
        requires
            old(self).kept_right(),
        ensures
            final(self).kept_right(),
            gone == (old(self)@.entries.len() > 0),
            gone ==> final(self)@ == (CacheState {
                entries: old(self)@.entries.drop_first(),
                evicting: old(self)@.evicting.push(old(self)@.entries[0]),
                ..old(self)@
            }) && names(final(victims)@) == names(old(victims)@).push(old(self)@.entries[0].0),
            !gone ==> final(self)@ == old(self)@ && final(victims)@ == old(victims)@,
    {
        match self.take_oldest() {
            Some((key, size)) => {
                victims.push(key.clone());
                self.evicting.push((key, size));
                assert(self@.evicting =~= old(self)@.evicting.push(old(self)@.entries[0]));
                assert(names(victims@) =~= names(old(victims)@).push(old(self)@.entries[0].0));
                true
            },
            None => false,
        }
    }

    /// Begins an eviction batch: the least recently used entries, up to
    /// `files_to_evict - 1` of them, become victims. Their files are to be
    /// deleted, and each outcome reported with `evicted`.
    pub fn evict(&mut self) -> (victims: Vec<String>)
        requires
            old(self).wf(),
            old(self)@.idle(),
        ensures
            final(self).wf(),
            final(self)@ == old(self)@.evicting_begun(),
            names(victims@) == keys_of(final(self)@.evicting),
    {
        let ghost before = self@;
        let mut victims: Vec<String> = Vec::new();
        let mut round: u64 = 1;
        assert(before.entries.skip(0) =~= before.entries);
        assert(before.entries.take(0) =~= self@.evicting);
        assert(names(victims@) =~= keys_of(before.entries.take(0)));
        while round < self.files_to_evict
            invariant_except_break
                victims.len() == round - 1,
            invariant
                1 <= round,
                round <= self.files_to_evict || round == 1,
                victims.len() <= round - 1,
                victims.len() <= before.entries.len(),
                before == old(self)@,
                before.idle(),
                self.kept_right(),
                self@ == (CacheState {
                    entries: before.entries.skip(victims.len() as int),
                    evicting: before.entries.take(victims.len() as int),
                    ..before
                }),
                names(victims@) == keys_of(before.entries.take(victims.len() as int)),
            ensures
                victims.len() == before.batch(),
            decreases self.files_to_evict - round,
        {
            let ghost taken = victims.len() as int;
            if !self.depart(&mut victims) {
                break ;
            }
            proof {
                let rest = before.entries.skip(taken);
                assert(rest[0] == before.entries[taken]);
                assert(rest.drop_first() =~= before.entries.skip(taken + 1));
                assert(before.entries.take(taken).push(before.entries[taken])
                    =~= before.entries.take(taken + 1));
                assert(keys_of(before.entries.take(taken)).push(before.entries[taken].0)
                    =~= keys_of(before.entries.take(taken + 1)));
                assert(names(victims@).len() == taken + 1);
            }
            round += 1;
        }
        proof {
            before.lemma_departed(before.batch());
        }
        victims
    }

    /// Makes room for a blob of `len` bytes: least recently used entries
    /// become victims, one by one, until the blob fits.
    fn make_room(&mut self, len: u64, victims: &mut Vec<String>)
        requires
            old(self).kept_right(),
        ensures
            final(self).kept_right(),
            final(self)@ == old(self)@.departed(
                shortfall(old(self)@.entries, len, old(self)@.capacity) as int,
            ),
            names(final(victims)@) == names(old(victims)@) + keys_of(
                old(self)@.entries.take(
                    shortfall(old(self)@.entries, len, old(self)@.capacity) as int,
                ),
            ),
            shortfall(old(self)@.entries, len, old(self)@.capacity) <= old(self)@.entries.len(),
            fits(final(self)@.entries, len, old(self)@.capacity),
    {
        let ghost before = self@;
        let ghost named = names(victims@);
        let ghost mut taken: int = 0;
        let capacity = lru_capacity_of(&self.lru);
        proof {
            lemma_shortfall(before.entries, len, before.capacity);
            assert(before.entries.skip(0) =~= before.entries);
            assert(before.evicting + before.entries.take(0) =~= before.evicting);
            assert(named + keys_of(before.entries.take(0)) =~= named);
        }
        loop
            invariant_except_break
                0 <= taken <= before.entries.len(),
                shortfall(before.entries, len, before.capacity) == taken + shortfall(
                    before.entries.skip(taken),
                    len,
                    before.capacity,
                ),
            invariant
                before == old(self)@,
                named == names(old(victims)@),
                capacity == before.capacity,
                self.kept_right(),
                self@ == before.departed(taken),
                names(victims@) == named + keys_of(before.entries.take(taken)),
            ensures
                taken == shortfall(before.entries, len, before.capacity),
                fits(self@.entries, len, before.capacity),
                0 <= taken <= before.entries.len(),
            decreases before.entries.len() - taken,
        {
            let size = self.recorded_size();
            if len <= capacity && size <= capacity - len {
                break ;
            }
            let ghost now = self@;
            let ghost so_far = names(victims@);
            if !self.depart(victims) {
                break ;
            }
            proof {
                let rest = before.entries.skip(taken);
                assert(rest[0] == before.entries[taken]);
                assert(rest.drop_first() =~= before.entries.skip(taken + 1));
                assert(now.evicting.push(before.entries[taken]) =~= before.evicting
                    + before.entries.take(taken + 1));
                assert(so_far.push(before.entries[taken].0) =~= named + keys_of(
                    before.entries.take(taken + 1),
                ));
                taken = taken + 1;
            }
        }
    }

    /// Puts a blob on record as the most recently used one: in the bounded
    /// index where the capacity holds it, apart where it does not.
    fn record(&mut self, key: String, len: u64)
        requires
            old(self).kept_right(),
            !holds(old(self)@.entries, key@),
            fits(old(self)@.entries, len, old(self)@.capacity),
            old(self)@.size() + len <= usize::MAX,
        ensures
            final(self).kept_right(),
            final(self)@ == old(self)@.recorded((key@, len)),
    {
        let capacity = lru_capacity_of(&self.lru);
        proof {
            let entries = self@.entries;
            lemma_total_nonnegative(entries);
            if self.oversize is Some {
                lemma_total_single(entries);
            }
            assert(self.oversize is None);
            assert(entries == lru_entries(self.lru));
            lemma_total_push(entries, (key@, len));
            lemma_fitted(entries.push((key@, len)), capacity as int);
        }
        if len > capacity {
            self.oversize = Some((key, len));
            assert(self@.entries =~= old(self)@.entries.push((key@, len)));
        } else {
            lru_insert(&mut self.lru, key, len);
        }
    }

    /// Admits a blob of `buf`'s length under `key`. A key that is recorded
    /// already is left as it is. Otherwise the blob is recorded as the most
    /// recently used one, with its length. Where it is not within the
    /// capacity together with the blobs on record, room is made first: one
    /// eviction batch goes, and after it whatever else is in the blob's way;
    /// the blob then waits until the victims' files are dealt with. A blob
    /// larger than the capacity is accepted all the same, and is then the
    /// only one on record.
    pub fn insert(&mut self, key: &str, buf: &[u8]) -> (admission: Admission)
        requires
            old(self).wf(),
            !holds(old(self)@.entries, key@) ==> old(self)@.idle() && old(self)@.size()
                + buf@.len() <= usize::MAX,
        ensures
            final(self).wf(),
            (final(self)@, admission@) == old(self)@.inserted(key@, buf@.len() as u64),
    {
        let ghost before = self@;
        if self.contains_key(key) {
            return Admission::Present;
        }
        let len = buf.len() as u64;
        let capacity = lru_capacity_of(&self.lru);
        let size = self.recorded_size();
        let mut victims: Vec<String> = Vec::new();
        proof {
            before.lemma_inserted(key@, len);
            assert(names(victims@) =~= Seq::empty());
        }
        if len > capacity || size > capacity - len {
            victims = self.evict();
            let ghost begun = self@;
            self.make_room(len, &mut victims);
            proof {
                let batch = before.batch();
                let more = shortfall(begun.entries, len, capacity) as int;
                before.lemma_departed(batch);
                assert(begun.entries.skip(more) =~= before.entries.skip(batch + more));
                assert(begun.evicting + begun.entries.take(more) =~= before.evicting
                    + before.entries.take(batch + more));
                assert(keys_of(begun.evicting) + keys_of(begun.entries.take(more)) =~= keys_of(
                    before.entries.take(batch + more),
                ));
                assert(names(victims@).len() == batch + more);
                assert(self@ == before.departed(batch + more));
            }
        }
        if victims.len() > 0 {
            self.admitting = Some((key.to_owned(), len));
            Admission::Evict { victims }
        } else {
            proof {
                assert(before.entries.skip(0) =~= before.entries);
                assert(before.evicting + before.entries.take(0) =~= before.evicting);
                assert(self@ == before);
            }
            self.record(key.to_owned(), len);
            Admission::Write
        }
    }

    /// Takes the report on one victim. Where `key`'s file was deleted, the
    /// eviction is to be announced; where it was not, the entry is recorded
    /// again with the size it had, now as the most recently used one. When
    /// the last report is in, it is seen to the blob that waits: where it
    /// fits, it is recorded and its file is to be written; where entries that
    /// came back are in its way, more victims are named, and it waits on. A
    /// key that is no victim changes nothing.
    pub fn evicted(&mut self, key: &str, deleted: bool) -> (settled: Settled)
        requires
            old(self).wf(),
        ensures
            final(self).wf(),
            (final(self)@, settled@) == old(self)@.settled(key@, deleted),
    {
        let ghost before = self@;
        let wanted = key.to_owned();
        let mut at: usize = 0;
        while at < self.evicting.len()
            invariant
                at <= self.evicting.len(),
                self@ == before,
                self.wf(),
                wanted@ == key@,
                forall|j: int| 0 <= j < at ==> (#[trigger] before.evicting[j]).0 != key@,
            ensures
                at < self.evicting.len() ==> before.evicting[at as int].0 == key@,
            decreases self.evicting.len() - at,
        {
            if self.evicting[at].0 == wanted {
                break ;
            }
            at += 1;
        }
        let mut victims: Vec<String> = Vec::new();
        assert(names(victims@) =~= Seq::empty());
        if at == self.evicting.len() {
            return Settled { notice: None, write: None, victims };
        }
        proof {
            lemma_index_of(before.evicting, key@, at as int);
            before.lemma_reported(key@, deleted);
            before.lemma_settled(key@, deleted);
            lemma_total_nonnegative(before.evicting);
        }
        let ghost after = before.reported(key@, deleted);
        let (name, size) = self.evicting.remove(at);
        assert(self@.evicting =~= before.evicting.remove(at as int));
        let notice = if deleted {
            Some(Notice::Removed(name))
        } else {
            self.record(name, size);
            None
        };
        assert(self@ == after);
        let mut write: Option<String> = None;
        if self.evicting.len() == 0 {
            match self.admitting.take() {
                Some((waiting, len)) => {
                    let ghost calm = self@;
                    self.make_room(len, &mut victims);
                    proof {
                        let more = shortfall(after.entries, len, before.capacity) as int;
                        assert(names(victims@).len() == more);
                        assert(names(victims@) =~= keys_of(after.entries.take(more)));
                        assert(calm.departed(more).entries == after.departed(more).entries);
                        assert(calm.departed(more).evicting == after.departed(more).evicting);
                        if more == 0 {
                            assert(after.entries.skip(0) =~= after.entries);
                            assert(after.evicting + after.entries.take(0) =~= after.evicting);
                        }
                    }
                    if victims.len() == 0 {
                        self.record(waiting.clone(), len);
                        write = Some(waiting);
                    } else {
                        self.admitting = Some((waiting, len));
                    }
                },
                None => {},
            }
        }
        Settled { notice, write, victims }
    }

    /// Turns what came of writing `key`'s file into what follows: the notice
    /// that the blob was added, or the failure. The index keeps the entry
    /// either way.
    pub fn written(&self, key: &str, outcome: Result<(), IoFailure>) -> (announce: Result<
        Notice,
        DiscaError,
    >)
        ensures
            match announce {
                Ok(notice) => Ok(notice@),
                Err(failure) => Err(failure),
            } == write_result(key@, outcome),
    {
        match outcome {
            Ok(()) => Ok(Notice::Added(key.to_owned())),
            Err(failure) => Err(DiscaError::Io(failure)),
        }
    }
}

} // verus!
