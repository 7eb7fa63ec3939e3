//! The recency index itself: `sccache`'s `LruCache`, measured in bytes by
//! [`DiskCacheMeter`]. Verus does not see inside it. What the rest of the
//! library knows of it is what the functions of this file state.

use crate::disk_cache::DiskCacheMeter;
use crate::recency::{fitted, holds, index_of, refreshed, total_size, within_usize};
use sccache::lru_disk_cache::LruCache;
use std::collections::hash_map::RandomState;
use vstd::prelude::*;

verus! {

/// An `LruCache` from blob names to blob sizes.
///
/// Verus cannot be told of the `LruCache` type directly, since its
/// declaration is bounded by a trait of `sccache`; so it is held here, out of
/// Verus's sight.
#[verifier::external_body]
pub struct LruIndex {
    inner: LruCache<String, u64, RandomState, DiskCacheMeter>,
}

/// The entries that an index holds, least recently used first.
pub uninterp spec fn lru_entries(index: LruIndex) -> Seq<(Seq<char>, u64)>;

/// The number of bytes that an index was made to hold.
pub uninterp spec fn lru_capacity(index: LruIndex) -> u64;

/// `LruCache::with_meter`: an empty index for `capacity` bytes.
#[verifier::external_body]
pub(crate) fn lru_with_meter(capacity: u64) -> (index: LruIndex)
    ensures
        lru_entries(index).len() == 0,
        lru_capacity(index) == capacity,
{
    LruIndex { inner: LruCache::with_meter(capacity, DiskCacheMeter {  }) }
}

/// `LruCache::capacity`: the limit that the index was made with.
#[verifier::external_body]
pub(crate) fn lru_capacity_of(index: &LruIndex) -> (capacity: u64)
    ensures
        capacity == lru_capacity(*index),
{
    index.inner.capacity()
}

/// `LruCache::size`: the sum of the recorded sizes. The cache keeps that sum
/// in a `usize`, so the claim is made only of entries that fit one.
#[verifier::external_body]
pub(crate) fn lru_size(index: &LruIndex) -> (size: u64)
    requires
        within_usize(lru_entries(*index)),
    ensures
        size == total_size(lru_entries(*index)),
{
    index.inner.size()
}

/// `LruCache::contains_key`: whether an entry is recorded under `key`. The
/// order of the entries stays as it is.
#[verifier::external_body]
pub(crate) fn lru_contains_key(index: &LruIndex, key: &str) -> (found: bool)
    ensures
        found == holds(lru_entries(*index), key@),
{
    index.inner.contains_key(key)
}

/// `LruCache::get`: the size recorded under `key`, if any; the entry found
/// becomes the most recently used one.
#[verifier::external_body]
pub(crate) fn lru_get(index: &mut LruIndex, key: &str) -> (size: Option<u64>)
    ensures
        lru_entries(*final(index)) == refreshed(lru_entries(*old(index)), key@),
        lru_capacity(*final(index)) == lru_capacity(*old(index)),
        size == if holds(lru_entries(*old(index)), key@) {
            Some(lru_entries(*old(index))[index_of(lru_entries(*old(index)), key@)].1)
        } else {
            None
        },
{
    index.inner.get(key).copied()
}

/// `LruCache::insert`, for a key that the index does not hold: the new entry
/// becomes the most recently used one, and then least recently used entries
/// leave until the index is within its capacity again (the new entry too, if
/// it alone is larger than that). The cache adds the sizes up in a `usize`:
/// the sum must fit one.
#[verifier::external_body]
pub(crate) fn lru_insert(index: &mut LruIndex, key: String, size: u64)
    requires
        !holds(lru_entries(*old(index)), key@),
        within_usize(lru_entries(*old(index))),
        total_size(lru_entries(*old(index))) + size <= usize::MAX,
    ensures
        lru_entries(*final(index)) == fitted(
            lru_entries(*old(index)).push((key@, size)),
            lru_capacity(*old(index)) as int,
        ),
        lru_capacity(*final(index)) == lru_capacity(*old(index)),
{
    index.inner.insert(key, size);
}

/// `LruCache::remove_lru`: the least recently used entry leaves the index and
/// is handed out; `None` where the index is empty.
#[verifier::external_body]
pub(crate) fn lru_remove_lru(index: &mut LruIndex) -> (removed: Option<(String, u64)>)
    ensures
        lru_capacity(*final(index)) == lru_capacity(*old(index)),
        match removed {
            Some((key, size)) => {
                &&& lru_entries(*old(index)).len() > 0
                &&& (key@, size) == lru_entries(*old(index))[0]
                &&& lru_entries(*final(index)) == lru_entries(*old(index)).drop_first()
            },
            None => {
                &&& lru_entries(*old(index)).len() == 0
                &&& lru_entries(*final(index)) == lru_entries(*old(index))
            },
        },
{
    index.inner.remove_lru()
}

} // verus!
