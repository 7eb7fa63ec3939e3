use disca::disk_cache::{Admission, DiskCache, Notice, Settled};
use disca::{DiscaError, IoFailure};

fn store(cache: &mut DiskCache, key: &str, bytes: &[u8]) -> Admission {
    assert!(cache.contains_key(key) || cache.is_idle());
    cache.insert(key, bytes)
}

fn gone(key: &str) -> Option<Notice> {
    Some(Notice::Removed(key.to_string()))
}

fn victims(names: &[&str]) -> Admission {
    Admission::Evict { victims: names.iter().map(|name| name.to_string()).collect() }
}

fn three_blobs(files_to_evict: u64) -> DiskCache {
    let mut cache = DiskCache::new(files_to_evict, 10);
    assert_eq!(store(&mut cache, "a", b"AAA"), Admission::Write);
    assert_eq!(store(&mut cache, "b", b"BBB"), Admission::Write);
    assert_eq!(store(&mut cache, "c", b"CCC"), Admission::Write);
    cache
}

#[test]
fn new_cache_is_empty_and_idle() {
    let cache = DiskCache::new(3, 10);
    assert_eq!(cache.size(), 0);
    assert_eq!(cache.capacity(), 10);
    assert!(cache.is_idle());
    assert!(!cache.contains_key("a"));
}

#[test]
fn insert_records_the_length() {
    let mut cache = DiskCache::new(10, 100);
    assert_eq!(store(&mut cache, "hello", b"world"), Admission::Write);
    assert_eq!(cache.size(), 5);
    assert!(cache.contains_key("hello"));
    assert_eq!(
        cache.written("hello", Ok(())),
        Ok(Notice::Added("hello".to_string()))
    );
}

#[test]
fn second_insert_under_a_key_changes_nothing() {
    let mut cache = DiskCache::new(10, 100);
    assert_eq!(store(&mut cache, "k", b"V1"), Admission::Write);
    assert_eq!(store(&mut cache, "k", b"a longer second value"), Admission::Present);
    assert_eq!(cache.size(), 2);
    assert!(cache.is_idle());
}

#[test]
fn eviction_takes_the_least_recently_used() {
    let mut cache = three_blobs(3);
    cache.touch("a");
    assert_eq!(store(&mut cache, "d", b"DDDD"), victims(&["b", "c"]));
    assert!(!cache.is_idle());
    assert!(cache.contains_key("a"));
    assert!(!cache.contains_key("b"));
    assert!(!cache.contains_key("c"));
    assert!(!cache.contains_key("d"));
    assert_eq!(cache.size(), 3);

    assert_eq!(
        cache.evicted("b", true),
        Settled { notice: Some(Notice::Removed("b".to_string())), write: None, victims: vec![] }
    );
    assert_eq!(
        cache.evicted("c", true),
        Settled {
            notice: Some(Notice::Removed("c".to_string())),
            write: Some("d".to_string()),
            victims: vec![],
        }
    );
    assert!(cache.is_idle());
    assert!(cache.contains_key("a"));
    assert!(cache.contains_key("d"));
    assert_eq!(cache.size(), 7);
    assert_eq!(cache.written("d", Ok(())), Ok(Notice::Added("d".to_string())));
}

#[test]
fn untouched_order_is_insertion_order() {
    let mut cache = three_blobs(2);
    assert_eq!(cache.evict(), vec!["a".to_string()]);
    assert!(!cache.contains_key("a"));
    assert!(cache.contains_key("b"));
    assert!(cache.contains_key("c"));
}

#[test]
fn touch_makes_a_key_the_last_to_go() {
    let mut cache = three_blobs(3);
    cache.touch("a");
    assert_eq!(cache.evict(), vec!["b".to_string(), "c".to_string()]);
    assert!(cache.contains_key("a"));
}

#[test]
fn touch_of_an_unknown_key_changes_nothing() {
    let mut cache = three_blobs(2);
    cache.touch("nowhere");
    assert_eq!(cache.size(), 9);
    assert_eq!(cache.evict(), vec!["a".to_string()]);
}

#[test]
fn get_makes_a_key_the_last_to_go() {
    let mut cache = three_blobs(3);
    assert_eq!(cache.get("a", Ok(7u32)), Ok(Some(7u32)));
    assert_eq!(cache.evict(), vec!["b".to_string(), "c".to_string()]);
}

#[test]
fn contains_key_is_no_use_of_the_key() {
    let mut cache = three_blobs(2);
    assert!(cache.contains_key("a"));
    assert_eq!(cache.evict(), vec!["a".to_string()]);
}

#[test]
fn failed_deletion_records_the_entry_again() {
    let mut cache = three_blobs(3);
    assert_eq!(store(&mut cache, "d", b"DDDDD"), victims(&["a", "b"]));
    assert_eq!(
        cache.evicted("a", false),
        Settled { notice: None, write: None, victims: vec![] }
    );
    assert!(cache.contains_key("a"));
    assert_eq!(cache.size(), 6);
    // c (3) and a (3, on record again) leave no room for d (5): the least
    // recently used one, c, is named as a further victim, and d waits on.
    assert_eq!(
        cache.evicted("b", true),
        Settled { notice: gone("b"), write: None, victims: vec!["c".to_string()] }
    );
    assert!(!cache.is_idle());
    assert!(!cache.contains_key("c"));
    assert!(!cache.contains_key("d"));
    assert_eq!(
        cache.evicted("c", true),
        Settled { notice: gone("c"), write: Some("d".to_string()), victims: vec![] }
    );
    assert!(cache.is_idle());
    assert!(cache.contains_key("a"));
    assert!(cache.contains_key("d"));
    assert_eq!(cache.size(), 8);
}

#[test]
fn every_entry_that_goes_is_named() {
    let mut cache = three_blobs(2);
    assert_eq!(store(&mut cache, "d", b"DDDDD"), victims(&["a", "b"]));
    assert_eq!(
        cache.evicted("a", true),
        Settled { notice: gone("a"), write: None, victims: vec![] }
    );
    assert_eq!(
        cache.evicted("b", true),
        Settled { notice: gone("b"), write: Some("d".to_string()), victims: vec![] }
    );
    assert!(cache.contains_key("c"));
    assert!(cache.contains_key("d"));
    assert_eq!(cache.size(), 8);
    assert_eq!(cache.evict(), vec!["c".to_string()]);
}

#[test]
fn further_victims_may_come_back_too() {
    let mut cache = three_blobs(2);
    assert_eq!(store(&mut cache, "d", b"DDDDDDD"), victims(&["a", "b"]));
    assert_eq!(
        cache.evicted("b", false),
        Settled { notice: None, write: None, victims: vec![] }
    );
    // c and b are on record, 6 bytes: d (7) needs the older of them gone.
    assert_eq!(
        cache.evicted("a", true),
        Settled { notice: gone("a"), write: None, victims: vec!["c".to_string()] }
    );
    assert_eq!(
        cache.evicted("c", false),
        Settled { notice: None, write: None, victims: vec!["b".to_string()] }
    );
    assert!(cache.contains_key("c"));
    assert_eq!(
        cache.evicted("b", true),
        Settled { notice: gone("b"), write: Some("d".to_string()), victims: vec![] }
    );
    assert!(cache.contains_key("c"));
    assert!(cache.contains_key("d"));
    assert_eq!(cache.size(), 10);
    assert!(cache.is_idle());
}

#[test]
fn entry_recorded_again_is_the_most_recently_used() {
    let mut cache = three_blobs(2);
    assert_eq!(cache.evict(), vec!["a".to_string()]);
    assert_eq!(cache.evicted("a", false), Settled { notice: None, write: None, victims: vec![] });
    assert!(cache.is_idle());
    assert_eq!(cache.size(), 9);
    assert_eq!(cache.evict(), vec!["b".to_string()]);
    assert_eq!(
        cache.evicted("b", true),
        Settled { notice: Some(Notice::Removed("b".to_string())), write: None, victims: vec![] }
    );
    assert_eq!(cache.evict(), vec!["c".to_string()]);
}

#[test]
fn reports_may_come_in_any_order() {
    let mut cache = three_blobs(3);
    assert_eq!(store(&mut cache, "d", b"DDDD"), victims(&["a", "b"]));
    assert_eq!(
        cache.evicted("b", true),
        Settled { notice: Some(Notice::Removed("b".to_string())), write: None, victims: vec![] }
    );
    assert_eq!(
        cache.evicted("a", true),
        Settled {
            notice: Some(Notice::Removed("a".to_string())),
            write: Some("d".to_string()),
            victims: vec![],
        }
    );
    assert_eq!(cache.size(), 7);
}

#[test]
fn report_for_a_key_that_no_batch_took_is_ignored() {
    let mut cache = three_blobs(3);
    assert_eq!(cache.evicted("a", true), Settled { notice: None, write: None, victims: vec![] });
    assert_eq!(cache.evicted("zzz", false), Settled { notice: None, write: None, victims: vec![] });
    assert_eq!(cache.size(), 9);
    assert!(cache.contains_key("a"));
    assert_eq!(store(&mut cache, "d", b"DDDD"), victims(&["a", "b"]));
    assert_eq!(cache.evicted("c", true), Settled { notice: None, write: None, victims: vec![] });
    assert!(!cache.is_idle());
}

#[test]
fn batch_of_size_zero_evicts_nothing() {
    let mut cache = three_blobs(1);
    assert_eq!(cache.evict(), Vec::<String>::new());
    assert!(cache.is_idle());
    assert_eq!(cache.size(), 9);

    let mut none = three_blobs(0);
    assert_eq!(none.evict(), Vec::<String>::new());
    assert_eq!(none.size(), 9);
}

#[test]
fn without_a_batch_only_what_is_in_the_way_goes() {
    let mut cache = three_blobs(1);
    assert_eq!(store(&mut cache, "d", b"DDDD"), victims(&["a"]));
    assert_eq!(
        cache.evicted("a", true),
        Settled { notice: gone("a"), write: Some("d".to_string()), victims: vec![] }
    );
    assert!(!cache.contains_key("a"));
    assert!(cache.contains_key("b"));
    assert!(cache.contains_key("c"));
    assert!(cache.contains_key("d"));
    assert_eq!(cache.size(), 10);
}

#[test]
fn batch_takes_all_there_is_when_that_is_fewer() {
    let mut cache = three_blobs(100);
    assert_eq!(
        cache.evict(),
        vec!["a".to_string(), "b".to_string(), "c".to_string()]
    );
    assert_eq!(cache.size(), 0);
}

#[test]
fn blob_that_fits_exactly_needs_no_eviction() {
    let mut cache = three_blobs(3);
    assert_eq!(store(&mut cache, "d", b"D"), Admission::Write);
    assert_eq!(cache.size(), 10);
    assert!(cache.contains_key("a"));
}

#[test]
fn oversize_blob_is_accepted_and_kept_on_record() {
    let mut cache = DiskCache::new(3, 2);
    assert_eq!(store(&mut cache, "big", b"XXXXX"), Admission::Write);
    assert_eq!(cache.size(), 5);
    assert_eq!(cache.capacity(), 2);
    assert!(cache.contains_key("big"));
    assert!(cache.is_idle());
    assert_eq!(
        cache.written("big", Ok(())),
        Ok(Notice::Added("big".to_string()))
    );
    assert_eq!(store(&mut cache, "big", b"other"), Admission::Present);
    cache.touch("big");
    assert_eq!(cache.get("big", Ok(1u8)), Ok(Some(1u8)));
    assert_eq!(cache.size(), 5);
}

#[test]
fn oversize_blob_takes_every_other_blob_out() {
    let mut cache = three_blobs(2);
    assert_eq!(store(&mut cache, "big", b"0123456789A"), victims(&["a", "b", "c"]));
    assert_eq!(
        cache.evicted("a", true),
        Settled { notice: gone("a"), write: None, victims: vec![] }
    );
    assert_eq!(
        cache.evicted("c", true),
        Settled { notice: gone("c"), write: None, victims: vec![] }
    );
    assert_eq!(
        cache.evicted("b", true),
        Settled { notice: gone("b"), write: Some("big".to_string()), victims: vec![] }
    );
    assert_eq!(cache.size(), 11);
    assert!(cache.contains_key("big"));
    assert!(!cache.contains_key("b"));
}

#[test]
fn oversize_blob_is_evicted_like_any_other() {
    let mut cache = DiskCache::new(1, 10);
    assert_eq!(store(&mut cache, "big", b"0123456789A"), Admission::Write);
    assert_eq!(store(&mut cache, "s", b"S"), victims(&["big"]));
    assert!(!cache.contains_key("big"));
    assert_eq!(cache.size(), 0);
    assert_eq!(
        cache.evicted("big", false),
        Settled { notice: None, write: None, victims: vec!["big".to_string()] }
    );
    assert_eq!(
        cache.evicted("big", true),
        Settled { notice: gone("big"), write: Some("s".to_string()), victims: vec![] }
    );
    assert!(cache.contains_key("s"));
    assert_eq!(cache.size(), 1);

    let mut batch = DiskCache::new(2, 10);
    assert_eq!(store(&mut batch, "big", b"0123456789A"), Admission::Write);
    assert_eq!(batch.evict(), vec!["big".to_string()]);
    assert_eq!(batch.size(), 0);
    assert_eq!(
        batch.evicted("big", false),
        Settled { notice: None, write: None, victims: vec![] }
    );
    assert!(batch.contains_key("big"));
    assert_eq!(batch.size(), 11);
}

#[test]
fn empty_blob_is_admitted() {
    let mut cache = DiskCache::new(3, 0);
    assert_eq!(store(&mut cache, "nothing", b""), Admission::Write);
    assert!(cache.contains_key("nothing"));
    assert_eq!(cache.size(), 0);
}

#[test]
fn get_of_a_missing_file_is_absent_and_keeps_the_entry() {
    let mut cache = three_blobs(3);
    assert_eq!(cache.get::<u32>("a", Err(IoFailure::NotFound)), Ok(None));
    assert!(cache.contains_key("a"));
    assert_eq!(cache.size(), 9);
}

#[test]
fn get_of_an_unknown_key_is_absent() {
    let mut cache = three_blobs(3);
    assert_eq!(cache.get::<u32>("zzz", Err(IoFailure::NotFound)), Ok(None));
    assert_eq!(cache.size(), 9);
}

#[test]
fn get_hands_on_other_failures() {
    let mut cache = three_blobs(3);
    assert_eq!(
        cache.get::<u32>("a", Err(IoFailure::Other("permission denied".to_string()))),
        Err(DiscaError::Io(IoFailure::Other("permission denied".to_string())))
    );
    assert!(cache.contains_key("a"));
}

#[test]
fn failed_write_is_handed_on_and_the_entry_stays() {
    let mut cache = DiskCache::new(3, 10);
    assert_eq!(store(&mut cache, "a", b"AAA"), Admission::Write);
    assert_eq!(
        cache.written("a", Err(IoFailure::Other("disk full".to_string()))),
        Err(DiscaError::Io(IoFailure::Other("disk full".to_string())))
    );
    assert_eq!(
        cache.written("a", Err(IoFailure::NotFound)),
        Err(DiscaError::Io(IoFailure::NotFound))
    );
    assert!(cache.contains_key("a"));
    assert_eq!(cache.size(), 3);
}

#[test]
fn size_stays_within_capacity() {
    let mut cache = DiskCache::new(2, 10);
    let mut failed_once: Vec<String> = Vec::new();
    for (round, key) in ["a", "b", "c", "d", "e", "f", "g"].iter().enumerate() {
        let bytes = vec![0u8; 1 + (round * 3) % 7];
        let mut queue = match store(&mut cache, key, &bytes) {
            Admission::Evict { victims } => victims,
            Admission::Write => Vec::new(),
            Admission::Present => unreachable!(),
        };
        while !queue.is_empty() {
            let victim = queue.remove(0);
            let deleted = round % 2 == 0 || failed_once.contains(&victim);
            if !deleted {
                failed_once.push(victim.clone());
            }
            let settled = cache.evicted(&victim, deleted);
            queue.extend(settled.victims);
        }
        assert!(cache.is_idle());
        assert!(cache.contains_key(key));
        assert!(cache.size() <= cache.capacity());
    }
}

#[test]
fn only_a_single_oversize_blob_is_beyond_the_capacity() {
    let mut cache = DiskCache::new(2, 4);
    for (key, len) in [("a", 2usize), ("b", 9), ("c", 3), ("d", 7), ("e", 1)] {
        let mut queue = match store(&mut cache, key, &vec![0u8; len]) {
            Admission::Evict { victims } => victims,
            _ => Vec::new(),
        };
        while !queue.is_empty() {
            let victim = queue.remove(0);
            queue.extend(cache.evicted(&victim, true).victims);
        }
        assert!(cache.contains_key(key));
        assert_eq!(cache.size() > cache.capacity(), len > 4);
        if len > 4 {
            assert_eq!(cache.size(), len as u64);
        }
    }
}
