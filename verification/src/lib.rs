//! A node's share of a distributed, content-addressed file cache: the index
//! of the blobs it keeps on disk, and the book-keeping of its exchange with
//! its peers.

use vstd::prelude::*;

pub mod disk_cache;
pub mod file_sharing;
mod lru;
pub mod messages;
mod pending;
pub mod recency;

pub use disk_cache::{Admission, DiskCache, DiskCacheMeter, Notice, Settled};
pub use file_sharing::EventLoop;

use disk_cache::{lookup_result, AdmissionView, CacheState};
use recency::holds;

verus! {

/// Why an attempt at a file came to nothing.
#[derive(Debug, Clone, PartialEq, Eq)]
pub enum IoFailure {
    /// There is no such file.
    NotFound,
    /// Anything else, in the words of the system.
    Other(String),
}

/// Why an operation of the node failed.
#[derive(Debug, Clone, PartialEq, Eq)]
pub enum DiscaError {
    /// A file of the cache could not be read or written.
    Io(IoFailure),
    /// The network reported a failure, in its own words.
    Network(String),
}

/// Serves the blobs of this node to its peers.
pub trait FileProvider {
    /// The bytes of the blob `path`, or `None` where this node has none.
    fn get_file(&mut self, path: String) -> Option<Vec<u8>>;
}

/// Is told which blobs enter and leave the cache, so that the node
/// advertises what it has and nothing else. Nothing comes back: what goes
/// wrong with a notice is the notifier's own affair.
pub trait FileNotifier {
    /// A blob was admitted.
    fn added(&self, path: String);

    /// A blob was evicted.
    fn removed(&self, path: String);
}

/// Tells `notifier` of a change of the cache.
pub fn announce<N: FileNotifier>(notifier: &N, notice: Notice) {
    match notice {
        Notice::Added(path) => notifier.added(path),
        Notice::Removed(path) => notifier.removed(path),
    }
}

/// Where a lookup stands after the cache was asked.
#[derive(Debug, PartialEq, Eq)]
pub enum Lookup<F> {
    /// The blob is at home: here is its file.
    Found(F),
    /// The blob is not at home: the peers are to be asked.
    Fetch,
    /// The cache failed.
    Failed(DiscaError),
}

/// Where a lookup stands after the peers were asked.
#[derive(Debug, PartialEq, Eq)]
pub enum Fetched {
    /// No peer has the blob: the lookup ends with "absent".
    Absent,
    /// A peer sent the blob: it is being admitted to the cache as `admission`
    /// says, with `content` to be written; after that its file is opened
    /// again.
    Admit { content: Vec<u8>, admission: Admission },
    /// The network failed.
    Failed(DiscaError),
}

/// Where a lookup stands after the cache was asked, for what came of opening
/// the blob's file: a file ends the lookup; no such file sends it to the
/// peers; a failure ends it.
pub open spec fn first_step<F>(opened: Result<F, IoFailure>) -> Lookup<F> {
    match lookup_result(opened) {
        Ok(Some(file)) => Lookup::Found(file),
        Ok(None) => Lookup::Fetch,
        Err(failure) => Lookup::Failed(failure),
    }
}

/// A lookup that misses at home and is answered by a peer ends with the
/// peer's blob: the miss sends it to the peers; the blob that came is put on
/// record under the path with exactly its length, at once or as soon as
/// there is room; and the file that is then opened is the answer.
pub proof fn law_fetched_blob_is_the_answer<F>(
    cache: CacheState,
    path: Seq<char>,
    len: u64,
    file: F,
)
    requires
        cache.wf(),
        cache.idle(),
        !holds(cache.entries, path),
        cache.size() + len <= usize::MAX,
    ensures
        first_step::<F>(Err(IoFailure::NotFound)) == Lookup::<F>::Fetch,
        cache.touched(path) == cache,
        match cache.inserted(path, len).1 {
            AdmissionView::Write => cache.inserted(path, len).0.entries.last() == (path, len),
            AdmissionView::Evict { .. } => cache.inserted(path, len).0.admitting == Some(
                (path, len),
            ),
            AdmissionView::Present => false,
        },
        lookup_result(Ok(file)) matches Ok(Some(found)) && found == file,
{
}

/// A node's cache with the rule by which a lookup goes from the cache to the
/// peers and back.
pub struct Disca {
    pub disk_cache: DiskCache,
}

impl Disca {
    /// A node with an empty cache.
    pub fn new(files_to_evict: u64, capacity: u64) -> (node: Self)
        ensures
            node.disk_cache.wf(),
            node.disk_cache@.idle(),
            node.disk_cache@.entries.len() == 0,
            node.disk_cache@.capacity == capacity,
            node.disk_cache@.files_to_evict == files_to_evict,
            node.disk_cache@.admitting is None,
    {
        Disca { disk_cache: DiskCache::new(files_to_evict, capacity) }
    }

    /// Admits a blob: what the cache's `insert` does.
    pub fn add(&mut self, key: &str, content: &[u8]) -> (admission: Admission)
        requires
            old(self).disk_cache.wf(),
            !holds(old(self).disk_cache@.entries, key@) ==> old(self).disk_cache@.idle() && old(
                self,
            ).disk_cache@.size() + content@.len() <= usize::MAX,
        ensures
            final(self).disk_cache.wf(),
            (final(self).disk_cache@, admission@) == old(self).disk_cache@.inserted(
                key@,
                content@.len() as u64,
            ),
    {
        self.disk_cache.insert(key, content)
    }

    /// The first step of a lookup: the cache is asked, with what came of
    /// opening the blob's file. A file that is there ends the lookup; one
    /// that is not sends it to the peers; a failure ends it.
    pub fn get<F>(&mut self, path: &str, opened: Result<F, IoFailure>) -> (next: Lookup<F>)
        requires
            old(self).disk_cache.wf(),
        ensures
            final(self).disk_cache.wf(),
            final(self).disk_cache@ == old(self).disk_cache@.touched(path@),
            next == first_step(opened),
    {
        match self.disk_cache.get(path, opened) {
            Ok(Some(file)) => Lookup::Found(file),
            Ok(None) => Lookup::Fetch,
            Err(failure) => Lookup::Failed(failure),
        }
    }

    /// The second step of a lookup: what the peers answered. A blob that
    /// came is admitted to the cache under `path`; "nothing" ends the lookup
    /// with "absent"; a failure ends it.
    pub fn fetched(&mut self, path: &str, remote: Result<Option<Vec<u8>>, String>) -> (next:
        Fetched)
        requires
            old(self).disk_cache.wf(),
            remote matches Ok(Some(content)) ==> (!holds(old(self).disk_cache@.entries, path@)
                ==> old(self).disk_cache@.idle() && old(self).disk_cache@.size() + content@.len()
                <= usize::MAX),
        ensures
            final(self).disk_cache.wf(),
            match remote {
                Ok(Some(blob)) => {
                    &&& next matches Fetched::Admit { content, admission }
                    &&& content == blob
                    &&& (final(self).disk_cache@, admission@) == old(self).disk_cache@.inserted(
                        path@,
                        blob@.len() as u64,
                    )
                },
                Ok(None) => {
                    &&& next == Fetched::Absent
                    &&& final(self).disk_cache@ == old(self).disk_cache@
                },
                Err(why) => {
                    &&& next == Fetched::Failed(DiscaError::Network(why))
                    &&& final(self).disk_cache@ == old(self).disk_cache@
                },
            },
    {
        match remote {
            Ok(Some(content)) => {
                let admission = self.disk_cache.insert(path, content.as_slice());
                Fetched::Admit { content, admission }
            },
            Ok(None) => Fetched::Absent,
            Err(why) => Fetched::Failed(DiscaError::Network(why)),
        }
    }

    /// The last step of a lookup, once the fetched blob is admitted and
    /// written: its file is opened again, and what comes of that is the
    /// answer.
    pub fn reopened<F>(&mut self, path: &str, opened: Result<F, IoFailure>) -> (found: Result<
        Option<F>,
        DiscaError,
    >)
        requires
            old(self).disk_cache.wf(),
        ensures
            final(self).disk_cache.wf(),
            final(self).disk_cache@ == old(self).disk_cache@.touched(path@),
            found == lookup_result(opened),
    {
        self.disk_cache.get(path, opened)
    }
}

} // verus!
