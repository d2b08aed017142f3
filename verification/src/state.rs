//! What the service remembers between requests.

use vstd::hash_map::StringHashMap;
use vstd::prelude::*;

use crate::archive::{elapsed, time_since, Archive};
use crate::cache::{CachedFile, RamCache};

verus! {

/// How long an answer from upstream is used, in nanoseconds: 15 minutes.
pub const CACHE_EXPIRY: u128 = 900_000_000_000;

/// `/capture` refetches anything older than this, in nanoseconds, so a scheduled capture always
/// checks upstream instead of archiving whatever a visitor happened to leave in the cache.
pub const CAPTURE_MAX_AGE: u128 = 300_000_000_000;

/// Upstream failed to serve the file a short while ago.
pub open spec fn failed_recently(
    failures: Map<Seq<char>, u128>,
    key: Seq<char>,
    now: u128,
) -> bool {
    failures.contains_key(key) && elapsed(failures[key], now) < CACHE_EXPIRY
}

/// A failure counts for 15 minutes, and not after.
pub proof fn law_failure_counts_for_a_quarter_of_an_hour(
    failures: Map<Seq<char>, u128>,
    key: Seq<char>,
    now: u128,
)
    ensures
        failed_recently(failures, key, now) <==> failures.contains_key(key) && now - failures[key]
            < 900_000_000_000,
{
}

/// After upstream failed to serve a file, it is not asked again for a while; other files are not
/// affected.
pub proof fn law_failure_is_remembered(
    failures: Map<Seq<char>, u128>,
    key: Seq<char>,
    at: u128,
    other: Seq<char>,
    now: u128,
)
    ensures
        failed_recently(failures.insert(key, at), key, now) <==> elapsed(at, now) < CACHE_EXPIRY,
        other != key ==> failed_recently(failures.insert(key, at), other, now) == failed_recently(
            failures,
            other,
            now,
        ),
{
}

/// What the service remembers between requests. Times are in nanoseconds, by one clock that
/// does not go backwards.
pub struct AppState {
    pub cache: RamCache,
    /// when upstream last failed to serve a file
    pub failed_cache: StringHashMap<u128>,
    pub archive: Option<Archive>,
}

impl AppState {
    pub open spec fn wf(&self) -> bool {
        &&& self.cache.wf()
        &&& self.archive matches Some(archive) ==> archive.wf()
    }

    /// Nothing is remembered yet. Snapshots are archived in `archive_dir`, if that is given.
    pub fn new(archive_dir: Option<std::path::PathBuf>) -> (state: AppState)
        ensures
            state.wf(),
            state.cache@ == Map::<Seq<char>, CachedFile>::empty(),
            state.failed_cache@ == Map::<Seq<char>, u128>::empty(),
            match archive_dir {
                Some(dir) => {
                    &&& state.archive matches Some(archive)
                    &&& archive.root() == dir
                    &&& forall|server: Seq<char>, file: Seq<char>| #[trigger]
                        archive.listing(server, file) is None
                },
                None => state.archive is None,
            },
    {
        let archive = match archive_dir {
            Some(dir) => Some(Archive::new(dir)),
            None => None,
        };
        AppState { cache: RamCache::new(), failed_cache: StringHashMap::new(), archive }
    }

    /// Whether upstream failed to serve the file a short while ago.
    pub fn has_failed_recently(&self, key: &str, now: u128) -> (failed: bool)
        ensures
            failed == failed_recently(self.failed_cache@, key@, now),
    {
        match self.failed_cache.get(key) {
            Some(at) => time_since(*at, now) < CACHE_EXPIRY,
            None => false,
        }
    }
}

} // verus!
