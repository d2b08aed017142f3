//! The data files that are kept in memory.

use vstd::prelude::*;

use crate::external::{bytes_clone, bytes_contents};
use crate::text::str_eq;

verus! {

pub const MAX_FILES_IN_RAM_CACHE: usize = 25;

struct CacheEntry {
    key: String,
    data: bytes::Bytes,
    put_at: u128,
    age_when_put: u128,
    used: u128,
    last_modified: u64,
}

/// A cached data file.
pub struct CachedFile {
    pub data: Seq<u8>,
    /// when upstream was last asked for it, in nanoseconds; this can be before the clock's zero
    pub timestamp: int,
    /// when it was last put in or served, in nanoseconds
    pub used: u128,
    /// upstream `Last-Modified` in unix seconds, 0 if unknown
    pub last_modified: u64,
}

impl View for CacheEntry {
    type V = CachedFile;

    closed spec fn view(&self) -> CachedFile {
        CachedFile {
            data: bytes_contents(self.data),
            timestamp: self.put_at - self.age_when_put,
            used: self.used,
            last_modified: self.last_modified,
        }
    }
}

impl CacheEntry {
    /// How long ago upstream was last asked for the file.
    fn age(&self, now: u128) -> (age: u128)
        ensures
            age == if age_at(self@.timestamp, now) <= u128::MAX {
                age_at(self@.timestamp, now)
            } else {
                u128::MAX as int
            },
    {
        if self.put_at <= now {
            (now - self.put_at).saturating_add(self.age_when_put)
        } else {
            self.age_when_put.saturating_sub(self.put_at - now)
        }
    }
}

spec fn is_entry_of(entries: Seq<CacheEntry>, key: Seq<char>, i: int) -> bool {
    0 <= i < entries.len() && entries[i].key@ == key
}

spec fn contents(entries: Seq<CacheEntry>) -> Map<Seq<char>, CachedFile> {
    Map::new(
        |key: Seq<char>| exists|i: int| is_entry_of(entries, key, i),
        |key: Seq<char>| entries[choose|i: int| is_entry_of(entries, key, i)]@,
    )
}

spec fn keys_differ(entries: Seq<CacheEntry>) -> bool {
    forall|i: int, j: int|
        0 <= i < j < entries.len() ==> (#[trigger] entries[i]).key@ != (#[trigger] entries[j]).key@
}

proof fn lemma_entry(entries: Seq<CacheEntry>, i: int)
    requires
        keys_differ(entries),
        0 <= i < entries.len(),
    ensures
        contents(entries).contains_key(entries[i].key@),
        contents(entries)[entries[i].key@] == entries[i]@,
{
    let key = entries[i].key@;
    assert(is_entry_of(entries, key, i));
    let j = choose|j: int| is_entry_of(entries, key, j);
    assert(is_entry_of(entries, key, j));
    if i < j {
        assert(entries[i].key@ != entries[j].key@);
    } else if j < i {
        assert(entries[j].key@ != entries[i].key@);
    }
}

proof fn lemma_key(entries: Seq<CacheEntry>, key: Seq<char>) -> (i: int)
    requires
        keys_differ(entries),
        contents(entries).contains_key(key),
    ensures
        0 <= i < entries.len(),
        entries[i].key@ == key,
        contents(entries)[key] == entries[i]@,
{
    let i = choose|i: int| is_entry_of(entries, key, i);
    assert(is_entry_of(entries, key, i));
    i
}

proof fn lemma_no_key(entries: Seq<CacheEntry>, key: Seq<char>)
    requires
        forall|i: int| 0 <= i < entries.len() ==> (#[trigger] entries[i]).key@ != key,
    ensures
        !contents(entries).contains_key(key),
{
    if contents(entries).contains_key(key) {
        let i = choose|i: int| is_entry_of(entries, key, i);
        assert(is_entry_of(entries, key, i));
    }
}

proof fn lemma_contents_len(entries: Seq<CacheEntry>)
    requires
        keys_differ(entries),
    ensures
        contents(entries).dom().finite(),
        contents(entries).len() == entries.len(),
{
    let keys = Seq::new(entries.len(), |i: int| entries[i].key@);
    assert(keys.no_duplicates()) by {
        assert forall|i: int, j: int| 0 <= i < keys.len() && 0 <= j < keys.len() && i != j
            implies keys[i] != keys[j] by {
            if i < j {
                assert(entries[i].key@ != entries[j].key@);
            } else {
                assert(entries[j].key@ != entries[i].key@);
            }
        }
    }
    keys.unique_seq_to_set();
    assert(contents(entries).dom() =~= keys.to_set()) by {
        assert forall|key: Seq<char>| contents(entries).dom().contains(key) implies #[trigger] keys.to_set().contains(
        key) by {
            let i = lemma_key(entries, key);
            assert(keys[i] == key);
        }
        assert forall|key: Seq<char>| #[trigger] keys.to_set().contains(key) implies contents(
            entries,
        ).dom().contains(key) by {
            let i = choose|i: int| 0 <= i < keys.len() && keys[i] == key;
            lemma_entry(entries, i);
        }
    }
}

proof fn lemma_remove(entries: Seq<CacheEntry>, i: int)
    requires
        keys_differ(entries),
        0 <= i < entries.len(),
    ensures
        keys_differ(entries.remove(i)),
        contents(entries.remove(i)) == contents(entries).remove(entries[i].key@),
{
    let fewer = entries.remove(i);
    let back = |k: int|
        if k < i {
            k
        } else {
            k + 1
        };
    assert forall|j: int, k: int| 0 <= j < k < fewer.len() implies (#[trigger] fewer[j]).key@ != (
    #[trigger] fewer[k]).key@ by {
        assert(fewer[j] == entries[back(j)] && fewer[k] == entries[back(k)]);
    }
    assert forall|key: Seq<char>| #[trigger] contents(fewer).dom().contains(key) implies contents(entries).remove(
        entries[i].key@,
    ).contains_key(key) && contents(fewer)[key] == contents(entries)[key] by {
        let k = lemma_key(fewer, key);
        assert(fewer[k] == entries[back(k)]);
        lemma_entry(entries, back(k));
        if k < i {
            assert(entries[k].key@ != entries[i].key@);
        } else {
            assert(entries[i].key@ != entries[k + 1].key@);
        }
    }
    assert forall|key: Seq<char>| #[trigger] contents(entries).dom().contains(key) && key
        != entries[i].key@ implies contents(fewer).dom().contains(key) by {
        let k = lemma_key(entries, key);
        let m = if k < i {
            k
        } else {
            k - 1
        };
        assert(fewer[m] == entries[k]);
        lemma_entry(fewer, m);
    }
    assert(contents(fewer) =~= contents(entries).remove(entries[i].key@));
}

proof fn lemma_push(entries: Seq<CacheEntry>, entry: CacheEntry)
    requires
        keys_differ(entries),
        forall|i: int| 0 <= i < entries.len() ==> (#[trigger] entries[i]).key@ != entry.key@,
    ensures
        keys_differ(entries.push(entry)),
        contents(entries.push(entry)) == contents(entries).insert(entry.key@, entry@),
{
    let more = entries.push(entry);
    assert(keys_differ(more));
    assert forall|key: Seq<char>| #[trigger] contents(more).dom().contains(key) implies contents(entries).insert(
        entry.key@,
        entry@,
    ).contains_key(key) && contents(more)[key] == contents(entries).insert(entry.key@, entry@)[key] by {
        let k = lemma_key(more, key);
        if k < entries.len() {
            assert(more[k] == entries[k]);
            lemma_entry(entries, k);
        }
    }
    assert forall|key: Seq<char>|
        contents(entries).dom().contains(key) || key == entry.key@ implies #[trigger] contents(
        more,
    ).dom().contains(key) by {
        if key == entry.key@ {
            lemma_entry(more, entries.len() as int);
        } else {
            let k = lemma_key(entries, key);
            assert(more[k] == entries[k]);
            lemma_entry(more, k);
        }
    }
    assert(contents(more) =~= contents(entries).insert(entry.key@, entry@));
}

proof fn lemma_replace(entries: Seq<CacheEntry>, i: int, entry: CacheEntry)
    requires
        keys_differ(entries),
        0 <= i < entries.len(),
        entries[i].key@ == entry.key@,
    ensures
        keys_differ(entries.update(i, entry)),
        contents(entries.update(i, entry)) == contents(entries).insert(entry.key@, entry@),
{
    let changed = entries.update(i, entry);
    assert(keys_differ(changed)) by {
        assert forall|j: int, k: int| 0 <= j < k < changed.len() implies (
        #[trigger] changed[j]).key@ != (#[trigger] changed[k]).key@ by {
            assert(entries[j].key@ != entries[k].key@);
        }
    }
    assert forall|key: Seq<char>| #[trigger] contents(changed).dom().contains(key) implies contents(
        entries,
    ).contains_key(key) && contents(changed)[key] == contents(entries).insert(
        entry.key@,
        entry@,
    )[key] by {
        let k = lemma_key(changed, key);
        lemma_entry(entries, k);
    }
    assert forall|key: Seq<char>| contents(entries).dom().contains(key) implies #[trigger] contents(
        changed,
    ).dom().contains(key) by {
        let k = lemma_key(entries, key);
        lemma_entry(changed, k);
    }
    lemma_entry(entries, i);
    assert(contents(changed) =~= contents(entries).insert(entry.key@, entry@));
}

/// `key` is that of a least recently used file: no other was last used before it.
pub open spec fn is_least_recently_used(
    files: Map<Seq<char>, CachedFile>,
    key: Seq<char>,
) -> bool {
    &&& files.contains_key(key)
    &&& forall|other: Seq<char>| #[trigger]
        files.contains_key(other) ==> files[key].used <= files[other].used
}

/// What a cache holds after a file was put in: where there was no room for it, the least
/// recently used file has made some.
pub open spec fn is_put(
    before: Map<Seq<char>, CachedFile>,
    key: Seq<char>,
    file: CachedFile,
    after: Map<Seq<char>, CachedFile>,
) -> bool {
    if !before.contains_key(key) && before.len() >= MAX_FILES_IN_RAM_CACHE {
        exists|gone: Seq<char>| #[trigger]
            is_least_recently_used(before, gone) && after == before.remove(gone).insert(key, file)
    } else {
        after == before.insert(key, file)
    }
}

/// What a cache holds after a file was served from it: the same, but that the file was used now.
pub open spec fn is_served(
    before: Map<Seq<char>, CachedFile>,
    key: Seq<char>,
    now: u128,
    after: Map<Seq<char>, CachedFile>,
) -> bool {
    let file = before[key];
    after == before.insert(
        key,
        CachedFile {
            data: file.data,
            timestamp: file.timestamp,
            used: now,
            last_modified: file.last_modified,
        },
    )
}

/// How long ago `timestamp` was; no time at all if it is yet to come.
pub open spec fn age_at(timestamp: int, now: u128) -> int {
    if timestamp <= now {
        now - timestamp
    } else {
        0
    }
}

/// The data of a cached file that is less than `max_age` old.
pub open spec fn fresh_data(
    files: Map<Seq<char>, CachedFile>,
    key: Seq<char>,
    max_age: u128,
    now: u128,
) -> Option<Seq<u8>> {
    if files.contains_key(key) && age_at(files[key].timestamp, now) < max_age {
        Some(files[key].data)
    } else {
        None
    }
}

/// Of a copy of a file and the cached one, the newer: its data and time.
pub open spec fn newer_of(
    files: Map<Seq<char>, CachedFile>,
    key: Seq<char>,
    data: Seq<u8>,
    last_modified: u64,
) -> (Seq<u8>, u64) {
    if files.contains_key(key) && files[key].last_modified > last_modified {
        (files[key].data, files[key].last_modified)
    } else {
        (data, last_modified)
    }
}

/// Of a copy and the cached file the newer is taken, with its own data and its own time: the cached
/// file only where its time is later, and otherwise the copy just as it is.
pub proof fn law_newer_of_two_is_taken(
    files: Map<Seq<char>, CachedFile>,
    key: Seq<char>,
    data: Seq<u8>,
    last_modified: u64,
)
    ensures
        ({
            let newer = newer_of(files, key, data, last_modified);
            &&& !files.contains_key(key) ==> newer.0 == data && newer.1 == last_modified
            &&& files.contains_key(key) && files[key].last_modified <= last_modified ==> newer.0
                == data && newer.1 == last_modified
            &&& files.contains_key(key) && last_modified < files[key].last_modified ==> newer.0
                == files[key].data && newer.1 == files[key].last_modified
        }),
{
}

/// Data is fresh exactly when it is that of the cached file, and less than `max_age` has passed
/// since upstream was last asked for it.
pub proof fn law_fresh_data_is_young(
    files: Map<Seq<char>, CachedFile>,
    key: Seq<char>,
    max_age: u128,
    now: u128,
    data: Seq<u8>,
)
    ensures
        fresh_data(files, key, max_age, now) == Some(data) <==> {
            &&& files.contains_key(key)
            &&& files[key].data == data
            &&& max_age > 0
            &&& now - files[key].timestamp < max_age
        },
        fresh_data(files, key, max_age, now) is None <==> {
            files.contains_key(key) ==> max_age == 0 || now - files[key].timestamp >= max_age
        },
{
}

/// Putting a file in makes it what it was put in as, and leaves the others as they are. Only where
/// 25 others are there one of them goes: one that no other was used before.
pub proof fn law_put_replaces_one_file(
    before: Map<Seq<char>, CachedFile>,
    key: Seq<char>,
    file: CachedFile,
    after: Map<Seq<char>, CachedFile>,
    other: Seq<char>,
)
    requires
        is_put(before, key, file, after),
    ensures
        after.contains_key(key),
        after[key] == file,
        other != key && after.contains_key(other) ==> before.contains_key(other) && after[other]
            == before[other],
        other != key && (before.contains_key(key) || before.len() < 25) && before.contains_key(
            other,
        ) ==> after.contains_key(other),
        !before.contains_key(key) && before.len() >= 25 ==> exists|gone: Seq<char>| #[trigger]
            before.contains_key(gone) && !after.contains_key(gone) && (before.contains_key(other)
                ==> before[gone].used <= before[other].used) && (other != key && other != gone
                && before.contains_key(other) ==> after.contains_key(other)),
{
    if !before.contains_key(key) && before.len() >= MAX_FILES_IN_RAM_CACHE {
        let gone = choose|gone: Seq<char>| #[trigger]
            is_least_recently_used(before, gone) && after == before.remove(gone).insert(key, file);
        assert(before.contains_key(gone) && !after.contains_key(gone));
    }
}

/// Serving a file changes nothing but the time at which that file was last used.
pub proof fn law_serving_changes_the_time_of_use(
    before: Map<Seq<char>, CachedFile>,
    key: Seq<char>,
    now: u128,
    after: Map<Seq<char>, CachedFile>,
    other: Seq<char>,
)
    requires
        before.contains_key(key),
        is_served(before, key, now, after),
    ensures
        after.contains_key(other) <==> before.contains_key(other),
        other != key && before.contains_key(other) ==> after[other] == before[other],
        after[key].used == now,
        after[key].data == before[key].data,
        after[key].timestamp == before[key].timestamp,
        after[key].last_modified == before[key].last_modified,
{
}

/// A file that was put in is there, and is served until it is `max_age` old.
pub proof fn law_file_is_served_until_it_expires(
    before: Map<Seq<char>, CachedFile>,
    key: Seq<char>,
    file: CachedFile,
    after: Map<Seq<char>, CachedFile>,
    max_age: u128,
    now: u128,
)
    requires
        is_put(before, key, file, after),
    ensures
        after.contains_key(key),
        after[key] == file,
        fresh_data(after, key, max_age, now) == if age_at(file.timestamp, now) < max_age {
            Some(file.data)
        } else {
            None
        },
{
}

/// Putting a file in changes no other. At most one goes: the least recently used one, and that
/// only where the cache was full and did not hold the file before.
pub proof fn law_other_files_stay(
    before: Map<Seq<char>, CachedFile>,
    key: Seq<char>,
    file: CachedFile,
    after: Map<Seq<char>, CachedFile>,
    one: Seq<char>,
    two: Seq<char>,
)
    requires
        is_put(before, key, file, after),
        one != key,
        two != key,
        one != two,
        before.contains_key(one),
        before.contains_key(two),
    ensures
        after.contains_key(one) || after.contains_key(two),
        after.contains_key(one) ==> after[one] == before[one],
        before.len() < MAX_FILES_IN_RAM_CACHE || before.contains_key(key) ==> after.contains_key(
            one,
        ),
        !after.contains_key(one) ==> before[one].used <= before[two].used,
{
}

/// A limited number of data files in memory.
pub struct RamCache {
    entries: Vec<CacheEntry>,
}

impl View for RamCache {
    type V = Map<Seq<char>, CachedFile>;

    closed spec fn view(&self) -> Map<Seq<char>, CachedFile> {
        contents(self.entries@)
    }
}

impl RamCache {
    pub closed spec fn wf(&self) -> bool {
        keys_differ(self.entries@) && self.entries@.len() <= MAX_FILES_IN_RAM_CACHE
    }

    /// There are never more files in memory than there is room for.
    pub proof fn law_cache_is_bounded(&self)
        requires
            self.wf(),
        ensures
            self@.dom().finite(),
            self@.len() <= MAX_FILES_IN_RAM_CACHE,
    {
        lemma_contents_len(self.entries@);
    }

    pub fn new() -> (cache: RamCache)
        ensures
            cache.wf(),
            cache@ == Map::<Seq<char>, CachedFile>::empty(),
    {
        let cache = RamCache { entries: Vec::new() };
        proof {
            assert forall|key: Seq<char>| !cache@.contains_key(key) by {
                lemma_no_key(cache.entries@, key);
            }
            assert(cache@ =~= Map::<Seq<char>, CachedFile>::empty());
        }
        cache
    }

    fn find(&self, key: &str) -> (place: Option<usize>)
        requires
            self.wf(),
        ensures
            match place {
                Some(i) => {
                    &&& i < self.entries@.len()
                    &&& self.entries@[i as int].key@ == key@
                    &&& self@.contains_key(key@)
                    &&& self@[key@] == self.entries@[i as int]@
                },
                None => {
                    &&& !self@.contains_key(key@)
                    &&& forall|i: int|
                        0 <= i < self.entries@.len() ==> (#[trigger] self.entries@[i]).key@ != key@
                },
            },
    {
        let mut i: usize = 0;
        while i < self.entries.len()
            invariant
                self.wf(),
                i <= self.entries@.len(),
                forall|k: int| 0 <= k < i ==> (#[trigger] self.entries@[k]).key@ != key@,
            decreases self.entries@.len() - i,
        {
            if str_eq(self.entries[i].key.as_str(), key) {
                proof {
                    lemma_entry(self.entries@, i as int);
                }
                return Some(i);
            }
            i = i + 1;
        }
        proof {
            lemma_no_key(self.entries@, key@);
        }
        None
    }

    /// The data of a cached file that is less than `max_age` old. To serve a file is to use it.
    pub fn get(&mut self, key: &str, max_age: u128, now: u128) -> (data: Option<bytes::Bytes>)
        requires
            old(self).wf(),
        ensures
            final(self).wf(),
            match data {
                Some(buffer) => {
                    &&& fresh_data(old(self)@, key@, max_age, now) == Some(bytes_contents(buffer))
                    &&& is_served(old(self)@, key@, now, final(self)@)
                },
                None => {
                    &&& fresh_data(old(self)@, key@, max_age, now) is None
                    &&& *final(self) == *old(self)
                },
            },
    {
        match self.find(key) {
            Some(i) => {
                let entry = &self.entries[i];
                if entry.age(now) < max_age {
                    let data = bytes_clone(&entry.data);
                    let used = CacheEntry {
                        key: key.to_owned(),
                        data: bytes_clone(&entry.data),
                        put_at: entry.put_at,
                        age_when_put: entry.age_when_put,
                        used: now,
                        last_modified: entry.last_modified,
                    };
                    proof {
                        lemma_replace(self.entries@, i as int, used);
                    }
                    self.entries.set(i, used);
                    Some(data)
                } else {
                    None
                }
            },
            None => None,
        }
    }

    /// The given copy of a file, or the cached one, however old, if that is newer.
    pub fn newer(&self, key: &str, data: bytes::Bytes, last_modified: u64) -> (newer: (
        bytes::Bytes,
        u64,
    ))
        requires
            self.wf(),
        ensures
            (bytes_contents(newer.0), newer.1) == newer_of(
                self@,
                key@,
                bytes_contents(data),
                last_modified,
            ),
    {
        match self.find(key) {
            Some(i) => {
                let entry = &self.entries[i];
                if entry.last_modified > last_modified {
                    (bytes_clone(&entry.data), entry.last_modified)
                } else {
                    (data, last_modified)
                }
            },
            None => (data, last_modified),
        }
    }

    fn least_recently_used(&self) -> (place: usize)
        requires
            self.wf(),
            self.entries@.len() > 0,
        ensures
            place < self.entries@.len(),
            is_least_recently_used(self@, self.entries@[place as int].key@),
    {
        let mut place: usize = 0;
        let mut i: usize = 1;
        while i < self.entries.len()
            invariant
                self.wf(),
                place < i <= self.entries@.len(),
                forall|k: int|
                    0 <= k < i ==> self.entries@[place as int].used <= (
                    #[trigger] self.entries@[k]).used,
            decreases self.entries@.len() - i,
        {
            if self.entries[i].used < self.entries[place].used {
                place = i;
            }
            i = i + 1;
        }
        proof {
            lemma_entry(self.entries@, place as int);
            assert forall|other: Seq<char>| #[trigger] self@.contains_key(other) implies self@[self.entries@[place as int].key@].used
                <= self@[other].used by {
                let k = lemma_key(self.entries@, other);
                assert(self.entries@[place as int].used <= self.entries@[k].used);
            }
        }
        place
    }

    /// Puts a file in for which upstream was last asked `age` before now. Where there is no room
    /// for it, the least recently used file makes some.
    pub fn put(&mut self, key: &str, data: &bytes::Bytes, last_modified: u64, age: u128, now: u128)
        requires
            old(self).wf(),
        ensures
            final(self).wf(),
            is_put(
                old(self)@,
                key@,
                (CachedFile {
                    data: bytes_contents(*data),
                    timestamp: now - age,
                    used: now,
                    last_modified,
                }),
                final(self)@,
            ),
    {
        let entry = CacheEntry {
            key: key.to_owned(),
            data: bytes_clone(data),
            put_at: now,
            age_when_put: age,
            used: now,
            last_modified,
        };
        proof {
            lemma_contents_len(self.entries@);
        }
        match self.find(key) {
            Some(i) => {
                proof {
                    lemma_replace(self.entries@, i as int, entry);
                }
                self.entries.set(i, entry);
            },
            None => {
                if self.entries.len() >= MAX_FILES_IN_RAM_CACHE {
                    let place = self.least_recently_used();
                    let ghost gone = self.entries@[place as int].key@;
                    proof {
                        lemma_remove(self.entries@, place as int);
                    }
                    self.entries.remove(place);
                    assert(is_least_recently_used(old(self)@, gone));
                }
                proof {
                    lemma_push(self.entries@, entry);
                }
                self.entries.push(entry);
            },
        }
    }
}

} // verus!
