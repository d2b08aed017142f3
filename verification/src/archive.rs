//! The archive: which versions of a data file are stored, and which are known to be.

use vstd::hash_map::StringHashMap;
use vstd::prelude::*;

use crate::external::{
    bytes_contents, bytes_from_vec, gunzip_bytes, gunzipped, gzip_bytes, gzipped,
};
use crate::hash::{canonical_hash, content_hash, is_hash, law_hash_ignores_row_order};
use crate::listing::{
    found_in, is_listing, is_listing_of, law_every_content_is_listed,
    law_listing_again_changes_nothing, law_listing_is_unique, list_versions, listed_le,
    lists_content_of, normalize, resolve_at, resolved, DirEntry, ISLANDS_FILE,
};
use crate::rows::rows;
use crate::text::{
    append_decimal, decimal, is_digit, lemma_decimal_injective, lemma_decimal_is_digits, str_eq,
};
use crate::timeline::{list_views, timeline, timeline_points};
use crate::version::{
    file_name, law_stored_name_says_time_and_hash, stored_name, temp_name, temporary_name, views, Version, VersionView,
};

verus! {

/// islands.txt is archived at most daily, so it doesn't define timeline points; each point
/// uses whichever islands copy is closest instead.
pub const TIMELINE_FILES: [&'static str; 3] = ["players.txt", "alliances.txt", "towns.txt"];

/// Only the islands' town-count column changes between regenerations.
pub const ISLANDS_MIN_INTERVAL_SECS: u64 = 24 * 60 * 60;

/// How long a listing of a directory is used, in nanoseconds.
pub const LISTING_TTL: u128 = 60_000_000_000;

/// What became of a copy of a data file that was handed to the archive.
#[derive(Debug, PartialEq, Eq, Structural)]
pub enum RecordOutcome {
    Stored,
    Duplicate,
    Throttled,
}

/// A version that is to be stored: its bytes under `temp_name` first, which is then renamed to
/// `name`.
pub struct NewVersion {
    pub lm: u64,
    pub hash: String,
    pub name: String,
    pub temp_name: String,
    pub gz: Vec<u8>,
}

/// What is to be done with a copy of a data file.
pub enum RecordPlan {
    /// There is nothing to store.
    Skip(RecordOutcome),
    Store(NewVersion),
}

/// The versions of one file, as they were listed at some time.
pub struct Listing {
    /// in nanoseconds, by the clock that the archive is used with
    pub listed_at: u128,
    pub versions: Vec<Version>,
}

/// A listing as the contracts see it.
pub struct ListingView {
    pub listed_at: u128,
    pub versions: Seq<VersionView>,
}

impl View for Listing {
    type V = ListingView;

    open spec fn view(&self) -> ListingView {
        ListingView { listed_at: self.listed_at, versions: views(self.versions@) }
    }
}

/// How long ago `since` was; no time at all if it is yet to come.
pub open spec fn elapsed(since: u128, now: u128) -> u128 {
    if since <= now {
        (now - since) as u128
    } else {
        0
    }
}

/// How long ago `since` was; no time at all if it is yet to come.
pub fn time_since(since: u128, now: u128) -> (passed: u128)
    ensures
        passed == elapsed(since, now),
{
    if since <= now {
        now - since
    } else {
        0
    }
}

/// There is a version with this content.
pub open spec fn has_content(list: Seq<VersionView>, hash: Seq<char>) -> bool {
    exists|i: int| 0 <= i < list.len() && (#[trigger] list[i]).hash == hash
}

/// A copy of an islands file from the time `lm` comes too soon after the last version.
pub open spec fn is_too_soon(list: Seq<VersionView>, file: Seq<char>, lm: u64) -> bool {
    file == ISLANDS_FILE@ && list.len() > 0 && lm - list.last().lm < ISLANDS_MIN_INTERVAL_SECS
}

/// What becomes of a copy from the time `lm`, with this content, where `list` are the versions
/// there are.
pub open spec fn outcome(
    list: Seq<VersionView>,
    file: Seq<char>,
    lm: u64,
    hash: Seq<char>,
) -> RecordOutcome {
    if has_content(list, hash) {
        RecordOutcome::Duplicate
    } else if is_too_soon(list, file, lm) {
        RecordOutcome::Throttled
    } else {
        RecordOutcome::Stored
    }
}

/// `new` stores `data` from the time `lm`.
pub open spec fn is_record_of(new: NewVersion, lm: u64, data: Seq<u8>) -> bool {
    &&& new.lm == lm
    &&& new.hash@ == content_hash(data)
    &&& new.name@ == stored_name(lm, new.hash@)
    &&& new.temp_name@ == temporary_name(new.name@)
    &&& gzipped(data) == Some(new.gz@)
    &&& gunzipped(new.gz@) == Some(data)
}

/// What reading a stored version gives: its plain bytes, unless they are damaged.
pub open spec fn is_plain_of(gz: Seq<u8>, plain: Result<bytes::Bytes, std::io::Error>) -> bool {
    match plain {
        Ok(buffer) => gunzipped(gz) == Some(bytes_contents(buffer)),
        Err(_) => gunzipped(gz) is None,
    }
}

/// What is read from a stored version is what was stored.
pub proof fn law_read_gives_back_what_was_stored(
    new: NewVersion,
    lm: u64,
    data: Seq<u8>,
    plain: Result<bytes::Bytes, std::io::Error>,
)
    requires
        is_record_of(new, lm, data),
        is_plain_of(new.gz@, plain),
    ensures
        plain is Ok,
        bytes_contents(plain->Ok_0) == data,
{
}

/// Once a content is listed, every copy of it is a duplicate: of whatever time, and in whatever
/// order its rows come.
pub proof fn law_content_is_stored_once(
    list: Seq<VersionView>,
    version: VersionView,
    updated: Seq<VersionView>,
    data: Seq<u8>,
    again: Seq<u8>,
    file: Seq<char>,
    lm: u64,
)
    requires
        version.hash == content_hash(data),
        is_listing_of(list.push(version), updated),
        rows(again).to_multiset() == rows(data).to_multiset(),
    ensures
        outcome(updated, file, lm, content_hash(again)) == RecordOutcome::Duplicate,
{
    law_hash_ignores_row_order(again, data);
    law_every_content_is_listed(list.push(version), updated);
    assert(list.push(version)[list.len() as int] == version);
    assert(lists_content_of(updated, version));
}

/// An islands copy is stored only a day or more after all versions there are.
pub proof fn law_islands_are_stored_at_most_daily(
    list: Seq<VersionView>,
    lm: u64,
    hash: Seq<char>,
    i: int,
)
    requires
        is_listing(list),
        outcome(list, ISLANDS_FILE@, lm, hash) == RecordOutcome::Stored,
        0 <= i < list.len(),
    ensures
        list[i].lm + ISLANDS_MIN_INTERVAL_SECS <= lm,
{
    if i < list.len() - 1 {
        assert(listed_le(list[i], list[list.len() - 1]));
    }
}

/// Versions are at least a day apart.
pub open spec fn is_spaced(list: Seq<VersionView>) -> bool {
    forall|i: int, j: int|
        #![trigger list[i], list[j]]
        0 <= i < j < list.len() ==> list[i].lm + ISLANDS_MIN_INTERVAL_SECS <= list[j].lm
}

/// What `list` becomes when `copy` is handed to the archive.
pub open spec fn is_recorded(
    list: Seq<VersionView>,
    file: Seq<char>,
    copy: VersionView,
    after: Seq<VersionView>,
) -> bool {
    if outcome(list, file, copy.lm, copy.hash) == RecordOutcome::Stored {
        is_listing_of(list.push(copy), after)
    } else {
        after == list
    }
}

/// An archive that was empty was handed `copies` one after the other; `lists` are the versions
/// that there were before each of them, and at the end.
pub open spec fn is_recording(
    file: Seq<char>,
    copies: Seq<VersionView>,
    lists: Seq<Seq<VersionView>>,
) -> bool {
    &&& lists.len() == copies.len() + 1
    &&& lists[0].len() == 0
    &&& forall|k: int|
        #![trigger copies[k]]
        0 <= k < copies.len() ==> is_recorded(lists[k], file, copies[k], lists[k + 1])
}

/// Whatever copies an archive was handed, it has no content twice, and the versions of an islands
/// file are a day or more apart.
pub proof fn law_archive_stays_sparse(
    file: Seq<char>,
    copies: Seq<VersionView>,
    lists: Seq<Seq<VersionView>>,
    k: int,
)
    requires
        is_recording(file, copies, lists),
        0 <= k < lists.len(),
    ensures
        is_listing(lists[k]),
        forall|i: int, j: int|
            #![trigger lists[k][i], lists[k][j]]
            0 <= i < j < lists[k].len() ==> lists[k][i].hash != lists[k][j].hash,
        file == ISLANDS_FILE@ ==> is_spaced(lists[k]),
    decreases k,
{
    if k > 0 {
        law_archive_stays_sparse(file, copies, lists, k - 1);
        let list = lists[k - 1];
        let copy = copies[k - 1];
        assert(is_recorded(list, file, copy, lists[k]));
        if outcome(list, file, copy.lm, copy.hash) == RecordOutcome::Stored && file
            == ISLANDS_FILE@ {
            let more = list.push(copy);
            assert forall|i: int| 0 <= i < list.len() implies (#[trigger] list[i]).lm
                + ISLANDS_MIN_INTERVAL_SECS <= copy.lm by {
                law_islands_are_stored_at_most_daily(list, copy.lm, copy.hash, i);
            }
            assert(is_listing(more)) by {
                assert forall|i: int, j: int|
                    #![trigger more[i], more[j]]
                    0 <= i < j < more.len() implies listed_le(more[i], more[j]) && more[i].hash
                    != more[j].hash by {
                    assert(more[i] == list[i]);
                    if j < list.len() {
                        assert(more[j] == list[j]);
                    }
                }
            }
            law_listing_again_changes_nothing(more);
            law_listing_is_unique(more, more, lists[k]);
        }
    }
}

/// Other files are stored whenever their content is new.
pub proof fn law_new_content_is_stored(
    list: Seq<VersionView>,
    file: Seq<char>,
    lm: u64,
    hash: Seq<char>,
)
    requires
        file != ISLANDS_FILE@,
    ensures
        outcome(list, file, lm, hash) == RecordOutcome::Stored <==> !has_content(list, hash),
{
}

/// A copy is a duplicate exactly when some version has its content. If none has, a copy of the
/// islands is throttled exactly when there are versions and it comes less than a day after the last
/// of them, and every other copy is stored.
pub proof fn law_outcome_follows_content_and_time(
    list: Seq<VersionView>,
    file: Seq<char>,
    lm: u64,
    hash: Seq<char>,
)
    ensures
        outcome(list, file, lm, hash) == RecordOutcome::Duplicate <==> exists|i: int|
            0 <= i < list.len() && (#[trigger] list[i]).hash == hash,
        outcome(list, file, lm, hash) == RecordOutcome::Throttled <==> {
            &&& forall|i: int| 0 <= i < list.len() ==> (#[trigger] list[i]).hash != hash
            &&& file == "islands.txt"@
            &&& list.len() > 0
            &&& lm < list[list.len() - 1].lm + 86_400
        },
{
}

/// A version that is to be stored has the time of the copy, the hash of its rows, the name that
/// says both, and bytes that unpack to the copy.
pub proof fn law_record_holds_the_copy(new: NewVersion, lm: u64, data: Seq<u8>)
    requires
        is_record_of(new, lm, data),
    ensures
        new.lm == lm,
        new.hash@ == content_hash(data),
        new.name@ == decimal(lm as nat) + "-"@ + content_hash(data) + ".txt.gz"@,
        new.temp_name@ == "."@ + new.name@ + ".tmp"@,
        gzipped(data) == Some(new.gz@),
        gunzipped(new.gz@) == Some(data),
{
    law_stored_name_says_time_and_hash(lm, content_hash(data), new.name@);
}

/// A stored version is read to what its bytes unpack to, and not at all where they do not.
pub proof fn law_version_is_read_to_what_it_unpacks_to(
    gz: Seq<u8>,
    plain: Result<bytes::Bytes, std::io::Error>,
)
    requires
        is_plain_of(gz, plain),
    ensures
        plain is Ok <==> gunzipped(gz) is Some,
        plain is Ok ==> Some(bytes_contents(plain->Ok_0)) == gunzipped(gz),
{
}

/// The time that has passed since some time is the difference, and none if that is yet to come.
pub proof fn law_elapsed_is_the_difference(since: u128, now: u128)
    ensures
        since <= now ==> elapsed(since, now) + since == now,
        now <= since ==> elapsed(since, now) == 0,
{
}

/// A listing is used for a minute, and not after.
pub proof fn law_listing_is_used_for_a_minute(
    archive: Archive,
    server: Seq<char>,
    file: Seq<char>,
    now: u128,
    list: Seq<VersionView>,
)
    ensures
        archive.fresh(server, file, now) == Some(list) <==> {
            &&& archive.listing(server, file) matches Some(listing)
            &&& listing.versions == list
            &&& now - listing.listed_at < 60_000_000_000
        },
        archive.fresh(server, file, now) is None <==> {
            archive.listing(server, file) matches Some(listing) ==> now - listing.listed_at
                >= 60_000_000_000
        },
{
}

/// What is learnt of one file changes nothing that is known of another.
pub proof fn law_listings_are_kept_apart(
    before: Archive,
    server: Seq<char>,
    file: Seq<char>,
    listing: ListingView,
    after: Archive,
    other_server: Seq<char>,
    other_file: Seq<char>,
)
    requires
        after.is_updated(&before, server, file, listing),
    ensures
        after.root() == before.root(),
        after.listing(server, file) == Some(listing),
        other_server != server || other_file != file ==> after.listing(other_server, other_file)
            == before.listing(other_server, other_file),
{
}

/// The last version of a listing is no older than any other.
pub proof fn law_newest_is_last(list: Seq<VersionView>, i: int)
    requires
        is_listing(list),
        0 <= i < list.len(),
    ensures
        list[i].lm <= list.last().lm,
{
    if i < list.len() - 1 {
        assert(listed_le(list[i], list[list.len() - 1]));
    }
}

/// What becomes of a copy from the time `lm`, with the content `hash`, where `existing` are the
/// versions there are.
pub fn record_outcome(existing: &Vec<Version>, file: &str, lm: u64, hash: &str) -> (r:
    RecordOutcome)
    ensures
        r == outcome(views(existing@), file@, lm, hash@),
{
    let ghost list = views(existing@);
    let mut i: usize = 0;
    while i < existing.len()
        invariant
            i <= existing@.len(),
            list == views(existing@),
            forall|k: int| 0 <= k < i ==> (#[trigger] list[k]).hash != hash@,
        decreases existing@.len() - i,
    {
        assert(list[i as int].hash == existing@[i as int].hash@);
        if str_eq(existing[i].hash.as_str(), hash) {
            return RecordOutcome::Duplicate;
        }
        i = i + 1;
    }
    if str_eq(file, ISLANDS_FILE) && existing.len() > 0 {
        assert(list.last().lm == existing@.last().lm);
        if lm.saturating_sub(existing[existing.len() - 1].lm) < ISLANDS_MIN_INTERVAL_SECS {
            return RecordOutcome::Throttled;
        }
    }
    RecordOutcome::Stored
}

/// The version to store for a copy from the time `lm`, with the content `hash`, that was
/// compressed to `gz`. Fails as the compression did.
pub fn new_version(lm: u64, hash: String, gz: Result<Vec<u8>, std::io::Error>) -> (r: Result<
    NewVersion,
    std::io::Error,
>)
    ensures
        match gz {
            Ok(bytes) => {
                &&& r matches Ok(new)
                &&& new.lm == lm
                &&& new.hash == hash
                &&& new.name@ == stored_name(lm, hash@)
                &&& new.temp_name@ == temporary_name(new.name@)
                &&& new.gz == bytes
            },
            Err(err) => r == Err::<NewVersion, std::io::Error>(err),
        },
{
    match gz {
        Ok(gz) => {
            let name = file_name(lm, hash.as_str());
            let temp_name = temp_name(name.as_str());
            Ok(NewVersion { lm, hash, name, temp_name, gz })
        },
        Err(err) => Err(err),
    }
}

/// The bytes that a version is stored as.
pub fn gzip(data: &[u8]) -> (gz: Result<Vec<u8>, std::io::Error>)
    ensures
        gz matches Ok(bytes) ==> gzipped(data@) == Some(bytes@) && gunzipped(bytes@) == Some(data@),
        gz is Err ==> gzipped(data@) is None,
{
    gzip_bytes(data)
}

/// What a listing is known by. The length keeps the two names apart.
pub open spec fn listing_key(server: Seq<char>, file: Seq<char>) -> Seq<char> {
    decimal(server.len()) + seq![':'] + server + file
}

proof fn lemma_listing_key_injective(s1: Seq<char>, f1: Seq<char>, s2: Seq<char>, f2: Seq<char>)
    requires
        listing_key(s1, f1) == listing_key(s2, f2),
    ensures
        s1 == s2,
        f1 == f2,
{
    let d1 = decimal(s1.len());
    let d2 = decimal(s2.len());
    let key = listing_key(s1, f1);
    lemma_decimal_is_digits(s1.len());
    lemma_decimal_is_digits(s2.len());
    assert(key[d1.len() as int] == ':');
    assert(key[d2.len() as int] == ':');
    if d1.len() < d2.len() {
        assert(key[d1.len() as int] == d2[d1.len() as int]);
        assert(is_digit(d2[d1.len() as int]));
    } else if d2.len() < d1.len() {
        assert(key[d2.len() as int] == d1[d2.len() as int]);
        assert(is_digit(d1[d2.len() as int]));
    }
    assert(key.take(d1.len() as int) =~= d1);
    assert(key.take(d2.len() as int) =~= d2);
    lemma_decimal_injective(s1.len(), s2.len());
    let start: int = d1.len() + 1int;
    assert(key.subrange(start, start + s1.len()) =~= s1);
    assert(key.subrange(start, start + s2.len()) =~= s2);
    assert(key.skip(start + s1.len()) =~= f1);
    assert(key.skip(start + s2.len()) =~= f2);
}

fn make_listing_key(server: &str, file: &str) -> (key: String)
    ensures
        key@ == listing_key(server@, file@),
{
    proof {
        reveal_strlit(":");
    }
    let mut key = String::new();
    let len = server.unicode_len();
    append_decimal(&mut key, len as u64);
    key.append(":");
    key.append(server);
    key.append(file);
    assert(key@ =~= listing_key(server@, file@));
    key
}

/// Every distinct version of every data file, stored as
/// `{dir}/{server}/{file}/{lm}-{hash}.txt.gz`.
///
/// Listings are cached briefly because the directory is a Cloud Storage FUSE mount, where
/// listing is slow.
pub struct Archive {
    dir: std::path::PathBuf,
    listings: StringHashMap<Listing>,
}

impl Archive {
    /// The directory that the archive is in.
    pub closed spec fn root(&self) -> std::path::PathBuf {
        self.dir
    }

    /// What is known of the versions of a file.
    pub closed spec fn listing(&self, server: Seq<char>, file: Seq<char>) -> Option<ListingView> {
        let key = listing_key(server, file);
        if self.listings@.contains_key(key) {
            Some(self.listings@[key]@)
        } else {
            None
        }
    }

    /// All that is known was listed.
    pub closed spec fn wf(&self) -> bool {
        forall|key: Seq<char>| #[trigger]
            self.listings@.contains_key(key) ==> is_listing(self.listings@[key]@.versions)
    }

    /// What is known of the versions of a file and can still be used at the time `now`.
    pub open spec fn fresh(&self, server: Seq<char>, file: Seq<char>, now: u128) -> Option<
        Seq<VersionView>,
    > {
        match self.listing(server, file) {
            Some(listing) => if elapsed(listing.listed_at, now) < LISTING_TTL {
                Some(listing.versions)
            } else {
                None
            },
            None => None,
        }
    }

    /// `self` knows what `before` did, but for the versions of one file.
    pub open spec fn is_updated(
        &self,
        before: &Archive,
        server: Seq<char>,
        file: Seq<char>,
        listing: ListingView,
    ) -> bool {
        &&& self.root() == before.root()
        &&& self.listing(server, file) == Some(listing)
        &&& forall|s: Seq<char>, f: Seq<char>|
            s != server || f != file ==> #[trigger] self.listing(s, f) == before.listing(s, f)
    }

    pub fn new(dir: std::path::PathBuf) -> (archive: Archive)
        ensures
            archive.wf(),
            archive.root() == dir,
            forall|server: Seq<char>, file: Seq<char>| #[trigger]
                archive.listing(server, file) is None,
    {
        Archive { dir, listings: StringHashMap::new() }
    }

    /// The directory that the archive is in.
    pub fn dir(&self) -> (dir: &std::path::PathBuf)
        ensures
            *dir == self.root(),
    {
        &self.dir
    }

    /// All versions of a file, oldest first, if they were listed a short while ago. Otherwise
    /// the directory has to be listed, and [`Archive::refresh`] takes what is in it.
    pub fn versions(&self, server: &str, file: &str, now: u128) -> (versions: Option<Vec<Version>>)
        requires
            self.wf(),
        ensures
            match versions {
                Some(list) => self.fresh(server@, file@, now) == Some(views(list@)) && is_listing(
                    views(list@),
                ),
                None => self.fresh(server@, file@, now) is None,
            },
    {
        let key = make_listing_key(server, file);
        match self.listings.get(key.as_str()) {
            Some(listing) => {
                if time_since(listing.listed_at, now) < LISTING_TTL {
                    let list = listing.versions.clone();
                    assert(list@ =~= listing.versions@);
                    Some(list)
                } else {
                    None
                }
            },
            None => None,
        }
    }

    fn set_listing(&mut self, server: &str, file: &str, listing: Listing)
        requires
            old(self).wf(),
            is_listing(listing@.versions),
        ensures
            final(self).wf(),
            final(self).is_updated(old(self), server@, file@, listing@),
    {
        let key = make_listing_key(server, file);
        self.listings.insert(key, listing);
        proof {
            assert forall|s: Seq<char>, f: Seq<char>|
                s != server@ || f != file@ implies #[trigger] self.listing(s, f) == old(
                self,
            ).listing(s, f) by {
                if listing_key(s, f) == key@ {
                    lemma_listing_key_injective(s, f, server@, file@);
                }
            }
        }
    }

    /// Takes what is in the directory of a file, and gives back the versions there are, oldest
    /// first.
    pub fn refresh(&mut self, server: &str, file: &str, now: u128, entries: Vec<DirEntry>) -> (list:
        Vec<Version>)
        requires
            old(self).wf(),
        ensures
            final(self).wf(),
            is_listing_of(found_in(entries@), views(list@)),
            final(self).is_updated(
                old(self),
                server@,
                file@,
                (ListingView { listed_at: now, versions: views(list@) }),
            ),
    {
        let list = list_versions(entries);
        let copy = list.clone();
        assert(copy@ =~= list@);
        self.set_listing(server, file, Listing { listed_at: now, versions: copy });
        list
    }

    /// What is to be done with a copy of a data file from the time `lm`, where `existing` are
    /// the versions there are. Fails only where a copy that is to be stored cannot be compressed.
    pub fn record(file: &str, lm: u64, data: &[u8], existing: &Vec<Version>) -> (plan: Result<
        RecordPlan,
        std::io::Error,
    >)
        ensures
            match plan {
                Ok(RecordPlan::Skip(r)) => r == outcome(
                    views(existing@),
                    file@,
                    lm,
                    content_hash(data@),
                ) && r != RecordOutcome::Stored,
                Ok(RecordPlan::Store(new)) => outcome(
                    views(existing@),
                    file@,
                    lm,
                    content_hash(data@),
                ) == RecordOutcome::Stored && is_record_of(new, lm, data@) && is_hash(new.hash@),
                Err(_) => outcome(views(existing@), file@, lm, content_hash(data@))
                    == RecordOutcome::Stored && gzipped(data@) is None,
            },
    {
        let hash = canonical_hash(data);
        match record_outcome(existing, file, lm, hash.as_str()) {
            RecordOutcome::Stored => match new_version(lm, hash, gzip(data)) {
                Ok(new) => Ok(RecordPlan::Store(new)),
                Err(err) => Err(err),
            },
            RecordOutcome::Duplicate => Ok(RecordPlan::Skip(RecordOutcome::Duplicate)),
            RecordOutcome::Throttled => Ok(RecordPlan::Skip(RecordOutcome::Throttled)),
        }
    }

    /// Adds a version that was stored beside the `existing` ones.
    pub fn commit(
        &mut self,
        server: &str,
        file: &str,
        now: u128,
        existing: Vec<Version>,
        version: Version,
    )
        requires
            old(self).wf(),
        ensures
            final(self).wf(),
            exists|updated: Seq<VersionView>| #[trigger]
                is_listing_of(views(existing@).push(version@), updated) && final(self).is_updated(
                    old(self),
                    server@,
                    file@,
                    (ListingView { listed_at: now, versions: updated }),
                ),
    {
        let mut versions = existing;
        versions.push(version);
        assert(views(versions@) =~= views(existing@).push(version@));
        let updated = normalize(versions);
        self.set_listing(server, file, Listing { listed_at: now, versions: updated });
        assert(is_listing_of(views(existing@).push(version@), views(updated@)));
    }

    /// The newest of the versions of a file.
    pub fn newest(versions: Vec<Version>) -> (newest: Option<Version>)
        ensures
            match newest {
                Some(version) => versions@.len() > 0 && version == versions@.last(),
                None => versions@.len() == 0,
            },
    {
        let mut versions = versions;
        versions.pop()
    }

    /// The version of a file that stands for the time `t`.
    pub fn at(versions: &Vec<Version>, file: &str, t: u64) -> (found: Option<Version>)
        ensures
            match found {
                Some(version) => {
                    &&& resolved(views(versions@), file@, t) matches Some(i)
                    &&& 0 <= i < versions@.len()
                    &&& version == versions@[i]
                },
                None => resolved(views(versions@), file@, t) is None,
            },
    {
        match resolve_at(versions.as_slice(), file, t) {
            Some(version) => Some(version.clone()),
            None => None,
        }
    }

    /// The plain bytes of a stored version.
    pub fn read_plain(gz: &[u8]) -> (plain: Result<bytes::Bytes, std::io::Error>)
        ensures
            is_plain_of(gz@, plain),
    {
        match gunzip_bytes(gz) {
            Ok(plain) => Ok(bytes_from_vec(plain)),
            Err(err) => Err(err),
        }
    }

    /// The points in time at which every file can be shown, from the listings of the timeline
    /// files and that of the islands.
    pub fn timeline(per_file: &[Vec<Version>], islands: &Vec<Version>) -> (points: Vec<u64>)
        ensures
            points@ == timeline(list_views(per_file@), islands@.len() > 0),
    {
        timeline_points(per_file, !islands.is_empty())
    }
}

} // verus!
