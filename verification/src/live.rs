//! How a data file is served live: from memory, from disk or from upstream. A copy from upstream
//! is not served where a newer one is known.
//!
//! Serving a file is a sequence of [`Step`]s. Each asks for one piece of work outside, and is
//! answered by its method, which gives the next step.

use vstd::prelude::*;

use crate::archive::{
    is_record_of, law_newest_is_last, law_outcome_follows_content_and_time,
    law_record_holds_the_copy, outcome, Archive, ListingView, NewVersion, RecordOutcome, RecordPlan,
};
use crate::cache::{
    fresh_data, is_put, is_served, law_file_is_served_until_it_expires, law_fresh_data_is_young,
    law_newer_of_two_is_taken, law_put_replaces_one_file, newer_of, CachedFile,
};
use crate::external::{
    bytes_as_slice, bytes_contents, bytes_from_vec, gunzipped, gzipped, http_date, parse_http_date,
};
use crate::hash::content_hash;
use crate::listing::{found_in, is_listing, is_listing_of, DirEntry};
use crate::request::Status;
use crate::state::{
    failed_recently, law_failure_counts_for_a_quarter_of_an_hour, AppState,
};
use crate::text::{decimal, lemma_slash_splits};
use crate::version::{
    file_location, file_path, stored_name, temporary_name, version_location, version_path, views,
    Version, VersionView,
};

verus! {

/// What a file is cached under.
pub open spec fn cache_key(server: Seq<char>, datafile: Seq<char>) -> Seq<char> {
    server + "/"@ + datafile
}

/// Where upstream serves a file.
pub open spec fn upstream_address(server: Seq<char>, datafile: Seq<char>) -> Seq<char> {
    "https://"@ + server + ".grepolis.com/data/"@ + datafile
}

/// The time of a copy from upstream: what its `Last-Modified` header says, or now.
pub open spec fn modified_at(header: Option<Seq<char>>, unix_now: u64) -> u64 {
    match header {
        Some(text) => match http_date(text) {
            Some(secs) => secs,
            None => unix_now,
        },
        None => unix_now,
    }
}

/// The file that is to be served, and how old a cached copy may be, in nanoseconds.
pub struct Target {
    pub server: String,
    pub datafile: String,
    pub key: String,
    pub max_age: u128,
}

impl Target {
    pub open spec fn is(
        &self,
        server: Seq<char>,
        datafile: Seq<char>,
        max_age: u128,
    ) -> bool {
        &&& self.server@ == server
        &&& self.datafile@ == datafile
        &&& self.key@ == cache_key(server, datafile)
        &&& self.max_age == max_age
    }

    fn new(server: &str, datafile: &str, max_age: u128) -> (target: Target)
        ensures
            target.is(server@, datafile@, max_age),
    {
        let mut key = String::new();
        key.append(server);
        key.append("/");
        key.append(datafile);
        assert(key@ =~= cache_key(server@, datafile@));
        Target { server: server.to_owned(), datafile: datafile.to_owned(), key, max_age }
    }

    /// Where upstream serves the file.
    pub fn url(&self) -> (url: String)
        ensures
            url@ == upstream_address(self.server@, self.datafile@),
    {
        upstream_url(self.server.as_str(), self.datafile.as_str())
    }

    /// Where the archived versions of the file lie, below the directory of the archive.
    pub fn archive_path(&self) -> (path: String)
        ensures
            path@ == file_location(self.server@, self.datafile@),
    {
        file_path(self.server.as_str(), self.datafile.as_str())
    }

    fn fail(self, state: &mut AppState, now: u128) -> (step: Step)
        requires
            old(state).wf(),
        ensures
            final(state).wf(),
            has_failed(*old(state), self, now, step, *final(state)),
    {
        state.failed_cache.insert(self.key, now);
        Step::Done(Err(Status::BadGateway))
    }
}

/// Asks whether the file is cached on disk, under the key of the target.
pub struct ProbeDisk {
    pub target: Target,
}

/// Asks for the data that is cached on disk, and was written `age` before.
pub struct ReadDisk {
    pub target: Target,
    pub age: u128,
}

/// Asks upstream for the file.
pub struct Fetch {
    pub target: Target,
}

/// Asks for the body of what upstream answered.
pub struct ReadBody {
    pub target: Target,
}

/// A copy of the file that is going to be served, unless there is a newer one.
pub struct Candidate {
    pub target: Target,
    pub data: bytes::Bytes,
    pub last_modified: u64,
}

/// Asks for a listing of the archived versions, to see whether the copy is new.
pub struct ListForRecord {
    pub copy: Candidate,
}

/// Tells what became of a copy that is not stored in the archive.
pub struct NotStored {
    pub copy: Candidate,
    pub result: Result<RecordOutcome, std::io::Error>,
}

/// Asks to store a version in the archive.
pub struct StoreVersion {
    pub copy: Candidate,
    pub existing: Vec<Version>,
    pub new: NewVersion,
}

/// Asks for a listing of the archived versions, to see whether one is newer than the copy.
pub struct ListForNewest {
    pub copy: Candidate,
}

/// Asks for the stored bytes of an archived version that is newer than the copy.
pub struct ReadNewest {
    pub copy: Candidate,
    pub version: Version,
}

/// Asks to write the copy to the cache on disk.
pub struct WriteDisk {
    pub copy: Candidate,
}

/// What is to be done next to serve a file.
pub enum Step {
    ProbeDisk(ProbeDisk),
    ReadDisk(ReadDisk),
    Fetch(Fetch),
    ReadBody(ReadBody),
    ListForRecord(ListForRecord),
    NotStored(NotStored),
    StoreVersion(StoreVersion),
    ListForNewest(ListForNewest),
    ReadNewest(ReadNewest),
    WriteDisk(WriteDisk),
    /// The data to serve, or the failure to report.
    Done(Result<bytes::Bytes, Status>),
}

/// What is found on disk under the key of a file.
pub struct DiskFile {
    pub is_file: bool,
    /// how long ago it was written, in nanoseconds, if that can be told
    pub age: Option<u128>,
}

/// A successful answer from upstream, with its body.
pub struct UpstreamReply {
    pub body: bytes::Bytes,
    /// the `Last-Modified` header, if there is one that is text
    pub last_modified: Option<String>,
}

/// What is on disk can be used.
pub open spec fn is_usable(found: Option<DiskFile>, max_age: u128) -> bool {
    &&& found matches Some(file)
    &&& file.is_file
    &&& file.age matches Some(age)
    &&& age < max_age
}

/// `step` is the end, and `data` is served.
pub open spec fn serves(step: Step, data: Seq<u8>) -> bool {
    step matches Step::Done(Ok(buffer)) && bytes_contents(buffer) == data
}

/// An HTTP status that tells of success; a redirect does not.
pub open spec fn is_success_status(status: u16) -> bool {
    200 <= status < 300
}

/// Upstream failed to serve the target: that is reported, and `after` differs from `before` in
/// that it is remembered.
pub open spec fn has_failed(
    before: AppState,
    target: Target,
    now: u128,
    step: Step,
    after: AppState,
) -> bool {
    &&& reports_failure(step)
    &&& after.cache == before.cache
    &&& after.archive == before.archive
    &&& after.failed_cache@ == before.failed_cache@.insert(target.key@, now)
}

/// `step` is the end, and the failure of upstream is reported.
pub open spec fn reports_failure(step: Step) -> bool {
    step matches Step::Done(Err(status)) && status == Status::BadGateway
}

/// `step` writes the copy to disk, or the cached one if that is newer.
pub open spec fn settles(copy: Candidate, state: AppState, step: Step) -> bool {
    &&& step matches Step::WriteDisk(write)
    &&& write.copy.target == copy.target
    &&& (bytes_contents(write.copy.data), write.copy.last_modified) == newer_of(
        state.cache@,
        copy.target.key@,
        bytes_contents(copy.data),
        copy.last_modified,
    )
}

/// `step` turns to the newest of the archived versions if that is newer than the copy.
pub open spec fn picks_from(
    copy: Candidate,
    state: AppState,
    list: Seq<VersionView>,
    step: Step,
) -> bool {
    if list.len() > 0 && list.last().lm > copy.last_modified {
        &&& step matches Step::ReadNewest(read)
        &&& read.copy == copy
        &&& read.version@ == list.last()
    } else {
        settles(copy, state, step)
    }
}

/// `step` looks for an archived version that is newer than the copy.
pub open spec fn picks(copy: Candidate, state: AppState, now: u128, step: Step) -> bool {
    match state.archive {
        Some(archive) => match archive.fresh(copy.target.server@, copy.target.datafile@, now) {
            Some(list) => picks_from(copy, state, list, step),
            None => step matches Step::ListForNewest(ask) && ask.copy == copy,
        },
        None => settles(copy, state, step),
    }
}

/// `step` stores the copy in the archive.
pub open spec fn stores(copy: Candidate, existing: Seq<VersionView>, step: Step) -> bool {
    &&& step matches Step::StoreVersion(store)
    &&& store.copy == copy
    &&& views(store.existing@) == existing
    &&& is_record_of(store.new, copy.last_modified, bytes_contents(copy.data))
}

/// `step` tells that the copy is not stored, because of `outcome`, or of an error if that is
/// `None`.
pub open spec fn passes(copy: Candidate, outcome: Option<RecordOutcome>, step: Step) -> bool {
    &&& step matches Step::NotStored(told)
    &&& told.copy == copy
    &&& match outcome {
        Some(outcome) => told.result matches Ok(result) && result == outcome,
        None => told.result is Err,
    }
}

/// `step` stores the copy in the archive where it is to be stored, and otherwise tells why it is
/// not stored. What is to be stored fails to be only where it cannot be compressed.
pub open spec fn records(copy: Candidate, existing: Seq<VersionView>, step: Step) -> bool {
    let result = outcome(
        existing,
        copy.target.datafile@,
        copy.last_modified,
        content_hash(bytes_contents(copy.data)),
    );
    if result != RecordOutcome::Stored {
        passes(copy, Some(result), step)
    } else if gzipped(bytes_contents(copy.data)) is Some {
        stores(copy, existing, step)
    } else {
        passes(copy, None, step)
    }
}

/// The archived version from the time `time` cannot be read, and is newer than the copy: `step`
/// writes the cached copy if that is no older than the version, and otherwise reports a failure.
pub open spec fn falls_back(copy: Candidate, time: u64, state: AppState, step: Step) -> bool {
    if newer_of(state.cache@, copy.target.key@, bytes_contents(copy.data), copy.last_modified).1
        >= time {
        settles(copy, state, step)
    } else {
        reports_failure(step)
    }
}

/// `step` hands the copy to the archive, if there is one.
pub open spec fn offers(copy: Candidate, state: AppState, now: u128, step: Step) -> bool {
    match state.archive {
        Some(archive) => match archive.fresh(copy.target.server@, copy.target.datafile@, now) {
            Some(existing) => records(copy, existing, step),
            None => step matches Step::ListForRecord(ask) && ask.copy == copy,
        },
        None => settles(copy, state, step),
    }
}

/// `after` differs from `before` in what the archive knows of the versions of the target: they
/// are `list` now.
pub open spec fn is_relisted(
    before: AppState,
    target: Target,
    now: u128,
    list: Seq<VersionView>,
    after: AppState,
) -> bool {
    &&& after.cache == before.cache
    &&& after.failed_cache == before.failed_cache
    &&& before.archive matches Some(old_archive)
    &&& after.archive matches Some(new_archive)
    &&& new_archive.is_updated(
        &old_archive,
        target.server@,
        target.datafile@,
        (ListingView { listed_at: now, versions: list }),
    )
}

/// `after` differs from `before` in that the file is in memory.
pub open spec fn is_cached(
    before: AppState,
    target: Target,
    file: CachedFile,
    after: AppState,
) -> bool {
    &&& after.failed_cache == before.failed_cache
    &&& after.archive == before.archive
    &&& is_put(before.cache@, target.key@, file, after.cache@)
}

/// `after` differs from `before` in that the file was used now.
pub open spec fn is_touched(
    before: AppState,
    key: Seq<char>,
    now: u128,
    after: AppState,
) -> bool {
    &&& after.failed_cache == before.failed_cache
    &&& after.archive == before.archive
    &&& is_served(before.cache@, key, now, after.cache@)
}

/// `step` is the first step to serve a file, of which a cached copy must be less than `max_age`
/// old.
pub open spec fn begins(
    before: AppState,
    server: Seq<char>,
    datafile: Seq<char>,
    max_age: u128,
    now: u128,
    step: Step,
    after: AppState,
) -> bool {
    let key = cache_key(server, datafile);
    if failed_recently(before.failed_cache@, key, now) {
        reports_failure(step) && after == before
    } else {
        match fresh_data(before.cache@, key, max_age, now) {
            Some(data) => serves(step, data) && is_touched(before, key, now, after),
            None => {
                &&& step matches Step::ProbeDisk(probe)
                &&& probe.target.is(server, datafile, max_age)
                &&& after == before
            },
        }
    }
}

/// The time of the copy that is going to be served, unless there is a newer one.
pub open spec fn carried(step: Step) -> Option<u64> {
    match step {
        Step::ListForRecord(ask) => Some(ask.copy.last_modified),
        Step::NotStored(told) => Some(told.copy.last_modified),
        Step::StoreVersion(store) => Some(store.copy.last_modified),
        Step::ListForNewest(ask) => Some(ask.copy.last_modified),
        Step::ReadNewest(read) => Some(read.copy.last_modified),
        Step::WriteDisk(write) => Some(write.copy.last_modified),
        _ => None,
    }
}

/// A copy is never given up for an older one, on any of the ways from being fetched to being
/// served.
pub proof fn law_no_older_copy_than_fetched(
    copy: Candidate,
    state: AppState,
    existing: Seq<VersionView>,
    now: u128,
    step: Step,
)
    requires
        offers(copy, state, now, step) || records(copy, existing, step) || picks(
            copy,
            state,
            now,
            step,
        ) || picks_from(copy, state, existing, step) || settles(copy, state, step),
    ensures
        carried(step) matches Some(time) && copy.last_modified <= time,
{
}

/// Once the archived versions are known, none that is newer is passed over: a copy that is
/// written is no older than any of them, and otherwise the newest of them is read.
pub proof fn law_no_older_copy_than_archived(
    copy: Candidate,
    state: AppState,
    list: Seq<VersionView>,
    step: Step,
    i: int,
)
    requires
        is_listing(list),
        picks_from(copy, state, list, step),
        0 <= i < list.len(),
    ensures
        match step {
            Step::WriteDisk(write) => list[i].lm <= write.copy.last_modified,
            Step::ReadNewest(read) => {
                &&& list[i].lm <= read.version.lm
                &&& copy.last_modified < read.version.lm
                &&& list.contains(read.version@)
            },
            _ => false,
        },
{
    law_newest_is_last(list, i);
}

/// A copy is not served in place of an archived version that is newer, whether or not that can be
/// read: what is written is no older than the version, and otherwise a failure is reported.
pub proof fn law_no_older_copy_than_unreadable(
    copy: Candidate,
    newest: Candidate,
    time: u64,
    state: AppState,
    step: Step,
)
    requires
        settles(newest, state, step) && newest.last_modified == time || falls_back(
            copy,
            time,
            state,
            step,
        ),
    ensures
        match step {
            Step::WriteDisk(write) => time <= write.copy.last_modified,
            _ => reports_failure(step),
        },
{
}

/// A copy from disk that was put in memory is as old there as it was on disk: it is served only
/// while less than `max_age` has passed since it was written.
pub proof fn law_disk_copy_keeps_its_age(
    before: AppState,
    target: Target,
    data: Seq<u8>,
    age: u128,
    read_at: u128,
    after: AppState,
    max_age: u128,
    now: u128,
)
    requires
        is_cached(
            before,
            target,
            (CachedFile { data, timestamp: read_at - age, used: read_at, last_modified: 0 }),
            after,
        ),
        read_at <= now,
    ensures
        fresh_data(after.cache@, target.key@, max_age, now) is Some <==> (now - read_at) + age
            < max_age,
{
    law_file_is_served_until_it_expires(
        before.cache@,
        target.key@,
        CachedFile { data, timestamp: read_at - age, used: read_at, last_modified: 0 },
        after.cache@,
        max_age,
        now,
    );
}

/// What is in memory, however old, is not replaced by an older copy that was fetched.
pub proof fn law_no_older_copy_than_cached(
    copy: Candidate,
    before: AppState,
    write: WriteDisk,
    now: u128,
    after: AppState,
)
    requires
        settles(copy, before, Step::WriteDisk(write)),
        is_cached(
            before,
            write.copy.target,
            (CachedFile {
                data: bytes_contents(write.copy.data),
                timestamp: now as int,
                used: now,
                last_modified: write.copy.last_modified,
            }),
            after,
        ),
    ensures
        after.cache@.contains_key(copy.target.key@),
        after.cache@[copy.target.key@].last_modified >= copy.last_modified,
        before.cache@.contains_key(copy.target.key@)
            ==> after.cache@[copy.target.key@].last_modified
            >= before.cache@[copy.target.key@].last_modified,
{
}

/// How many pieces of work outside may still be asked for.
pub open spec fn steps_left(step: Step) -> nat {
    match step {
        Step::ProbeDisk(_) => 9,
        Step::ReadDisk(_) => 8,
        Step::Fetch(_) => 7,
        Step::ReadBody(_) => 6,
        Step::ListForRecord(_) => 5,
        Step::NotStored(_) => 4,
        Step::StoreVersion(_) => 4,
        Step::ListForNewest(_) => 3,
        Step::ReadNewest(_) => 2,
        Step::WriteDisk(_) => 1,
        Step::Done(_) => 0,
    }
}

/// Serving a file comes to an end: what follows an answer has fewer steps left than what asked
/// for it. `ProbeDisk` is followed by `ReadDisk` or `Fetch`, `ReadDisk` by the end or `Fetch`, and
/// `Fetch` by `ReadBody` or a failure. `ReadBody` is followed by what offers a copy or by a
/// failure, `ListForRecord` by what records it, `NotStored` and `StoreVersion` by what picks a version, `ListForNewest` by what
/// picks from a list, and `ReadNewest` by what settles on a copy or falls back on one.
pub proof fn law_serving_comes_to_an_end(
    copy: Candidate,
    state: AppState,
    list: Seq<VersionView>,
    now: u128,
    step: Step,
    probe: ProbeDisk,
    read_disk: ReadDisk,
    fetch: Fetch,
    body: ReadBody,
    list_for_record: ListForRecord,
    told: NotStored,
    store: StoreVersion,
    list_for_newest: ListForNewest,
    read: ReadNewest,
)
    ensures
        steps_left(Step::ReadDisk(read_disk)) < steps_left(Step::ProbeDisk(probe)),
        steps_left(Step::Fetch(fetch)) < steps_left(Step::ReadDisk(read_disk)),
        steps_left(Step::ReadBody(body)) < steps_left(Step::Fetch(fetch)),
        reports_failure(step) ==> steps_left(step) < steps_left(Step::ReadBody(body)),
        offers(copy, state, now, step) ==> steps_left(step) < steps_left(Step::ReadBody(body)),
        records(copy, list, step) ==> steps_left(step) < steps_left(
            Step::ListForRecord(list_for_record),
        ),
        picks(copy, state, now, step) ==> steps_left(step) < steps_left(Step::NotStored(told)),
        picks(copy, state, now, step) ==> steps_left(step) < steps_left(Step::StoreVersion(store)),
        picks_from(copy, state, list, step) ==> steps_left(step) < steps_left(
            Step::ListForNewest(list_for_newest),
        ),
        settles(copy, state, step) ==> steps_left(step) < steps_left(Step::ReadNewest(read)),
        falls_back(copy, read.version.lm, state, step) ==> steps_left(step) < steps_left(
            Step::ReadNewest(read),
        ),
{
}

/// A copy that is stored lies, below the directory of the archive, under its server, its file, and
/// a name made of its time and its content hash; it is written in the same place under a name
/// that is passed over.
pub proof fn law_version_is_stored_in_its_place(
    copy: Candidate,
    existing: Seq<VersionView>,
    store: StoreVersion,
)
    requires
        stores(copy, existing, Step::StoreVersion(store)),
    ensures
        ({
            let target = store.copy.target;
            let name = stored_name(copy.last_modified, content_hash(bytes_contents(copy.data)));
            let dir = copy.target.server@ + "/"@ + copy.target.datafile@;
            &&& version_location(target.server@, target.datafile@, store.new.name@) == dir + "/"@
                + name
            &&& version_location(target.server@, target.datafile@, store.new.temp_name@) == dir
                + "/"@ + temporary_name(name)
        }),
{
}

/// A file is cached under its server and its name, and upstream serves it at an address made of
/// both.
pub proof fn law_files_are_known_by_server_and_name(
    server: Seq<char>,
    datafile: Seq<char>,
    target: Target,
    max_age: u128,
)
    ensures
        cache_key(server, datafile) == server + "/"@ + datafile,
        upstream_address(server, datafile) == "https://"@ + server + ".grepolis.com/data/"@
            + datafile,
        target.is(server, datafile, max_age) ==> {
            &&& target.server@ == server
            &&& target.datafile@ == datafile
            &&& target.key@ == server + "/"@ + datafile
            &&& target.max_age == max_age
        },
{
}

/// Where the `Last-Modified` header is a date, that is the time of the copy, whatever the clock
/// says. The clock is used only where there is no header that is a date.
pub proof fn law_time_of_a_copy_is_its_header(
    header: Option<Seq<char>>,
    unix_now: u64,
    other_now: u64,
)
    ensures
        header matches Some(text) && http_date(text) is Some ==> {
            &&& Some(modified_at(header, unix_now)) == http_date(header->0)
            &&& modified_at(header, unix_now) == modified_at(header, other_now)
        },
        header matches Some(text) && http_date(text) is None ==> modified_at(header, unix_now)
            == unix_now,
        header is None ==> modified_at(header, unix_now) == unix_now,
{
}

/// What is on disk is used exactly when it is a file, known to be less than `max_age` old.
pub proof fn law_disk_copy_is_used_while_young(found: Option<DiskFile>, max_age: u128)
    ensures
        is_usable(found, max_age) <==> found is Some && found->0.is_file && found->0.age is Some
            && found->0.age->0 < max_age,
{
}

/// How serving a file begins. For 15 minutes after upstream failed to serve it, that is reported.
/// Otherwise, while a copy in memory is less than `max_age` old, it is served, and used by that.
/// Otherwise the disk is asked. Nothing else changes.
pub proof fn law_serving_begins_in_memory(
    before: AppState,
    server: Seq<char>,
    datafile: Seq<char>,
    max_age: u128,
    now: u128,
    step: Step,
    after: AppState,
    other: Seq<char>,
)
    requires
        begins(before, server, datafile, max_age, now, step, after),
    ensures
        ({
            let key = server + "/"@ + datafile;
            let files = before.cache@;
            let failed = before.failed_cache@.contains_key(key) && now - before.failed_cache@[key]
                < 900_000_000_000;
            let fresh = files.contains_key(key) && max_age > 0 && now - files[key].timestamp
                < max_age;
            &&& failed ==> step == Step::Done(Err(Status::BadGateway)) && after == before
            &&& !failed && fresh ==> {
                &&& step matches Step::Done(Ok(buffer))
                &&& bytes_contents(buffer) == files[key].data
                &&& after.failed_cache == before.failed_cache
                &&& after.archive == before.archive
                &&& after.cache@.contains_key(other) <==> files.contains_key(other)
                &&& other != key && files.contains_key(other) ==> after.cache@[other]
                    == files[other]
                &&& after.cache@[key].data == files[key].data
                &&& after.cache@[key].timestamp == files[key].timestamp
                &&& after.cache@[key].last_modified == files[key].last_modified
                &&& after.cache@[key].used == now
            }
            &&& !failed && !fresh ==> {
                &&& step matches Step::ProbeDisk(probe)
                &&& probe.target.server@ == server
                &&& probe.target.datafile@ == datafile
                &&& probe.target.key@ == key
                &&& probe.target.max_age == max_age
                &&& after == before
            }
        }),
{
    let key = cache_key(server, datafile);
    law_failure_counts_for_a_quarter_of_an_hour(before.failed_cache@, key, now);
    if before.cache@.contains_key(key) {
        law_fresh_data_is_young(before.cache@, key, max_age, now, before.cache@[key].data);
    }
}

/// What ends the serving of a file: its data, or the failure of upstream.
pub proof fn law_serving_ends_with_data_or_failure(step: Step, data: Seq<u8>)
    ensures
        serves(step, data) <==> step is Done && step->Done_0 is Ok && bytes_contents(
            step->Done_0->Ok_0,
        ) == data,
        reports_failure(step) <==> step == Step::Done(Err(Status::BadGateway)),
{
}

/// Upstream failed to serve a file: that is reported, and remembered of this file from now on.
pub proof fn law_failure_is_reported_and_remembered(
    before: AppState,
    target: Target,
    now: u128,
    step: Step,
    after: AppState,
    other: Seq<char>,
)
    requires
        has_failed(before, target, now, step, after),
    ensures
        step == Step::Done(Err(Status::BadGateway)),
        after.failed_cache@.contains_key(target.key@),
        after.failed_cache@[target.key@] == now,
        other != target.key@ ==> (after.failed_cache@.contains_key(other)
            <==> before.failed_cache@.contains_key(other)) && (before.failed_cache@.contains_key(
            other,
        ) ==> after.failed_cache@[other] == before.failed_cache@[other]),
        after.cache == before.cache,
        after.archive == before.archive,
{
}

/// An answer is a success exactly when its status is from 200 to 299.
pub proof fn law_success_is_from_200_to_299(status: u16)
    ensures
        is_success_status(status) <==> status / 100 == 2,
{
}

/// What is written and served in the end. Unless a file with a later time is in memory, it is the
/// copy itself, byte for byte and with its own time; in particular a copy that is newer than the
/// file in memory is served and takes its place. Otherwise it is that file, with its own time.
pub proof fn law_served_copy_is_the_newer_of_two(copy: Candidate, state: AppState, step: Step)
    requires
        settles(copy, state, step),
    ensures
        ({
            let files = state.cache@;
            let key = copy.target.key@;
            let cached_is_newer = files.contains_key(key) && files[key].last_modified
                > copy.last_modified;
            &&& step matches Step::WriteDisk(write)
            &&& write.copy.target == copy.target
            &&& !cached_is_newer ==> bytes_contents(write.copy.data) == bytes_contents(copy.data)
                && write.copy.last_modified == copy.last_modified
            &&& cached_is_newer ==> bytes_contents(write.copy.data) == files[key].data
                && write.copy.last_modified == files[key].last_modified
        }),
{
    law_newer_of_two_is_taken(
        state.cache@,
        copy.target.key@,
        bytes_contents(copy.data),
        copy.last_modified,
    );
}

/// What follows when the archived versions are known: if the last of them is newer than the copy,
/// it is read, and otherwise the copy is settled on.
pub proof fn law_newest_version_is_read_if_newer(
    copy: Candidate,
    state: AppState,
    list: Seq<VersionView>,
    step: Step,
)
    requires
        picks_from(copy, state, list, step),
    ensures
        list.len() > 0 && list[list.len() - 1].lm > copy.last_modified ==> {
            &&& step matches Step::ReadNewest(read)
            &&& read.copy == copy
            &&& read.version@ == list[list.len() - 1]
        },
        list.len() == 0 || list[list.len() - 1].lm <= copy.last_modified ==> settles(
            copy,
            state,
            step,
        ),
{
}

/// What follows when the copy is not, or no longer, to be stored: with an archive its versions are
/// looked at, as they were listed less than a minute ago or else after they are listed again;
/// without one the copy is settled on.
pub proof fn law_archive_is_asked_for_a_newer_version(
    copy: Candidate,
    state: AppState,
    now: u128,
    step: Step,
)
    requires
        picks(copy, state, now, step),
    ensures
        state.archive is None ==> settles(copy, state, step),
        state.archive matches Some(archive) ==> match archive.listing(
            copy.target.server@,
            copy.target.datafile@,
        ) {
            Some(listing) => if now - listing.listed_at < 60_000_000_000 {
                picks_from(copy, state, listing.versions, step)
            } else {
                step matches Step::ListForNewest(ask) && ask.copy == copy
            },
            None => step matches Step::ListForNewest(ask) && ask.copy == copy,
        },
{
}

/// What follows when a copy was fetched: with an archive it is recorded there, beside the versions
/// as they were listed less than a minute ago or else after they are listed again; without one
/// it is settled on.
pub proof fn law_fetched_copy_is_offered_to_the_archive(
    copy: Candidate,
    state: AppState,
    now: u128,
    step: Step,
)
    requires
        offers(copy, state, now, step),
    ensures
        state.archive is None ==> settles(copy, state, step),
        state.archive matches Some(archive) ==> match archive.listing(
            copy.target.server@,
            copy.target.datafile@,
        ) {
            Some(listing) => if now - listing.listed_at < 60_000_000_000 {
                records(copy, listing.versions, step)
            } else {
                step matches Step::ListForRecord(ask) && ask.copy == copy
            },
            None => step matches Step::ListForRecord(ask) && ask.copy == copy,
        },
{
}

/// A copy whose content no version has is stored, with its own time, hash and bytes, unless it
/// cannot be compressed, or is of the islands and comes less than a day after the last version. A
/// copy that is not stored is told to be a duplicate, throttled, or failed.
pub proof fn law_new_content_goes_to_the_archive(
    copy: Candidate,
    existing: Seq<VersionView>,
    step: Step,
)
    requires
        records(copy, existing, step),
    ensures
        ({
            let data = bytes_contents(copy.data);
            let known = exists|i: int|
                0 <= i < existing.len() && (#[trigger] existing[i]).hash == content_hash(data);
            let too_soon = copy.target.datafile@ == "islands.txt"@ && existing.len() > 0
                && copy.last_modified < existing[existing.len() - 1].lm + 86_400;
            &&& !known && !too_soon && gzipped(data) is Some ==> {
                &&& step matches Step::StoreVersion(store)
                &&& store.copy == copy
                &&& views(store.existing@) == existing
                &&& store.new.lm == copy.last_modified
                &&& store.new.hash@ == content_hash(data)
                &&& store.new.name@ == decimal(copy.last_modified as nat) + "-"@ + content_hash(
                    data,
                ) + ".txt.gz"@
                &&& gunzipped(store.new.gz@) == Some(data)
            }
            &&& known || too_soon || gzipped(data) is None ==> {
                &&& step matches Step::NotStored(told)
                &&& told.copy == copy
                &&& known ==> told.result == Ok::<RecordOutcome, std::io::Error>(
                    RecordOutcome::Duplicate,
                )
                &&& !known && too_soon ==> told.result == Ok::<RecordOutcome, std::io::Error>(
                    RecordOutcome::Throttled,
                )
                &&& !known && !too_soon ==> told.result is Err
            }
        }),
{
    let data = bytes_contents(copy.data);
    law_outcome_follows_content_and_time(
        existing,
        copy.target.datafile@,
        copy.last_modified,
        content_hash(data),
    );
    match step {
        Step::StoreVersion(store) => {
            if is_record_of(store.new, copy.last_modified, data) {
                law_record_holds_the_copy(store.new, copy.last_modified, data);
            }
        },
        _ => {},
    }
}

/// Where a newer version cannot be read, the file in memory is written if it is as new as that, and
/// newer than the copy; the copy is written only if it is itself as new; and otherwise a failure is
/// reported.
pub proof fn law_unreadable_version_is_not_passed_over(
    copy: Candidate,
    time: u64,
    state: AppState,
    step: Step,
)
    requires
        falls_back(copy, time, state, step),
    ensures
        ({
            let files = state.cache@;
            let key = copy.target.key@;
            let cached = files.contains_key(key) && files[key].last_modified >= time;
            &&& copy.last_modified < time && !cached ==> step == Step::Done(
                Err(Status::BadGateway),
            )
            &&& copy.last_modified < time && cached ==> {
                &&& step matches Step::WriteDisk(write)
                &&& write.copy.target == copy.target
                &&& bytes_contents(write.copy.data) == files[key].data
                &&& write.copy.last_modified == files[key].last_modified
            }
            &&& time <= copy.last_modified ==> settles(copy, state, step)
        }),
{
    law_newer_of_two_is_taken(
        state.cache@,
        copy.target.key@,
        bytes_contents(copy.data),
        copy.last_modified,
    );
}

/// A file that is put in memory is there as it is; no other file changes, nor what is remembered of
/// failures and the archive.
pub proof fn law_served_file_is_in_memory(
    before: AppState,
    target: Target,
    file: CachedFile,
    after: AppState,
    other: Seq<char>,
)
    requires
        is_cached(before, target, file, after),
    ensures
        after.failed_cache == before.failed_cache,
        after.archive == before.archive,
        after.cache@.contains_key(target.key@),
        after.cache@[target.key@] == file,
        other != target.key@ && after.cache@.contains_key(other) ==> before.cache@.contains_key(
            other,
        ) && after.cache@[other] == before.cache@[other],
        other != target.key@ && before.cache@.len() < 25 && before.cache@.contains_key(other)
            ==> after.cache@.contains_key(other),
{
    law_put_replaces_one_file(before.cache@, target.key@, file, after.cache@, other);
}

/// What is learnt of the archived versions of a file is known from now on; nothing else changes.
pub proof fn law_listing_is_remembered(
    before: AppState,
    target: Target,
    now: u128,
    list: Seq<VersionView>,
    after: AppState,
    server: Seq<char>,
    file: Seq<char>,
)
    requires
        is_relisted(before, target, now, list, after),
    ensures
        after.cache == before.cache,
        after.failed_cache == before.failed_cache,
        before.archive is Some && after.archive is Some,
        after.archive->0.root() == before.archive->0.root(),
        after.archive->0.listing(target.server@, target.datafile@) == Some(
            ListingView { listed_at: now, versions: list },
        ),
        server != target.server@ || file != target.datafile@ ==> after.archive->0.listing(
            server,
            file,
        ) == before.archive->0.listing(server, file),
{
}

/// The keys of two files of servers are the same only if the files are. No server has a slash in its
/// name.
pub proof fn law_cache_key_is_unique(
    server1: Seq<char>,
    file1: Seq<char>,
    server2: Seq<char>,
    file2: Seq<char>,
)
    requires
        !server1.contains('/'),
        !server2.contains('/'),
        cache_key(server1, file1) == cache_key(server2, file2),
    ensures
        server1 == server2,
        file1 == file2,
{
    lemma_slash_splits(server1, file1, server2, file2);
}

/// The time of a copy from upstream, from what its `Last-Modified` header was parsed to.
pub fn parsed_or_now(parsed: Option<u64>, unix_now: u64) -> (secs: u64)
    ensures
        secs == match parsed {
            Some(time) => time,
            None => unix_now,
        },
{
    match parsed {
        Some(time) => time,
        None => unix_now,
    }
}

/// The time of a copy from upstream, in unix seconds: what its `Last-Modified` header says, or
/// now, if it has none that can be read.
pub fn last_modified_secs(header: Option<&str>, unix_now: u64) -> (secs: u64)
    ensures
        secs == modified_at(
            match header {
                Some(text) => Some(text@),
                None => None,
            },
            unix_now,
        ),
{
    let parsed = match header {
        Some(text) => parse_http_date(text),
        None => None,
    };
    parsed_or_now(parsed, unix_now)
}

/// Where upstream serves a file.
pub fn upstream_url(server: &str, datafile: &str) -> (url: String)
    ensures
        url@ == upstream_address(server@, datafile@),
{
    let mut url = String::new();
    url.append("https://");
    url.append(server);
    url.append(".grepolis.com/data/");
    url.append(datafile);
    assert(url@ =~= upstream_address(server@, datafile@));
    url
}

/// The first step to serve a file, of which a cached copy must be less than `max_age` old.
pub fn get_live(
    state: &mut AppState,
    server: &str,
    datafile: &str,
    max_age: u128,
    now: u128,
) -> (step: Step)
    requires
        old(state).wf(),
    ensures
        final(state).wf(),
        begins(*old(state), server@, datafile@, max_age, now, step, *final(state)),
{
    let target = Target::new(server, datafile, max_age);
    if state.has_failed_recently(target.key.as_str(), now) {
        return Step::Done(Err(Status::BadGateway));
    }
    match state.cache.get(target.key.as_str(), max_age, now) {
        Some(data) => Step::Done(Ok(data)),
        None => Step::ProbeDisk(ProbeDisk { target }),
    }
}

impl ProbeDisk {
    /// What is on disk under the key of the file.
    pub fn found(self, file: Option<DiskFile>) -> (step: Step)
        ensures
            if is_usable(file, self.target.max_age) {
                &&& step matches Step::ReadDisk(read)
                &&& read.target == self.target
                &&& file->0.age == Some(read.age)
            } else {
                step matches Step::Fetch(fetch) && fetch.target == self.target
            },
    {
        let usable_age = match file {
            Some(file) => if file.is_file {
                file.age
            } else {
                None
            },
            None => None,
        };
        match usable_age {
            Some(age) => if age < self.target.max_age {
                Step::ReadDisk(ReadDisk { target: self.target, age })
            } else {
                Step::Fetch(Fetch { target: self.target })
            },
            None => Step::Fetch(Fetch { target: self.target }),
        }
    }
}

impl ReadDisk {
    /// The data that is cached on disk, if it could be read. It stays as old in memory as it is on
    /// disk. The disk cache doesn't record `Last-Modified`.
    pub fn read(self, state: &mut AppState, data: Option<Vec<u8>>, now: u128) -> (step: Step)
        requires
            old(state).wf(),
        ensures
            final(state).wf(),
            match data {
                Some(bytes) => {
                    &&& serves(step, bytes@)
                    &&& is_cached(
                        *old(state),
                        self.target,
                        (CachedFile {
                            data: bytes@,
                            timestamp: now - self.age,
                            used: now,
                            last_modified: 0,
                        }),
                        *final(state),
                    )
                },
                None => {
                    &&& step matches Step::Fetch(fetch)
                    &&& fetch.target == self.target
                    &&& *final(state) == *old(state)
                },
            },
    {
        match data {
            Some(data) => {
                let data = bytes_from_vec(data);
                state.cache.put(self.target.key.as_str(), &data, 0, self.age, now);
                Step::Done(Ok(data))
            },
            None => Step::Fetch(Fetch { target: self.target }),
        }
    }
}

/// Whether an HTTP status tells of success.
pub fn is_success(status: u16) -> (r: bool)
    ensures
        r == (200 <= status < 300),
{
    200 <= status && status < 300
}

impl Fetch {
    /// The status that upstream answered with, if it answered.
    pub fn answered(self, state: &mut AppState, status: Option<u16>, now: u128) -> (step: Step)
        requires
            old(state).wf(),
        ensures
            final(state).wf(),
            if status matches Some(code) && is_success_status(code) {
                &&& step matches Step::ReadBody(read)
                &&& read.target == self.target
                &&& *final(state) == *old(state)
            } else {
                has_failed(*old(state), self.target, now, step, *final(state))
            },
    {
        let success = match status {
            Some(code) => is_success(code),
            None => false,
        };
        if success {
            Step::ReadBody(ReadBody { target: self.target })
        } else {
            self.target.fail(state, now)
        }
    }
}

impl ReadBody {
    /// What upstream answered, if its body could be read. `unix_now` is the time in unix seconds.
    pub fn fetched(
        self,
        state: &mut AppState,
        reply: Option<UpstreamReply>,
        unix_now: u64,
        now: u128,
    ) -> (step: Step)
        requires
            old(state).wf(),
        ensures
            final(state).wf(),
            match reply {
                Some(reply) => {
                    &&& *final(state) == *old(state)
                    &&& exists|copy: Candidate| #[trigger]
                        offers(copy, *old(state), now, step) && copy.target == self.target
                            && copy.data == reply.body && copy.last_modified == modified_at(
                            match reply.last_modified {
                                Some(text) => Some(text@),
                                None => None,
                            },
                            unix_now,
                        )
                },
                None => has_failed(*old(state), self.target, now, step, *final(state)),
            },
    {
        match reply {
            Some(reply) => {
                let last_modified = match &reply.last_modified {
                    Some(text) => last_modified_secs(Some(text.as_str()), unix_now),
                    None => last_modified_secs(None, unix_now),
                };
                let copy = Candidate { target: self.target, data: reply.body, last_modified };
                let step = copy.offer(state, now);
                assert(offers(copy, *state, now, step));
                step
            },
            None => self.target.fail(state, now),
        }
    }
}

impl Candidate {
    /// Upstream round-robins between nodes that regenerate at different times, so a fetch can
    /// return an older copy than one already archived. Never hand that older copy out.
    fn offer(self, state: &AppState, now: u128) -> (step: Step)
        requires
            state.wf(),
        ensures
            offers(self, *state, now, step),
    {
        match &state.archive {
            Some(archive) => match archive.versions(
                self.target.server.as_str(),
                self.target.datafile.as_str(),
                now,
            ) {
                Some(existing) => self.record(existing),
                None => Step::ListForRecord(ListForRecord { copy: self }),
            },
            None => self.settle(state),
        }
    }

    fn record(self, existing: Vec<Version>) -> (step: Step)
        ensures
            records(self, views(existing@), step),
    {
        let plan = Archive::record(
            self.target.datafile.as_str(),
            self.last_modified,
            bytes_as_slice(&self.data),
            &existing,
        );
        self.planned(existing, plan)
    }

    /// What the archive wants done with the copy, where `existing` are the versions there are.
    /// A copy that the archive fails to take is served nevertheless.
    pub fn planned(self, existing: Vec<Version>, plan: Result<RecordPlan, std::io::Error>) -> (step:
        Step)
        ensures
            match plan {
                Ok(RecordPlan::Store(new)) => step == Step::StoreVersion(
                    (StoreVersion { copy: self, existing, new }),
                ),
                Ok(RecordPlan::Skip(outcome)) => step == Step::NotStored(
                    (NotStored { copy: self, result: Ok(outcome) }),
                ),
                Err(err) => step == Step::NotStored((NotStored { copy: self, result: Err(err) })),
            },
    {
        match plan {
            Ok(RecordPlan::Store(new)) => Step::StoreVersion(
                StoreVersion { copy: self, existing, new },
            ),
            Ok(RecordPlan::Skip(outcome)) => Step::NotStored(
                NotStored { copy: self, result: Ok(outcome) },
            ),
            Err(err) => Step::NotStored(NotStored { copy: self, result: Err(err) }),
        }
    }

    fn pick(self, state: &AppState, now: u128) -> (step: Step)
        requires
            state.wf(),
        ensures
            picks(self, *state, now, step),
    {
        match &state.archive {
            Some(archive) => match archive.versions(
                self.target.server.as_str(),
                self.target.datafile.as_str(),
                now,
            ) {
                Some(list) => self.pick_from(state, list),
                None => Step::ListForNewest(ListForNewest { copy: self }),
            },
            None => self.settle(state),
        }
    }

    fn pick_from(self, state: &AppState, list: Vec<Version>) -> (step: Step)
        requires
            state.wf(),
        ensures
            picks_from(self, *state, views(list@), step),
    {
        match Archive::newest(list) {
            Some(version) => {
                if version.lm > self.last_modified {
                    Step::ReadNewest(ReadNewest { copy: self, version })
                } else {
                    self.settle(state)
                }
            },
            None => self.settle(state),
        }
    }

    /// An archive can lack a copy that was fetched earlier, so it can't stop a lagging node's
    /// copy from replacing that. The RAM cache still holds what this instance served last, even
    /// once expired; keep serving that if it's newer.
    fn settle(self, state: &AppState) -> (step: Step)
        requires
            state.wf(),
        ensures
            settles(self, *state, step),
    {
        let (data, last_modified) = state.cache.newer(
            self.target.key.as_str(),
            self.data,
            self.last_modified,
        );
        Step::WriteDisk(WriteDisk { copy: Candidate { target: self.target, data, last_modified } })
    }

    /// An archived version from the time `time` is newer, but cannot be read.
    fn fall_back(self, state: &AppState, time: u64) -> (step: Step)
        requires
            state.wf(),
        ensures
            falls_back(self, time, *state, step),
    {
        match self.settle(state) {
            Step::WriteDisk(write) => if write.copy.last_modified >= time {
                Step::WriteDisk(write)
            } else {
                Step::Done(Err(Status::BadGateway))
            },
            other => other,
        }
    }
}

impl ListForRecord {
    /// What is in the archive's directory for the file.
    pub fn listed(self, state: &mut AppState, entries: Vec<DirEntry>, now: u128) -> (step: Step)
        requires
            old(state).wf(),
        ensures
            final(state).wf(),
            match old(state).archive {
                Some(_) => exists|list: Seq<VersionView>| #[trigger]
                    is_listing_of(found_in(entries@), list) && is_relisted(
                        *old(state),
                        self.copy.target,
                        now,
                        list,
                        *final(state),
                    ) && records(self.copy, list, step),
                None => *final(state) == *old(state) && settles(self.copy, *old(state), step),
            },
    {
        match &mut state.archive {
            Some(archive) => {
                let existing = archive.refresh(
                    self.copy.target.server.as_str(),
                    self.copy.target.datafile.as_str(),
                    now,
                    entries,
                );
                assert(is_listing_of(found_in(entries@), views(existing@)));
                self.copy.record(existing)
            },
            None => self.copy.settle(state),
        }
    }
}

impl NotStored {
    /// It is known now that the copy is not stored.
    pub fn told(self, state: &AppState, now: u128) -> (step: Step)
        requires
            state.wf(),
        ensures
            picks(self.copy, *state, now, step),
    {
        self.copy.pick(state, now)
    }
}

impl StoreVersion {
    /// Where the version is to lie, below the directory of the archive.
    pub fn path(&self) -> (path: String)
        ensures
            path@ == version_location(
                self.copy.target.server@,
                self.copy.target.datafile@,
                self.new.name@,
            ),
    {
        version_path(
            self.copy.target.server.as_str(),
            self.copy.target.datafile.as_str(),
            self.new.name.as_str(),
        )
    }

    /// Where the version is to be written first, below the directory of the archive.
    pub fn temp_path(&self) -> (path: String)
        ensures
            path@ == version_location(
                self.copy.target.server@,
                self.copy.target.datafile@,
                self.new.temp_name@,
            ),
    {
        version_path(
            self.copy.target.server.as_str(),
            self.copy.target.datafile.as_str(),
            self.new.temp_name.as_str(),
        )
    }

    /// The path that the version was stored under, if it could be: the one that
    /// [`StoreVersion::path`] names, in the directory of the archive.
    pub fn stored(self, state: &mut AppState, path: Option<std::path::PathBuf>, now: u128) -> (step:
        Step)
        requires
            old(state).wf(),
        ensures
            final(state).wf(),
            picks(self.copy, *final(state), now, step),
            match (path, old(state).archive) {
                (Some(path), Some(_)) => exists|list: Seq<VersionView>| #[trigger]
                    is_listing_of(
                        views(self.existing@).push(
                            VersionView { lm: self.new.lm, hash: self.new.hash@, path },
                        ),
                        list,
                    ) && is_relisted(*old(state), self.copy.target, now, list, *final(state)),
                _ => *final(state) == *old(state),
            },
    {
        match path {
            Some(path) => match &mut state.archive {
                Some(archive) => archive.commit(
                    self.copy.target.server.as_str(),
                    self.copy.target.datafile.as_str(),
                    now,
                    self.existing,
                    Version { lm: self.new.lm, hash: self.new.hash, path },
                ),
                None => {},
            },
            None => {},
        }
        self.copy.pick(state, now)
    }
}

impl ListForNewest {
    /// What is in the archive's directory for the file.
    pub fn listed(self, state: &mut AppState, entries: Vec<DirEntry>, now: u128) -> (step: Step)
        requires
            old(state).wf(),
        ensures
            final(state).wf(),
            match old(state).archive {
                Some(_) => exists|list: Seq<VersionView>| #[trigger]
                    is_listing_of(found_in(entries@), list) && is_relisted(
                        *old(state),
                        self.copy.target,
                        now,
                        list,
                        *final(state),
                    ) && picks_from(self.copy, *final(state), list, step),
                None => *final(state) == *old(state) && settles(self.copy, *old(state), step),
            },
    {
        match &mut state.archive {
            Some(archive) => {
                let list = archive.refresh(
                    self.copy.target.server.as_str(),
                    self.copy.target.datafile.as_str(),
                    now,
                    entries,
                );
                assert(is_listing_of(found_in(entries@), views(list@)));
                self.copy.pick_from(state, list)
            },
            None => self.copy.settle(state),
        }
    }
}

impl ReadNewest {
    /// The bytes of the stored version, if they could be read. Where they cannot be, or are
    /// damaged, the older copy is still not served: only the cached one can take its place.
    pub fn read(self, state: &AppState, gz: Option<Vec<u8>>) -> (step: Step)
        requires
            state.wf(),
        ensures
            match gz {
                Some(gz) => match gunzipped(gz@) {
                    Some(plain) => exists|newest: Candidate| #[trigger]
                        settles(newest, *state, step) && newest.target == self.copy.target
                            && bytes_contents(newest.data) == plain && newest.last_modified
                            == self.version.lm,
                    None => falls_back(self.copy, self.version.lm, *state, step),
                },
                None => falls_back(self.copy, self.version.lm, *state, step),
            },
    {
        match gz {
            Some(gz) => match Archive::read_plain(gz.as_slice()) {
                Ok(plain) => {
                    let newest = Candidate {
                        target: self.copy.target,
                        data: plain,
                        last_modified: self.version.lm,
                    };
                    let step = newest.settle(state);
                    assert(settles(newest, *state, step));
                    step
                },
                Err(_) => self.copy.fall_back(state, self.version.lm),
            },
            None => self.copy.fall_back(state, self.version.lm),
        }
    }
}

impl WriteDisk {
    /// The copy is on disk, as far as it could be written.
    pub fn written(self, state: &mut AppState, now: u128) -> (step: Step)
        requires
            old(state).wf(),
        ensures
            final(state).wf(),
            serves(step, bytes_contents(self.copy.data)),
            is_cached(
                *old(state),
                self.copy.target,
                (CachedFile {
                    data: bytes_contents(self.copy.data),
                    timestamp: now as int,
                    used: now,
                    last_modified: self.copy.last_modified,
                }),
                *final(state),
            ),
    {
        state.cache.put(
            self.copy.target.key.as_str(),
            &self.copy.data,
            self.copy.last_modified,
            0,
            now,
        );
        Step::Done(Ok(self.copy.data))
    }
}

} // verus!
