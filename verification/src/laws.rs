//! What holds of the calls that a user of the library makes, alone and one after the other.
//!
//! Each law takes what a call was given and what it gave back, as far as the contract of the
//! function admits both, and says how they hang together.

use vstd::prelude::*;

use crate::archive::{
    law_content_is_stored_once, law_outcome_follows_content_and_time, record_outcome, Archive,
    RecordOutcome, RecordPlan,
};
use crate::cache::{
    law_fresh_data_is_young, law_newer_of_two_is_taken, law_other_files_stay,
    law_put_replaces_one_file, CachedFile, RamCache,
};
use crate::external::{bytes_contents, gunzipped, gzipped, http_date, sha256};
use crate::hash::{canonical_hash, content_hash, law_hash_ignores_row_order};
use crate::history::{
    gathered, history_checked, law_history_is_the_timeline_of_the_server,
    law_lists_are_gathered_in_turn, HistoryStep, ListHistory,
};
use crate::listing::{
    found_in, is_listing, is_listing_of, law_listing_is_the_earliest_of_each_content,
    law_resolved_is_newest_not_after, law_version_stands_for_a_time, list_versions, normalize,
    resolve_at, DirEntry,
};
use crate::live::{
    begins, get_live, is_success, last_modified_secs, law_archive_is_asked_for_a_newer_version,
    law_fetched_copy_is_offered_to_the_archive, law_newest_version_is_read_if_newer,
    law_served_copy_is_the_newer_of_two, law_served_file_is_in_memory,
    law_serving_begins_in_memory, law_time_of_a_copy_is_its_header,
    law_unreadable_version_is_not_passed_over, modified_at, offers, picks, picks_from, records,
    settles, upstream_url, Candidate, DiskFile, Fetch, ListForNewest, ListForRecord, NotStored,
    ProbeDisk, ReadBody, ReadDisk, ReadNewest, Step, StoreVersion, UpstreamReply, WriteDisk,
};
use crate::request::{
    capture_status, is_datafile, is_server, law_four_files_are_served,
    law_server_is_two_letters_and_digits, route_checked, Route, Status,
};
use crate::rows::{canonical_form, rows};
use crate::serve::{
    capture_checked, law_capture_begins_with_four_files, request_routed, Captured, RequestStep,
};
use crate::snapshot::{
    begins_snapshot, law_snapshot_begins_with_the_listing, law_snapshot_is_the_newest_not_after,
    law_snapshot_of_islands_is_the_closest, reads_resolved, snapshot_at, ListSnapshot,
    ReadSnapshot, SnapshotStep,
};
use crate::state::AppState;
use crate::text::hex;
use crate::timeline::{
    can_show, has_version_by, is_timeline_by, law_no_version_is_left_out,
    law_timeline_is_of_all_versions, law_timeline_points_can_be_shown, list_views, timeline,
    timeline_points,
};
use crate::version::{file_name, law_stored_name_is_found, parse_name, views, Version, VersionView};

verus! {

/// Of a copy and the file in memory the newer is given back, with its own data and its own time;
/// where they are equally new it is the copy.
pub proof fn law_newer_gives_back_one_of_two(
    cache: &RamCache,
    key: &str,
    data: bytes::Bytes,
    last_modified: u64,
    newer: (bytes::Bytes, u64),
)
    requires
        call_ensures(RamCache::newer, (cache, key, data, last_modified), newer),
    ensures
        ({
            let cached = cache@.contains_key(key@) && cache@[key@].last_modified > last_modified;
            &&& !cached ==> bytes_contents(newer.0) == bytes_contents(data) && newer.1
                == last_modified
            &&& cached ==> bytes_contents(newer.0) == cache@[key@].data && newer.1
                == cache@[key@].last_modified
        }),
{
    law_newer_of_two_is_taken(cache@, key@, bytes_contents(data), last_modified);
}

/// What was put in memory is given back from there, byte for byte, while it is less than
/// `max_age` old, and not after.
pub proof fn law_get_gives_back_what_was_put(
    cache: &mut RamCache,
    key: &str,
    data: &bytes::Bytes,
    last_modified: u64,
    age: u128,
    now: u128,
    then: &mut RamCache,
    max_age: u128,
    later: u128,
    found: Option<bytes::Bytes>,
)
    requires
        call_ensures(RamCache::put, (cache, key, data, last_modified, age, now), ()),
        *then == *final(cache),
        call_ensures(RamCache::get, (then, key, max_age, later), found),
        now <= later,
    ensures
        found is Some <==> (later - now) + age < max_age,
        found is Some ==> bytes_contents(found->0) == bytes_contents(*data),
        final(then)@.contains_key(key@),
        final(then)@[key@].last_modified == last_modified,
{
    law_put_replaces_one_file(
        old(cache)@,
        key@,
        CachedFile { data: bytes_contents(*data), timestamp: now - age, used: now, last_modified },
        final(cache)@,
        key@,
    );
    law_fresh_data_is_young(old(then)@, key@, max_age, later, bytes_contents(*data));
}

/// Putting a file in memory changes no other. At most one of the others goes, and only where there
/// are 25 and the file is not one of them: then one that was used no later than any other.
pub proof fn law_put_keeps_the_other_files(
    cache: &mut RamCache,
    key: &str,
    data: &bytes::Bytes,
    last_modified: u64,
    age: u128,
    now: u128,
    one: Seq<char>,
    two: Seq<char>,
)
    requires
        call_ensures(RamCache::put, (cache, key, data, last_modified, age, now), ()),
        one != key@,
        two != key@,
        one != two,
        old(cache)@.contains_key(one),
        old(cache)@.contains_key(two),
    ensures
        final(cache)@.contains_key(one) ==> final(cache)@[one] == old(cache)@[one],
        final(cache)@.contains_key(one) || final(cache)@.contains_key(two),
        old(cache)@.contains_key(key@) || old(cache)@.len() < 25 ==> final(cache)@.contains_key(
            one,
        ),
        !final(cache)@.contains_key(one) ==> old(cache)@[one].used <= old(cache)@[two].used,
        !old(cache)@.contains_key(key@) && old(cache)@.len() >= 25 ==> exists|gone: Seq<char>|
            #[trigger] old(cache)@.contains_key(gone) && !final(cache)@.contains_key(gone),
{
    let file = CachedFile {
        data: bytes_contents(*data),
        timestamp: now - age,
        used: now,
        last_modified,
    };
    law_put_replaces_one_file(old(cache)@, key@, file, final(cache)@, one);
    law_other_files_stay(old(cache)@, key@, file, final(cache)@, one, two);
}

/// A file that was written is served from memory again while it is less than `max_age` old.
pub proof fn law_written_file_is_served_again(
    write: WriteDisk,
    state: &mut AppState,
    now: u128,
    step: Step,
    then: &mut AppState,
    server: &str,
    datafile: &str,
    max_age: u128,
    later: u128,
    again: Step,
)
    requires
        call_ensures(WriteDisk::written, (write, state, now), step),
        *then == *final(state),
        write.copy.target.key@ == server@ + "/"@ + datafile@,
        !old(state).failed_cache@.contains_key(write.copy.target.key@),
        now <= later < now + max_age,
        call_ensures(get_live, (then, server, datafile, max_age, later), again),
    ensures
        step matches Step::Done(Ok(buffer)) && bytes_contents(buffer) == bytes_contents(
            write.copy.data,
        ),
        again matches Step::Done(Ok(buffer)) && bytes_contents(buffer) == bytes_contents(
            write.copy.data,
        ),
        final(state).cache@[write.copy.target.key@].last_modified == write.copy.last_modified,
        final(state).archive == old(state).archive,
        final(state).failed_cache == old(state).failed_cache,
{
    let file = CachedFile {
        data: bytes_contents(write.copy.data),
        timestamp: now as int,
        used: now,
        last_modified: write.copy.last_modified,
    };
    law_served_file_is_in_memory(*old(state), write.copy.target, file, *final(state), server@);
    law_serving_begins_in_memory(
        *old(then),
        server@,
        datafile@,
        max_age,
        later,
        again,
        *final(then),
        server@,
    );
}

/// For 15 minutes after upstream did not answer with success, it is not asked again, and the
/// failure is reported.
pub proof fn law_failed_file_is_not_asked_for_again(
    fetch: Fetch,
    state: &mut AppState,
    status: Option<u16>,
    now: u128,
    step: Step,
    then: &mut AppState,
    server: &str,
    datafile: &str,
    max_age: u128,
    later: u128,
    again: Step,
)
    requires
        call_ensures(Fetch::answered, (fetch, state, status, now), step),
        status matches Some(code) ==> code < 200 || 300 <= code,
        *then == *final(state),
        fetch.target.key@ == server@ + "/"@ + datafile@,
        now <= later < now + 900_000_000_000,
        call_ensures(get_live, (then, server, datafile, max_age, later), again),
    ensures
        step == Step::Done(Err(Status::BadGateway)),
        again == Step::Done(Err(Status::BadGateway)),
        *final(then) == *old(then),
        final(state).cache == old(state).cache,
        final(state).archive == old(state).archive,
{
    law_serving_begins_in_memory(
        *old(then),
        server@,
        datafile@,
        max_age,
        later,
        again,
        *final(then),
        server@,
    );
}

/// An answer with success is read, and changes nothing yet.
pub proof fn law_successful_answer_is_read(
    fetch: Fetch,
    state: &mut AppState,
    code: u16,
    now: u128,
    step: Step,
)
    requires
        call_ensures(Fetch::answered, (fetch, state, Some(code), now), step),
        200 <= code < 300,
    ensures
        step matches Step::ReadBody(body) && body.target == fetch.target,
        *final(state) == *old(state),
{
}

/// What the disk holds is read exactly when it is a file that is known to be young enough, and
/// otherwise upstream is asked.
pub proof fn law_young_file_is_read_from_disk(probe: ProbeDisk, file: Option<DiskFile>, step: Step)
    requires
        call_ensures(ProbeDisk::found, (probe, file), step),
    ensures
        file is Some && file->0.is_file && file->0.age is Some && file->0.age->0
            < probe.target.max_age ==> step == Step::ReadDisk(
            ReadDisk { target: probe.target, age: file->0.age->0 },
        ),
        file is None || !file->0.is_file || file->0.age is None || file->0.age->0
            >= probe.target.max_age ==> step == Step::Fetch(Fetch { target: probe.target }),
{
}

/// A file from disk is served, and later again from memory for as long as it would be from disk.
pub proof fn law_file_from_disk_is_served_again(
    read: ReadDisk,
    state: &mut AppState,
    data: Vec<u8>,
    now: u128,
    step: Step,
    then: &mut AppState,
    server: &str,
    datafile: &str,
    max_age: u128,
    later: u128,
    again: Step,
)
    requires
        call_ensures(ReadDisk::read, (read, state, Some(data), now), step),
        *then == *final(state),
        read.target.key@ == server@ + "/"@ + datafile@,
        !old(state).failed_cache@.contains_key(read.target.key@),
        now <= later,
        call_ensures(get_live, (then, server, datafile, max_age, later), again),
    ensures
        step matches Step::Done(Ok(buffer)) && bytes_contents(buffer) == data@,
        (later - now) + read.age < max_age ==> (again matches Step::Done(Ok(buffer))
            && bytes_contents(buffer) == data@),
        (later - now) + read.age >= max_age ==> again is ProbeDisk,
        final(state).cache@[read.target.key@].last_modified == 0,
        final(state).archive == old(state).archive,
        final(state).failed_cache == old(state).failed_cache,
{
    let file = CachedFile { data: data@, timestamp: now - read.age, used: now, last_modified: 0 };
    law_served_file_is_in_memory(*old(state), read.target, file, *final(state), server@);
    law_serving_begins_in_memory(
        *old(then),
        server@,
        datafile@,
        max_age,
        later,
        again,
        *final(then),
        server@,
    );
}

/// What cannot be read from disk is asked of upstream.
pub proof fn law_unreadable_file_is_fetched(
    read: ReadDisk,
    state: &mut AppState,
    now: u128,
    step: Step,
)
    requires
        call_ensures(ReadDisk::read, (read, state, None, now), step),
    ensures
        step == Step::Fetch(Fetch { target: read.target }),
        *final(state) == *old(state),
{
}

/// The time of a copy is the one that its `Last-Modified` header names. Only where there is no
/// header that names one it is now.
pub proof fn law_copy_has_the_time_of_its_header(header: Option<&str>, unix_now: u64, secs: u64)
    requires
        call_ensures(last_modified_secs, (header, unix_now), secs),
    ensures
        header matches Some(text) && http_date(text@) is Some ==> Some(secs) == http_date(
            header->0@,
        ),
        header matches Some(text) && http_date(text@) is None ==> secs == unix_now,
        header is None ==> secs == unix_now,
{
    law_time_of_a_copy_is_its_header(
        match header {
            Some(text) => Some(text@),
            None => None,
        },
        unix_now,
        unix_now,
    );
}

/// Upstream serves a file at an address made of its server and its name.
pub proof fn law_upstream_is_asked_by_server_and_name(server: &str, datafile: &str, url: String)
    requires
        call_ensures(upstream_url, (server, datafile), url),
    ensures
        url@ == "https://"@ + server@ + ".grepolis.com/data/"@ + datafile@,
{
}

/// Without an archive a copy from upstream is written as it is, with the time that its header
/// names, unless a file with a later time is in memory. Nothing is remembered of it yet.
pub proof fn law_fetched_copy_is_written(
    body: ReadBody,
    state: &mut AppState,
    reply: UpstreamReply,
    unix_now: u64,
    now: u128,
    step: Step,
)
    requires
        call_ensures(ReadBody::fetched, (body, state, Some(reply), unix_now, now), step),
        old(state).archive is None,
    ensures
        ({
            let files = old(state).cache@;
            let key = body.target.key@;
            let time = if reply.last_modified is Some && http_date(reply.last_modified->0@) is Some {
                http_date(reply.last_modified->0@)->0
            } else {
                unix_now
            };
            let cached = files.contains_key(key) && files[key].last_modified > time;
            &&& step matches Step::WriteDisk(write)
            &&& write.copy.target == body.target
            &&& !cached ==> bytes_contents(write.copy.data) == bytes_contents(reply.body)
                && write.copy.last_modified == time
            &&& cached ==> bytes_contents(write.copy.data) == files[key].data
                && write.copy.last_modified == files[key].last_modified
            &&& *final(state) == *old(state)
        }),
{
    let header = match reply.last_modified {
        Some(text) => Some(text@),
        None => None,
    };
    law_time_of_a_copy_is_its_header(header, unix_now, unix_now);
    let copy = choose|copy: Candidate| #[trigger]
        offers(copy, *old(state), now, step) && copy.target == body.target && copy.data
            == reply.body && copy.last_modified == modified_at(header, unix_now);
    law_fetched_copy_is_offered_to_the_archive(copy, *old(state), now, step);
    law_served_copy_is_the_newer_of_two(copy, *old(state), step);
}

/// With an archive a copy from upstream, as it is and with the time that its header names, is
/// recorded beside the versions that were listed less than a minute ago, and otherwise a listing is
/// asked for first. Nothing is remembered of it yet.
pub proof fn law_fetched_copy_is_recorded(
    body: ReadBody,
    state: &mut AppState,
    reply: UpstreamReply,
    unix_now: u64,
    now: u128,
    step: Step,
)
    requires
        call_ensures(ReadBody::fetched, (body, state, Some(reply), unix_now, now), step),
        old(state).archive is Some,
    ensures
        ({
            let listing = old(state).archive->0.listing(
                body.target.server@,
                body.target.datafile@,
            );
            let time = if reply.last_modified is Some && http_date(reply.last_modified->0@) is Some {
                http_date(reply.last_modified->0@)->0
            } else {
                unix_now
            };
            let copy = Candidate { target: body.target, data: reply.body, last_modified: time };
            &&& if listing is Some && now - listing->0.listed_at < 60_000_000_000 {
                records(copy, listing->0.versions, step)
            } else {
                step == Step::ListForRecord(ListForRecord { copy })
            }
            &&& *final(state) == *old(state)
        }),
{
    let header = match reply.last_modified {
        Some(text) => Some(text@),
        None => None,
    };
    law_time_of_a_copy_is_its_header(header, unix_now, unix_now);
    let copy = choose|copy: Candidate| #[trigger]
        offers(copy, *old(state), now, step) && copy.target == body.target && copy.data
            == reply.body && copy.last_modified == modified_at(header, unix_now);
    law_fetched_copy_is_offered_to_the_archive(copy, *old(state), now, step);
}

/// A body that cannot be read is a failure of upstream.
pub proof fn law_unreadable_body_is_a_failure(
    body: ReadBody,
    state: &mut AppState,
    unix_now: u64,
    now: u128,
    step: Step,
)
    requires
        call_ensures(ReadBody::fetched, (body, state, None, unix_now, now), step),
    ensures
        step == Step::Done(Err(Status::BadGateway)),
        final(state).failed_cache@ == old(state).failed_cache@.insert(body.target.key@, now),
        final(state).cache == old(state).cache,
        final(state).archive == old(state).archive,
{
}

/// A directory that was listed for a copy is what is known of the file from now on: of each
/// content the earliest version in it. The copy is recorded beside those.
pub proof fn law_copy_is_recorded_beside_what_was_listed(
    ask: ListForRecord,
    state: &mut AppState,
    entries: Vec<DirEntry>,
    now: u128,
    step: Step,
)
    requires
        call_ensures(ListForRecord::listed, (ask, state, entries, now), step),
        old(state).archive is Some,
    ensures
        ({
            let target = ask.copy.target;
            let listing = final(state).archive->0.listing(target.server@, target.datafile@);
            &&& final(state).archive is Some
            &&& listing is Some
            &&& listing->0.listed_at == now
            &&& is_listing_of(found_in(entries@), listing->0.versions)
            &&& records(ask.copy, listing->0.versions, step)
            &&& final(state).cache == old(state).cache
            &&& final(state).failed_cache == old(state).failed_cache
        }),
{
}

/// A version that was stored is known beside those there were, and then the newest is looked for.
pub proof fn law_stored_version_is_known(
    store: StoreVersion,
    state: &mut AppState,
    path: std::path::PathBuf,
    now: u128,
    step: Step,
)
    requires
        call_ensures(StoreVersion::stored, (store, state, Some(path), now), step),
        old(state).archive is Some,
    ensures
        ({
            let target = store.copy.target;
            let listing = final(state).archive->0.listing(target.server@, target.datafile@);
            let version = VersionView { lm: store.new.lm, hash: store.new.hash@, path };
            &&& final(state).archive is Some
            &&& listing is Some
            &&& listing->0.listed_at == now
            &&& is_listing_of(views(store.existing@).push(version), listing->0.versions)
            &&& picks_from(store.copy, *final(state), listing->0.versions, step)
            &&& final(state).cache == old(state).cache
            &&& final(state).failed_cache == old(state).failed_cache
        }),
{
    law_archive_is_asked_for_a_newer_version(store.copy, *final(state), now, step);
}

/// A copy that could not be stored changes nothing, and then the newest version is looked for.
pub proof fn law_copy_that_is_not_stored_changes_nothing(
    store: StoreVersion,
    state: &mut AppState,
    now: u128,
    step: Step,
    told: NotStored,
    same: &AppState,
    next: Step,
)
    requires
        call_ensures(StoreVersion::stored, (store, state, None, now), step),
        call_ensures(NotStored::told, (told, same, now), next),
    ensures
        *final(state) == *old(state),
        picks(store.copy, *old(state), now, step),
        picks(told.copy, *same, now, next),
{
}

/// When the directory was listed again, the newest version in it is read if it is newer than the
/// copy, and otherwise the copy is settled on.
pub proof fn law_newest_listed_version_is_read(
    ask: ListForNewest,
    state: &mut AppState,
    entries: Vec<DirEntry>,
    now: u128,
    step: Step,
)
    requires
        call_ensures(ListForNewest::listed, (ask, state, entries, now), step),
        old(state).archive is Some,
    ensures
        ({
            let target = ask.copy.target;
            let listing = final(state).archive->0.listing(target.server@, target.datafile@);
            let list = listing->0.versions;
            &&& final(state).archive is Some
            &&& listing is Some
            &&& listing->0.listed_at == now
            &&& is_listing_of(found_in(entries@), list)
            &&& list.len() > 0 && list[list.len() - 1].lm > ask.copy.last_modified ==> {
                &&& step matches Step::ReadNewest(read)
                &&& read.copy == ask.copy
                &&& read.version@ == list[list.len() - 1]
            }
            &&& list.len() == 0 || list[list.len() - 1].lm <= ask.copy.last_modified ==> settles(
                ask.copy,
                *final(state),
                step,
            )
        }),
{
    let target = ask.copy.target;
    let list = final(state).archive->0.listing(target.server@, target.datafile@)->0.versions;
    law_newest_version_is_read_if_newer(ask.copy, *final(state), list, step);
}

/// An archived version that was read is written as what it unpacks to, with its own time, unless a
/// file with a later time is in memory.
pub proof fn law_newer_version_is_written(
    read: ReadNewest,
    state: &AppState,
    gz: Vec<u8>,
    step: Step,
)
    requires
        call_ensures(ReadNewest::read, (read, state, Some(gz)), step),
        gunzipped(gz@) is Some,
    ensures
        ({
            let files = state.cache@;
            let key = read.copy.target.key@;
            let cached = files.contains_key(key) && files[key].last_modified > read.version.lm;
            &&& step matches Step::WriteDisk(write)
            &&& write.copy.target == read.copy.target
            &&& !cached ==> bytes_contents(write.copy.data) == gunzipped(gz@)->0
                && write.copy.last_modified == read.version.lm
            &&& cached ==> bytes_contents(write.copy.data) == files[key].data
                && write.copy.last_modified == files[key].last_modified
        }),
{
    let newest = choose|newest: Candidate| #[trigger]
        settles(newest, *state, step) && newest.target == read.copy.target && bytes_contents(
            newest.data,
        ) == gunzipped(gz@)->0 && newest.last_modified == read.version.lm;
    law_served_copy_is_the_newer_of_two(newest, *state, step);
}

/// Where an archived version that is newer cannot be read or unpacked, the older copy is not
/// written: a file in memory that is as new is, or a failure is reported.
pub proof fn law_older_copy_is_not_written(
    read: ReadNewest,
    state: &AppState,
    gz: Option<Vec<u8>>,
    step: Step,
)
    requires
        call_ensures(ReadNewest::read, (read, state, gz), step),
        gz matches Some(bytes) ==> gunzipped(bytes@) is None,
        read.copy.last_modified < read.version.lm,
    ensures
        ({
            let files = state.cache@;
            let key = read.copy.target.key@;
            let cached = files.contains_key(key) && files[key].last_modified >= read.version.lm;
            &&& !cached ==> step == Step::Done(Err(Status::BadGateway))
            &&& cached ==> {
                &&& step matches Step::WriteDisk(write)
                &&& bytes_contents(write.copy.data) == files[key].data
                &&& write.copy.last_modified == files[key].last_modified
            }
        }),
{
    law_unreadable_version_is_not_passed_over(read.copy, read.version.lm, *state, step);
}

/// The hash of a file is made from the digest of all its rows in order, and two files with the
/// same rows, in whatever order, have the same hash.
pub proof fn law_equal_rows_have_equal_hashes(a: &[u8], b: &[u8], hash_a: String, hash_b: String)
    requires
        call_ensures(canonical_hash, (a,), hash_a),
        call_ensures(canonical_hash, (b,), hash_b),
    ensures
        hash_a@ == hex(sha256(canonical_form(a@)).take(8)),
        hash_a@.len() == 16,
        rows(a@).to_multiset() == rows(b@).to_multiset() ==> hash_a@ == hash_b@,
{
    if rows(a@).to_multiset() == rows(b@).to_multiset() {
        law_hash_ignores_row_order(a@, b@);
    }
}

/// The name that a version is stored under is parsed to its time and hash.
pub proof fn law_name_is_parsed_as_it_is_written(
    data: &[u8],
    hash: String,
    hash_text: &str,
    lm: u64,
    name: String,
    name_text: &str,
    fields: Option<(u64, String)>,
)
    requires
        call_ensures(canonical_hash, (data,), hash),
        hash_text@ == hash@,
        call_ensures(file_name, (lm, hash_text), name),
        name_text@ == name@,
        call_ensures(parse_name, (name_text,), fields),
    ensures
        fields matches Some((time, content)) && time == lm && content@ == hash@,
{
    law_stored_name_is_found(lm, hash@);
}

/// What is normalized holds nothing but the versions that were given, and of each content the
/// earliest, from early to late.
pub proof fn law_normalizing_keeps_the_earliest(
    versions: Vec<Version>,
    list: Vec<Version>,
    j: int,
    a: int,
    b: int,
)
    requires
        call_ensures(normalize, (versions,), list),
    ensures
        0 <= j < versions@.len() ==> exists|k: int|
            0 <= k < list@.len() && (#[trigger] list@[k]).hash@ == versions@[j].hash@
                && list@[k].lm <= versions@[j].lm,
        0 <= a < list@.len() ==> exists|i: int|
            0 <= i < versions@.len() && (#[trigger] versions@[i])@ == list@[a]@,
        0 <= a < b < list@.len() ==> list@[a].hash@ != list@[b].hash@ && list@[a].lm
            <= list@[b].lm,
{
    let before = views(versions@);
    let after = views(list@);
    law_listing_is_the_earliest_of_each_content(before, after, j, a, b);
    if 0 <= j < versions@.len() {
        let k = choose|k: int|
            0 <= k < after.len() && (#[trigger] after[k]).hash == before[j].hash && after[k].lm
                <= before[j].lm;
        assert(list@[k].hash@ == versions@[j].hash@);
    }
    if 0 <= a < list@.len() {
        let i = choose|i: int| 0 <= i < before.len() && #[trigger] before[i] == after[a];
        assert(versions@[i]@ == list@[a]@);
    }
}

/// What is listed are the versions that the names in the directory say, of each content the
/// earliest.
pub proof fn law_directory_is_listed_by_its_names(entries: Vec<DirEntry>, list: Vec<Version>)
    requires
        call_ensures(list_versions, (entries,), list),
    ensures
        is_listing_of(found_in(entries@), views(list@)),
{
}

/// Of a list from early to late the version that stands for a time is, of a file other than the
/// islands, the newest that is not after it, and there is one wherever some version is not after
/// it. Of the islands there is one wherever there is a version, and none is closer.
pub proof fn law_version_at_a_time(
    versions: &Vec<Version>,
    file: &str,
    t: u64,
    found: Option<Version>,
    j: int,
)
    requires
        call_ensures(Archive::at, (versions, file, t), found),
        is_listing(views(versions@)),
        0 <= j < versions@.len(),
    ensures
        found matches Some(version) ==> versions@.contains(version),
        file@ != "islands.txt"@ && versions@[j].lm <= t ==> found is Some && versions@[j].lm
            <= found->0.lm <= t,
        file@ != "islands.txt"@ && found is Some ==> found->0.lm <= t,
        file@ == "islands.txt"@ ==> {
            &&& found is Some
            &&& versions@[j].lm <= t ==> t - versions@[j].lm >= found->0.lm - t && t
                - versions@[j].lm >= t - found->0.lm
            &&& t <= versions@[j].lm ==> versions@[j].lm - t >= found->0.lm - t
                && versions@[j].lm - t >= t - found->0.lm
        },
{
    let list = views(versions@);
    assert(list[j].lm == versions@[j].lm);
    law_version_stands_for_a_time(list, file@, t, j);
    if file@ != "islands.txt"@ {
        law_resolved_is_newest_not_after(list, file@, t);
    }
}

/// The same holds of resolving a time in a slice of versions.
pub proof fn law_resolving_is_finding_at_a_time(
    versions: &[Version],
    same: &Vec<Version>,
    file: &str,
    t: u64,
    resolved: Option<&Version>,
    found: Option<Version>,
)
    requires
        call_ensures(resolve_at, (versions, file, t), resolved),
        same@ == versions@,
        call_ensures(Archive::at, (same, file, t), found),
    ensures
        match resolved {
            Some(version) => found == Some(*version),
            None => found is None,
        },
{
}

/// The timeline has a point at the time of every version, or at most 120 seconds after it, as far
/// as there are islands and every file has a version by then; and it has no other points than the
/// times of versions.
pub proof fn law_timeline_has_every_version(
    per_file: &[Vec<Version>],
    has_islands: bool,
    points: Vec<u64>,
    f: int,
    i: int,
    k: int,
)
    requires
        call_ensures(timeline_points, (per_file, has_islands), points),
    ensures
        !has_islands ==> points@.len() == 0,
        has_islands && 0 <= f < per_file@.len() && 0 <= i < per_file@[f]@.len() && (forall|g: int|
            0 <= g < per_file@.len() ==> has_one_by((#[trigger] per_file@[g])@, per_file@[f]@[i].lm))
            ==> exists|m: int|
            0 <= m < points@.len() && per_file@[f]@[i].lm <= #[trigger] points@[m]
                <= per_file@[f]@[i].lm + 120,
        0 <= k < points@.len() && 0 <= f < per_file@.len() ==> has_one_by(
            per_file@[f]@,
            points@[k],
        ),
        0 <= k < points@.len() - 1 ==> points@[k] < points@[k + 1],
        has_islands ==> exists|starts: Seq<u64>, ends: Seq<u64>| #[trigger]
            is_timeline_by(list_views(per_file@), starts, ends, points@),
{
    let lists = list_views(per_file@);
    law_timeline_is_of_all_versions(lists);
    if has_islands {
        let (starts, ends) = choose|starts: Seq<u64>, ends: Seq<u64>| #[trigger]
            is_timeline_by(lists, starts, ends, timeline(lists, true));
        assert(is_timeline_by(lists, starts, ends, points@));
        if 0 <= k < points@.len() && 0 <= f < per_file@.len() {
            assert(points@.contains(points@[k]));
            assert(can_show(lists, points@[k]));
            assert(has_version_by(lists[f], points@[k]));
            let v = choose|v: int| 0 <= v < lists[f].len() && (#[trigger] lists[f][v]).lm
                <= points@[k];
            assert(per_file@[f]@[v].lm <= points@[k]);
        }
    }
    if has_islands && 0 <= f < per_file@.len() && 0 <= i < per_file@[f]@.len() && (forall|g: int|
        0 <= g < per_file@.len() ==> has_one_by((#[trigger] per_file@[g])@, per_file@[f]@[i].lm)) {
        let t = per_file@[f]@[i].lm;
        assert(lists[f][i].lm == t);
        assert forall|g: int|
            0 <= g < lists.len() implies has_version_by(#[trigger] lists[g], t) by {
            assert(has_one_by(per_file@[g]@, t));
            let v = choose|v: int| 0 <= v < per_file@[g]@.len() && (#[trigger] per_file@[g]@[v]).lm
                <= t;
            assert(lists[g][v].lm <= t);
        }
        law_no_version_is_left_out(lists, f, i);
    }
}

/// By the time `t` there is a version.
pub open spec fn has_one_by(versions: Seq<Version>, t: u64) -> bool {
    exists|i: int| 0 <= i < versions.len() && (#[trigger] versions[i]).lm <= t
}

/// At every point of the timeline every file has a version to show.
pub proof fn law_every_point_can_be_shown(
    per_file: &[Vec<Version>],
    islands: &Vec<Version>,
    points: Vec<u64>,
    k: int,
    f: int,
    file: &str,
    shown: Option<Version>,
    islands_file: &str,
    islands_shown: Option<Version>,
)
    requires
        call_ensures(Archive::timeline, (per_file, islands), points),
        0 <= k < points@.len(),
        0 <= f < per_file@.len(),
        call_ensures(Archive::at, (&per_file@[f], file, points@[k]), shown),
        islands_file@ == "islands.txt"@,
        call_ensures(Archive::at, (islands, islands_file, points@[k]), islands_shown),
    ensures
        shown is Some,
        islands_shown is Some,
{
    let lists = list_views(per_file@);
    assert(lists[f] == views(per_file@[f]@));
    law_timeline_points_can_be_shown(lists, views(islands@), file@, k, f);
}

/// What becomes of a copy: it is a duplicate exactly when some version has its hash, throttled
/// exactly when none has, it is of the islands and comes less than a day after the last version,
/// and otherwise stored.
pub proof fn law_copy_is_stored_once_and_islands_daily(
    existing: &Vec<Version>,
    file: &str,
    lm: u64,
    hash: &str,
    outcome: RecordOutcome,
)
    requires
        call_ensures(record_outcome, (existing, file, lm, hash), outcome),
    ensures
        ({
            let known = exists|i: int|
                0 <= i < existing@.len() && (#[trigger] existing@[i]).hash@ == hash@;
            let too_soon = file@ == "islands.txt"@ && existing@.len() > 0 && lm
                < existing@[existing@.len() - 1].lm + 86_400;
            &&& known <==> outcome == RecordOutcome::Duplicate
            &&& !known && too_soon <==> outcome == RecordOutcome::Throttled
        }),
{
    let list = views(existing@);
    law_outcome_follows_content_and_time(list, file@, lm, hash@);
    if exists|i: int| 0 <= i < existing@.len() && (#[trigger] existing@[i]).hash@ == hash@ {
        let i = choose|i: int| 0 <= i < existing@.len() && (#[trigger] existing@[i]).hash@ == hash@;
        assert(list[i].hash == hash@);
    }
    if exists|i: int| 0 <= i < list.len() && (#[trigger] list[i]).hash == hash@ {
        let i = choose|i: int| 0 <= i < list.len() && (#[trigger] list[i]).hash == hash@;
        assert(existing@[i].hash@ == hash@);
    }
}

/// What the archive stores of a copy is read back from it, byte for byte.
pub proof fn law_stored_copy_is_read_back(
    file: &str,
    lm: u64,
    data: &[u8],
    existing: &Vec<Version>,
    plan: Result<RecordPlan, std::io::Error>,
    gz: &[u8],
    plain: Result<bytes::Bytes, std::io::Error>,
)
    requires
        call_ensures(Archive::record, (file, lm, data, existing), plan),
        plan matches Ok(RecordPlan::Store(new)) && gz@ == new.gz@,
        call_ensures(Archive::read_plain, (gz,), plain),
    ensures
        plain matches Ok(buffer) && bytes_contents(buffer) == data@,
        plan matches Ok(RecordPlan::Store(new)) && new.lm == lm && new.hash@ == content_hash(data@),
{
}

/// A copy that the archive is handed is stored exactly when its outcome says so, unless it cannot
/// be compressed.
pub proof fn law_record_does_what_the_outcome_says(
    file: &str,
    lm: u64,
    data: &[u8],
    existing: &Vec<Version>,
    plan: Result<RecordPlan, std::io::Error>,
    hash: &str,
    outcome: RecordOutcome,
)
    requires
        call_ensures(Archive::record, (file, lm, data, existing), plan),
        hash@ == content_hash(data@),
        call_ensures(record_outcome, (existing, file, lm, hash), outcome),
    ensures
        outcome == RecordOutcome::Stored && gzipped(data@) is Some ==> plan is Ok && plan->Ok_0 is Store,
        outcome == RecordOutcome::Stored && gzipped(data@) is None ==> plan is Err,
        outcome != RecordOutcome::Stored ==> plan == Ok::<RecordPlan, std::io::Error>(
            RecordPlan::Skip(outcome),
        ),
{
}

/// After a version was added, a copy with the same rows, of whatever time and in whatever order, is
/// a duplicate.
pub proof fn law_same_rows_are_not_stored_again(
    archive: &mut Archive,
    server: &str,
    file: &str,
    now: u128,
    existing: Vec<Version>,
    version: Version,
    then: &Archive,
    later: u128,
    list: Vec<Version>,
    data: Seq<u8>,
    again: &[u8],
    lm: u64,
    plan: Result<RecordPlan, std::io::Error>,
)
    requires
        version.hash@ == content_hash(data),
        call_ensures(Archive::commit, (archive, server, file, now, existing, version), ()),
        *then == *final(archive),
        call_ensures(Archive::versions, (then, server, file, later), Some(list)),
        rows(again@).to_multiset() == rows(data).to_multiset(),
        call_ensures(Archive::record, (file, lm, again, &list), plan),
    ensures
        plan == Ok::<RecordPlan, std::io::Error>(RecordPlan::Skip(RecordOutcome::Duplicate)),
{
    let updated = views(list@);
    law_content_is_stored_once(views(existing@), version@, updated, data, again@, file@, lm);
}

/// What was listed is given back for a minute, and not after. What is known of other files does not
/// change.
pub proof fn law_listing_is_given_back(
    archive: &mut Archive,
    server: &str,
    file: &str,
    now: u128,
    entries: Vec<DirEntry>,
    list: Vec<Version>,
    then: &Archive,
    later: u128,
    known: Option<Vec<Version>>,
    other_server: Seq<char>,
    other_file: Seq<char>,
)
    requires
        call_ensures(Archive::refresh, (archive, server, file, now, entries), list),
        *then == *final(archive),
        now <= later,
        call_ensures(Archive::versions, (then, server, file, later), known),
    ensures
        is_listing_of(found_in(entries@), views(list@)),
        known is Some <==> later - now < 60_000_000_000,
        known is Some ==> views(known->0@) == views(list@),
        other_server != server@ || other_file != file@ ==> final(archive).listing(
            other_server,
            other_file,
        ) == old(archive).listing(other_server, other_file),
{
}

/// A snapshot of a file other than the islands, from versions that were listed less than a minute
/// ago, is of the newest version that is not after the time, wherever there is one.
pub proof fn law_snapshot_is_of_its_time(
    state: &AppState,
    server: &str,
    datafile: &str,
    at: u64,
    now: u128,
    step: SnapshotStep,
    j: int,
)
    requires
        call_ensures(snapshot_at, (state, server, datafile, at, now), step),
        state.archive is Some,
        state.archive->0.listing(server@, datafile@) is Some,
        now - state.archive->0.listing(server@, datafile@)->0.listed_at < 60_000_000_000,
        is_listing(state.archive->0.listing(server@, datafile@)->0.versions),
        0 <= j < state.archive->0.listing(server@, datafile@)->0.versions.len(),
    ensures
        ({
            let list = state.archive->0.listing(server@, datafile@)->0.versions;
            &&& datafile@ != "islands.txt"@ && list[j].lm <= at ==> {
                &&& step matches SnapshotStep::Read(read)
                &&& list.contains(read.version@)
                &&& list[j].lm <= read.version.lm <= at
            }
            &&& datafile@ == "islands.txt"@ ==> {
                &&& step matches SnapshotStep::Read(read)
                &&& list.contains(read.version@)
                &&& list[j].lm <= at ==> at - list[j].lm >= read.version.lm - at && at
                    - list[j].lm >= at - read.version.lm
                &&& at <= list[j].lm ==> list[j].lm - at >= read.version.lm - at && list[j].lm
                    - at >= at - read.version.lm
            }
        }),
{
    let list = state.archive->0.listing(server@, datafile@)->0.versions;
    law_snapshot_begins_with_the_listing(*state, server@, datafile@, at, now, step);
    if datafile@ == "islands.txt"@ {
        law_snapshot_of_islands_is_the_closest(list, at, step, j);
    } else if list[j].lm <= at {
        law_snapshot_is_the_newest_not_after(list, datafile@, at, step, j);
    }
}

/// A snapshot is looked for in the directory, where its versions were not listed less than a
/// minute ago, and is not found without an archive.
pub proof fn law_snapshot_is_looked_for(
    state: &AppState,
    server: &str,
    datafile: &str,
    at: u64,
    now: u128,
    step: SnapshotStep,
)
    requires
        call_ensures(snapshot_at, (state, server, datafile, at, now), step),
        state.archive matches Some(archive) ==> (archive.listing(server@, datafile@) matches Some(
            listing,
        ) ==> now - listing.listed_at >= 60_000_000_000),
    ensures
        state.archive is None ==> step == SnapshotStep::Done(Err(Status::NotFound)),
        state.archive is Some ==> {
            &&& step matches SnapshotStep::List(ask)
            &&& ask.server@ == server@
            &&& ask.datafile@ == datafile@
            &&& ask.at == at
        },
{
    law_snapshot_begins_with_the_listing(*state, server@, datafile@, at, now, step);
}

/// When the directory was listed for a snapshot, the version that stands for its time is read,
/// and what was listed is known from now on.
pub proof fn law_listed_snapshot_is_read(
    ask: ListSnapshot,
    state: &mut AppState,
    entries: Vec<DirEntry>,
    now: u128,
    step: SnapshotStep,
)
    requires
        call_ensures(ListSnapshot::listed, (ask, state, entries, now), step),
        old(state).archive is Some,
    ensures
        ({
            let listing = final(state).archive->0.listing(ask.server@, ask.datafile@);
            &&& final(state).archive is Some
            &&& listing is Some
            &&& listing->0.listed_at == now
            &&& is_listing_of(found_in(entries@), listing->0.versions)
            &&& reads_resolved(listing->0.versions, ask.datafile@, ask.at, step)
            &&& final(state).cache == old(state).cache
            &&& final(state).failed_cache == old(state).failed_cache
        }),
{
}

/// A snapshot is served as it is stored.
pub proof fn law_snapshot_is_served_as_stored(
    read: ReadSnapshot,
    gz: Option<Vec<u8>>,
    step: SnapshotStep,
)
    requires
        call_ensures(ReadSnapshot::read, (read, gz), step),
    ensures
        gz is Some ==> step == SnapshotStep::Done(Ok(gz->0)),
        gz is None ==> step == SnapshotStep::Done(Err(Status::InternalServerError)),
{
}

/// Where all four files of a server were listed less than a minute ago, its history is the timeline
/// of the first three, as far as there are islands.
pub proof fn law_history_is_the_timeline(
    state: &AppState,
    server: &str,
    now: u128,
    step: HistoryStep,
    lists: Seq<Seq<VersionView>>,
)
    requires
        call_ensures(history_checked, (true, state, server, now), step),
        state.archive is Some,
        lists.len() == 4,
        forall|k: int| 0 <= k < 4 ==> is_known(*state, server@, k, now, #[trigger] lists[k]),
    ensures
        step matches HistoryStep::Done(Ok(history)) && history.server@ == server@
            && history.snapshots@ == timeline(
            seq![lists[0], lists[1], lists[2]],
            lists[3].len() > 0,
        ),
{
    let archive = state.archive->0;
    let none = Seq::<Seq<VersionView>>::empty();
    let all = gathered(archive, server@, none, now);
    law_lists_are_gathered_in_turn(archive, server@, none, now, 0);
    if all.len() < 4 {
        assert(is_known(*state, server@, all.len() as int, now, lists[all.len() as int]));
    }
    assert forall|k: int| 0 <= k < 4 implies all[k] == lists[k] by {
        law_lists_are_gathered_in_turn(archive, server@, none, now, k);
        assert(is_known(*state, server@, k, now, lists[k]));
    }
    assert(all =~= lists);
    law_history_is_the_timeline_of_the_server(server@, all, step);
}

/// `list` are the versions of one of the files of a history, as they were listed less than a minute
/// ago.
pub open spec fn is_known(
    state: AppState,
    server: Seq<char>,
    k: int,
    now: u128,
    list: Seq<VersionView>,
) -> bool {
    let file = if k == 0 {
        "players.txt"@
    } else if k == 1 {
        "alliances.txt"@
    } else if k == 2 {
        "towns.txt"@
    } else {
        "islands.txt"@
    };
    let listing = state.archive->0.listing(server, file);
    listing is Some && listing->0.versions == list && now - listing->0.listed_at < 60_000_000_000
}

/// There is no history of what is not a server, nor without an archive.
pub proof fn law_history_needs_a_server_and_an_archive(
    server_ok: bool,
    state: &AppState,
    server: &str,
    now: u128,
    step: HistoryStep,
)
    requires
        call_ensures(history_checked, (server_ok, state, server, now), step),
        !server_ok || state.archive is None,
    ensures
        step == HistoryStep::Done(Err(Status::NotFound)),
{
}

/// A list that was asked for joins those that are there, and is known from now on.
pub proof fn law_listed_file_joins_the_history(
    ask: ListHistory,
    state: &mut AppState,
    entries: Vec<DirEntry>,
    now: u128,
    step: HistoryStep,
)
    requires
        call_ensures(ListHistory::listed, (ask, state, entries, now), step),
        old(state).archive is Some,
        ask.have().len() == 3,
    ensures
        ({
            let listing = final(state).archive->0.listing(ask.for_server(), "islands.txt"@);
            &&& listing is Some
            &&& listing->0.listed_at == now
            &&& is_listing_of(found_in(entries@), listing->0.versions)
            &&& step matches HistoryStep::Done(Ok(history))
            &&& history.server@ == ask.for_server()
            &&& history.snapshots@ == timeline(ask.have(), listing->0.versions.len() > 0)
        }),
{
    let archive = final(state).archive->0;
    let list = archive.listing(ask.for_server(), "islands.txt"@)->0.versions;
    let lists = ask.have().push(list);
    law_lists_are_gathered_in_turn(archive, ask.for_server(), lists, now, 0);
    let all = gathered(archive, ask.for_server(), lists, now);
    assert(all =~= lists) by {
        assert(all.take(4) =~= all);
    }
    law_history_is_the_timeline_of_the_server(ask.for_server(), all, step);
    assert(seq![all[0], all[1], all[2]] =~= ask.have());
}

/// A capture succeeds exactly when every file could be served.
pub proof fn law_capture_needs_every_file(served: &Vec<bool>, status: Status)
    requires
        call_ensures(capture_status, (served,), status),
    ensures
        status == Status::NoContent <==> !served@.contains(false),
        status == Status::BadGateway <==> served@.contains(false),
{
}

/// Four files are served, and no others; of ASCII names those are servers that are two letters and
/// one to three digits.
pub proof fn law_what_is_served(
    datafile: &str,
    file_ok: bool,
    server: &str,
    server_ok: bool,
    at: Option<u64>,
    route: Route,
)
    requires
        call_ensures(is_datafile, (datafile,), file_ok),
        call_ensures(is_server, (server,), server_ok),
        call_ensures(route_checked, (server_ok, datafile, at), route),
    ensures
        file_ok <==> datafile@ == "players.txt"@ || datafile@ == "towns.txt"@ || datafile@
            == "alliances.txt"@ || datafile@ == "islands.txt"@,
        vstd::utf8::is_ascii_chars(server@) ==> (server_ok <==> {
            &&& 3 <= server@.len() <= 5
            &&& 'a' <= server@[0] <= 'z' || 'A' <= server@[0] <= 'Z'
            &&& 'a' <= server@[1] <= 'z' || 'A' <= server@[1] <= 'Z'
            &&& forall|i: int| 2 <= i < server@.len() ==> '0' <= #[trigger] server@[i] <= '9'
        }),
        route == Route::NotFound <==> !(file_ok && server_ok),
        route == Route::Live <==> file_ok && server_ok && at is None,
        file_ok && server_ok && at is Some ==> route == Route::Snapshot(at->0),
{
    law_server_is_two_letters_and_digits(server@);
    law_four_files_are_served(server_ok, datafile@, at);
}

/// A request on its route: what is not there changes nothing; a snapshot is begun as such; a file
/// as it is now may come from memory for 15 minutes.
pub proof fn law_request_is_begun_on_its_route(
    route: Route,
    state: &mut AppState,
    server: &str,
    datafile: &str,
    now: u128,
    step: RequestStep,
)
    requires
        call_ensures(request_routed, (route, state, server, datafile, now), step),
    ensures
        route == Route::NotFound ==> step is NotFound && *final(state) == *old(state),
        route matches Route::Snapshot(at) ==> {
            &&& step matches RequestStep::Snapshot(first)
            &&& begins_snapshot(*old(state), server@, datafile@, at, now, first)
            &&& *final(state) == *old(state)
        },
        route == Route::Live ==> {
            &&& step matches RequestStep::Live(first)
            &&& begins(
                *old(state),
                server@,
                datafile@,
                900_000_000_000,
                now,
                first,
                *final(state),
            )
        },
{
}

/// A capture of a server takes four files, each of which may come from memory for 5 minutes; one of
/// what is not a server takes none.
pub proof fn law_capture_takes_four_files(
    server_ok: bool,
    state: &mut AppState,
    server: &str,
    now: u128,
    steps: Result<Vec<Captured>, Status>,
)
    requires
        call_ensures(capture_checked, (server_ok, state, server, now), steps),
    ensures
        steps is Ok <==> server_ok,
        steps is Err ==> steps == Err::<Vec<Captured>, Status>(Status::NotFound) && *final(state)
            == *old(state),
        steps matches Ok(steps) ==> {
            &&& steps@.len() == 4
            &&& steps@[0].datafile@ == "players.txt"@
            &&& steps@[1].datafile@ == "alliances.txt"@
            &&& steps@[2].datafile@ == "towns.txt"@
            &&& steps@[3].datafile@ == "islands.txt"@
            &&& exists|one: AppState| #[trigger]
                begins(
                    *old(state),
                    server@,
                    "players.txt"@,
                    300_000_000_000,
                    now,
                    steps@[0].step,
                    one,
                )
        },
{
    match steps {
        Ok(steps) => {
            law_capture_begins_with_four_files(*old(state), server@, now, steps@, *final(state));
        },
        Err(_) => {},
    }
}

/// A status is a success from 200 to 299.
pub proof fn law_success_has_a_status_from_200(status: u16, success: bool)
    requires
        call_ensures(is_success, (status,), success),
    ensures
        success <==> status / 100 == 2,
{
}

} // verus!
