use std::path::PathBuf;

use bytes::Bytes;

use reflector::archive::{gzip, RecordOutcome};
use reflector::cache::{RamCache, MAX_FILES_IN_RAM_CACHE};
use reflector::hash::canonical_hash;
use reflector::listing::DirEntry;
use reflector::live::{
    get_live, is_success, last_modified_secs, parsed_or_now, upstream_url, DiskFile, Fetch,
    ListForNewest, ListForRecord, NotStored, ProbeDisk, ReadBody, ReadNewest, Step, StoreVersion,
    UpstreamReply, WriteDisk,
};
use reflector::request::Status;
use reflector::state::{AppState, CACHE_EXPIRY, CAPTURE_MAX_AGE};
use reflector::version::file_name;

const DATE: &str = "Sun, 06 Nov 1994 08:49:37 GMT";
const DATE_SECS: u64 = 784_111_777;

fn reply(body: &'static [u8], last_modified: Option<&str>) -> Option<UpstreamReply> {
    Some(UpstreamReply {
        body: Bytes::from_static(body),
        last_modified: last_modified.map(str::to_owned),
    })
}

fn probe(step: Step) -> ProbeDisk {
    match step {
        Step::ProbeDisk(probe) => probe,
        _ => panic!("the disk is not asked"),
    }
}

fn ask_upstream(state: &mut AppState, file: &str, now: u128) -> Fetch {
    match probe(get_live(state, "us145", file, CACHE_EXPIRY, now)).found(None) {
        Step::Fetch(fetch) => fetch,
        _ => panic!("upstream is not asked"),
    }
}

fn fetch(state: &mut AppState, file: &str, now: u128) -> ReadBody {
    match ask_upstream(state, file, now).answered(state, Some(200), now) {
        Step::ReadBody(body) => body,
        _ => panic!("the body is not read"),
    }
}

fn list_for_record(step: Step) -> ListForRecord {
    match step {
        Step::ListForRecord(ask) => ask,
        _ => panic!("the archive is not listed"),
    }
}

fn list_for_newest(step: Step) -> ListForNewest {
    match step {
        Step::ListForNewest(ask) => ask,
        _ => panic!("the archive is not listed"),
    }
}

fn not_stored(step: Step) -> NotStored {
    match step {
        Step::NotStored(told) => told,
        _ => panic!("the copy is stored"),
    }
}

fn store(step: Step) -> StoreVersion {
    match step {
        Step::StoreVersion(store) => store,
        _ => panic!("nothing is stored"),
    }
}

fn read_newest(step: Step) -> ReadNewest {
    match step {
        Step::ReadNewest(read) => read,
        _ => panic!("no version is read"),
    }
}

fn write(step: Step) -> WriteDisk {
    match step {
        Step::WriteDisk(write) => write,
        _ => panic!("nothing is written"),
    }
}

fn served(step: Step) -> Bytes {
    match step {
        Step::Done(Ok(data)) => data,
        _ => panic!("nothing is served"),
    }
}

fn failed(step: Step) -> Status {
    match step {
        Step::Done(Err(status)) => status,
        _ => panic!("no failure is reported"),
    }
}

fn entry(lm: u64, data: &[u8]) -> DirEntry {
    let name = file_name(lm, &canonical_hash(data));
    DirEntry {
        path: PathBuf::from(&name),
        name: Some(name),
    }
}

#[test]
fn upstream_is_asked_by_server_and_file() {
    assert_eq!(
        upstream_url("us145", "towns.txt"),
        "https://us145.grepolis.com/data/towns.txt"
    );
}

#[test]
fn last_modified_is_that_of_the_header_or_now() {
    assert_eq!(last_modified_secs(Some(DATE), 5), DATE_SECS);
    assert_eq!(last_modified_secs(Some("Sunday, 06-Nov-94 08:49:37 GMT"), 5), DATE_SECS);
    assert_eq!(last_modified_secs(Some("Sun Nov  6 08:49:37 1994"), 5), DATE_SECS);
    assert_eq!(last_modified_secs(Some("yesterday"), 5), 5);
    assert_eq!(last_modified_secs(None, 5), 5);
    assert_eq!(parsed_or_now(Some(3), 5), 3);
    assert_eq!(parsed_or_now(None, 5), 5);
}

#[test]
fn a_fetched_file_is_written_and_served_from_memory() {
    let mut state = AppState::new(None);
    let step = fetch(&mut state, "towns.txt", 10).fetched(&mut state, reply(b"1", Some(DATE)), 5, 11);
    let writing = write(step);
    assert_eq!(writing.copy.target.key, "us145/towns.txt");
    assert_eq!(writing.copy.last_modified, DATE_SECS);
    assert_eq!(writing.copy.data.as_ref(), b"1");
    assert_eq!(served(writing.written(&mut state, 12)).as_ref(), b"1");
    let again = get_live(&mut state, "us145", "towns.txt", CACHE_EXPIRY, 11 + CACHE_EXPIRY);
    assert_eq!(served(again).as_ref(), b"1");
    probe(get_live(&mut state, "us145", "towns.txt", CACHE_EXPIRY, 12 + CACHE_EXPIRY));
    probe(get_live(&mut state, "us145", "players.txt", CACHE_EXPIRY, 12));
}

#[test]
fn a_failure_is_remembered() {
    let mut state = AppState::new(None);
    let step = fetch(&mut state, "towns.txt", 10).fetched(&mut state, None, 5, 10);
    assert_eq!(failed(step), Status::BadGateway);
    assert!(state.has_failed_recently("us145/towns.txt", 9 + CACHE_EXPIRY));
    let again = get_live(&mut state, "us145", "towns.txt", CACHE_EXPIRY, 9 + CACHE_EXPIRY);
    assert_eq!(failed(again), Status::BadGateway);
    probe(get_live(&mut state, "us145", "towns.txt", CACHE_EXPIRY, 10 + CACHE_EXPIRY));
    probe(get_live(&mut state, "us145", "players.txt", CACHE_EXPIRY, 10));
}

#[test]
fn statuses_from_200_to_299_are_success() {
    for (status, expected) in [(0, false), (199, false), (200, true), (204, true), (299, true), (300, false), (302, false), (404, false), (500, false), (u16::MAX, false)] {
        assert_eq!(is_success(status), expected, "{status}");
    }
}

#[test]
fn other_answers_are_failures() {
    for status in [None, Some(199), Some(302), Some(404), Some(503)] {
        let mut state = AppState::new(None);
        let asking = ask_upstream(&mut state, "towns.txt", 10);
        assert_eq!(asking.target.url(), "https://us145.grepolis.com/data/towns.txt");
        let step = asking.answered(&mut state, status, 10);
        assert_eq!(failed(step), Status::BadGateway);
        assert!(state.has_failed_recently("us145/towns.txt", 10));
    }
    let mut state = AppState::new(None);
    fetch(&mut state, "towns.txt", 10);
    assert!(!state.has_failed_recently("us145/towns.txt", 10));
}

#[test]
fn a_young_file_on_disk_is_used() {
    let mut state = AppState::new(None);
    let ask = || probe(get_live(&mut AppState::new(None), "us145", "towns.txt", 100, 10));
    let found = |is_file: bool, age: Option<u128>| Some(DiskFile { is_file, age });
    assert!(matches!(ask().found(None), Step::Fetch(_)));
    assert!(matches!(ask().found(found(false, Some(1))), Step::Fetch(_)));
    assert!(matches!(ask().found(found(true, None)), Step::Fetch(_)));
    assert!(matches!(ask().found(found(true, Some(100))), Step::Fetch(_)));
    match ask().found(found(true, Some(99))) {
        Step::ReadDisk(read) => assert!(matches!(read.read(&mut state, None, 10), Step::Fetch(_))),
        _ => panic!("the disk is not read"),
    }
    match ask().found(found(true, Some(99))) {
        Step::ReadDisk(read) => {
            let step = read.read(&mut state, Some(b"disk".to_vec()), 10);
            assert_eq!(served(step).as_ref(), b"disk");
        }
        _ => panic!("the disk is not read"),
    }
    assert_eq!(served(get_live(&mut state, "us145", "towns.txt", 100, 10)).as_ref(), b"disk");
    probe(get_live(&mut state, "us145", "towns.txt", 100, 11));
}

#[test]
fn an_older_copy_does_not_replace_the_cached_one() {
    let mut state = AppState::new(None);
    let step = fetch(&mut state, "towns.txt", 0).fetched(&mut state, reply(b"new", None), 500, 0);
    write(step).written(&mut state, 0);
    let later = 2 * CACHE_EXPIRY;
    let step = fetch(&mut state, "towns.txt", later).fetched(&mut state, reply(b"old", None), 499, later);
    let writing = write(step);
    assert_eq!(writing.copy.last_modified, 500);
    assert_eq!(served(writing.written(&mut state, later)).as_ref(), b"new");
    let step = fetch(&mut state, "towns.txt", 2 * later).fetched(&mut state, reply(b"same time", None), 500, 0);
    assert_eq!(write(step).copy.data.as_ref(), b"same time");
}

#[test]
fn a_new_copy_is_stored_and_served() {
    let mut state = AppState::new(Some(PathBuf::from("archive")));
    let step = fetch(&mut state, "towns.txt", 0).fetched(&mut state, reply(b"1,a\n", None), 500, 0);
    let step = list_for_record(step).listed(&mut state, vec![], 1);
    let storing = store(step);
    assert_eq!(storing.new.lm, 500);
    assert_eq!(storing.new.hash, canonical_hash(b"1,a\n"));
    assert_eq!(storing.new.name, file_name(500, &canonical_hash(b"1,a\n")));
    let hash = canonical_hash(b"1,a\n");
    assert_eq!(storing.path(), format!("us145/towns.txt/500-{hash}.txt.gz"));
    assert_eq!(storing.temp_path(), format!("us145/towns.txt/.500-{hash}.txt.gz.tmp"));
    assert_eq!(storing.copy.target.archive_path(), "us145/towns.txt");
    let step = storing.stored(&mut state, Some(PathBuf::from("there")), 2);
    assert_eq!(served(write(step).written(&mut state, 3)).as_ref(), b"1,a\n");
    let listed = state.archive.as_ref().unwrap().versions("us145", "towns.txt", 4).unwrap();
    assert_eq!(listed.len(), 1);
    assert_eq!(listed[0].path, PathBuf::from("there"));
}

#[test]
fn a_copy_that_could_not_be_stored_is_served() {
    let mut state = AppState::new(Some(PathBuf::from("archive")));
    let step = fetch(&mut state, "towns.txt", 0).fetched(&mut state, reply(b"1,a\n", None), 500, 0);
    let step = list_for_record(step).listed(&mut state, vec![], 1);
    let step = store(step).stored(&mut state, None, 2);
    assert_eq!(served(write(step).written(&mut state, 3)).as_ref(), b"1,a\n");
    let listed = state.archive.as_ref().unwrap().versions("us145", "towns.txt", 4).unwrap();
    assert!(listed.is_empty());
}

#[test]
fn a_copy_that_the_archive_fails_to_take_is_served() {
    let mut state = AppState::new(Some(PathBuf::from("archive")));
    let step = fetch(&mut state, "towns.txt", 0).fetched(&mut state, reply(b"1,a\n", None), 500, 0);
    let copy = list_for_record(step).copy;
    let told = not_stored(copy.planned(vec![], Err(std::io::Error::other("full"))));
    assert_eq!(told.result.as_ref().unwrap_err().to_string(), "full");
    let step = list_for_newest(told.told(&state, 1)).listed(&mut state, vec![], 2);
    assert_eq!(served(write(step).written(&mut state, 3)).as_ref(), b"1,a\n");
}

#[test]
fn a_newer_archived_version_is_served() {
    let mut state = AppState::new(Some(PathBuf::from("archive")));
    let entries = || vec![entry(900, b"2,b\n"), entry(100, b"1,a\n")];
    let step = fetch(&mut state, "towns.txt", 0).fetched(&mut state, reply(b"1,a\n", None), 500, 0);
    let told = not_stored(list_for_record(step).listed(&mut state, entries(), 1));
    assert_eq!(told.result.as_ref().unwrap(), &RecordOutcome::Duplicate);
    let reading = read_newest(told.told(&state, 1));
    assert_eq!(reading.version.lm, 900);
    let step = reading.read(&state, Some(gzip(b"2,b\n").unwrap()));
    let writing = write(step);
    assert_eq!(writing.copy.last_modified, 900);
    assert_eq!(served(writing.written(&mut state, 2)).as_ref(), b"2,b\n");
}

fn damaged(state: &mut AppState, now: u128, gz: Option<Vec<u8>>) -> Step {
    let entries = vec![entry(900, b"2,b\n"), entry(100, b"1,a\n")];
    let step = fetch(state, "towns.txt", now).fetched(state, reply(b"1,a\n", None), 500, now);
    let told = not_stored(match step {
        Step::ListForRecord(ask) => ask.listed(state, entries, now),
        other => other,
    });
    read_newest(told.told(state, now)).read(state, gz)
}

#[test]
fn an_older_copy_is_not_served_for_a_damaged_version() {
    let mut state = AppState::new(Some(PathBuf::from("archive")));
    for gz in [None, Some(b"damaged".to_vec())] {
        assert_eq!(failed(damaged(&mut state, 0, gz)), Status::BadGateway);
    }
    probe(get_live(&mut state, "us145", "towns.txt", CACHE_EXPIRY, 1));
}

#[test]
fn a_cached_copy_is_served_for_a_damaged_version() {
    for (cached, served) in [(899, false), (900, true), (901, true)] {
        let mut state = AppState::new(Some(PathBuf::from("archive")));
        state.cache.put("us145/towns.txt", &Bytes::from_static(b"cached"), cached, 0, 0);
        match damaged(&mut state, CACHE_EXPIRY, None) {
            Step::WriteDisk(writing) => {
                assert!(served);
                assert_eq!(writing.copy.last_modified, cached);
                assert_eq!(writing.copy.data.as_ref(), b"cached");
            }
            other => {
                assert!(!served);
                assert_eq!(failed(other), Status::BadGateway);
            }
        }
    }
}

#[test]
fn a_repeated_copy_is_not_stored() {
    let mut state = AppState::new(Some(PathBuf::from("archive")));
    let step = fetch(&mut state, "islands.txt", 0).fetched(&mut state, reply(b"1,a\n", None), 500, 0);
    let told = not_stored(list_for_record(step).listed(&mut state, vec![entry(500, b"2,b\n")], 0));
    assert_eq!(told.result.as_ref().unwrap(), &RecordOutcome::Throttled);
    assert_eq!(write(told.told(&state, 0)).copy.data.as_ref(), b"1,a\n");
}

#[test]
fn a_copy_from_disk_stays_as_old_as_it_was() {
    let mut state = AppState::new(None);
    let second = 1_000_000_000;
    let found = Some(DiskFile { is_file: true, age: Some(800 * second) });
    let step = probe(get_live(&mut state, "us145", "towns.txt", CACHE_EXPIRY, 10 * second)).found(found);
    match step {
        Step::ReadDisk(read) => {
            read.read(&mut state, Some(b"disk".to_vec()), 10 * second);
        }
        _ => panic!("the disk is not read"),
    }
    probe(get_live(&mut state, "us145", "towns.txt", CAPTURE_MAX_AGE, 10 * second));
    let step = get_live(&mut state, "us145", "towns.txt", CACHE_EXPIRY, 109 * second);
    assert_eq!(served(step).as_ref(), b"disk");
    probe(get_live(&mut state, "us145", "towns.txt", CACHE_EXPIRY, 110 * second));
}

#[test]
fn an_expired_listing_is_renewed_before_the_newest_is_picked() {
    let mut state = AppState::new(Some(PathBuf::from("archive")));
    let step = fetch(&mut state, "towns.txt", 0).fetched(&mut state, reply(b"1,a\n", None), 500, 0);
    let storing = store(list_for_record(step).listed(&mut state, vec![], 1));
    let step = storing.stored(&mut state, None, CACHE_EXPIRY);
    let step = list_for_newest(step).listed(&mut state, vec![entry(501, b"2,b\n")], CACHE_EXPIRY);
    assert_eq!(read_newest(step).version.lm, 501);
}

#[test]
fn the_least_recently_used_file_makes_room() {
    let mut cache = RamCache::new();
    let data = Bytes::from_static(b"data");
    for i in 0..MAX_FILES_IN_RAM_CACHE {
        cache.put(&format!("{i}"), &data, 0, 0, 10 + i as u128);
    }
    // the first file was put in before all others, and is used after them
    assert!(cache.get("0", 1000, 50).is_some());
    cache.put("more", &data, 0, 0, 51);
    // files that are too old are not used by looking for them
    assert!(cache.get("1", 1, 52).is_none());
    assert!(cache.get("2", 1, 52).is_none());
    assert!(cache.get("0", 1000, 52).is_some());
    assert!(cache.get("1", 1000, 52).is_none());
    assert_eq!(cache.get("more", 1000, 52).unwrap().as_ref(), b"data");
    cache.put("yet more", &data, 0, 0, 53);
    assert!(cache.get("2", 1000, 54).is_none());
    assert!(cache.get("3", 1000, 54).is_some());
}

#[test]
fn a_file_that_is_there_needs_no_room() {
    let mut cache = RamCache::new();
    let data = Bytes::from_static(b"data");
    for i in 0..MAX_FILES_IN_RAM_CACHE {
        cache.put(&format!("{i}"), &data, 0, 0, 10 + i as u128);
    }
    cache.put("7", &Bytes::from_static(b"changed"), 0, 0, 50);
    for i in 0..MAX_FILES_IN_RAM_CACHE {
        let expected: &[u8] = if i == 7 { b"changed" } else { b"data" };
        assert_eq!(cache.get(&format!("{i}"), 1000, 51).unwrap().as_ref(), expected);
    }
}

#[test]
fn files_expire_and_the_newer_copy_wins() {
    let mut cache = RamCache::new();
    cache.put("a", &Bytes::from_static(b"cached"), 100, 3, 13);
    assert_eq!(cache.get("a", 5, 14).unwrap().as_ref(), b"cached");
    assert!(cache.get("a", 5, 15).is_none());
    assert!(cache.get("b", 5, 10).is_none());
    let (data, time) = cache.newer("a", Bytes::from_static(b"given"), 99);
    assert_eq!((data.as_ref(), time), (&b"cached"[..], 100));
    let (data, time) = cache.newer("a", Bytes::from_static(b"given"), 100);
    assert_eq!((data.as_ref(), time), (&b"given"[..], 100));
    let (data, time) = cache.newer("b", Bytes::from_static(b"given"), 0);
    assert_eq!((data.as_ref(), time), (&b"given"[..], 0));
}
