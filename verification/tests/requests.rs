use std::path::PathBuf;

use reflector::history::{handle_history, history_checked, HistoryStep};
use reflector::listing::DirEntry;
use reflector::live::Step;
use reflector::request::{capture_status, is_datafile, is_server, route_checked, Route, Status};
use reflector::serve::{capture_checked, handle_capture, handle_request, request_routed, RequestStep};
use reflector::snapshot::{snapshot_at, ReadSnapshot, SnapshotStep};
use reflector::state::{AppState, CACHE_EXPIRY, CAPTURE_MAX_AGE};
use reflector::text::{append_decimal, parse_u64, str_eq, to_hex};

fn entries(lms: &[u64]) -> Vec<DirEntry> {
    let mut entries = Vec::new();
    for lm in lms {
        let name = format!("{lm}-{lm:016}.txt.gz");
        entries.push(DirEntry {
            path: PathBuf::from(&name),
            name: Some(name),
        });
    }
    entries
}

fn read(step: SnapshotStep) -> ReadSnapshot {
    match step {
        SnapshotStep::Read(read) => read,
        _ => panic!("no version is read"),
    }
}

#[test]
fn servers_are_two_letters_and_some_digits() {
    for name in ["us1", "US14", "de145", "zZ009"] {
        assert!(is_server(name), "{name}");
    }
    for name in ["", "us", "u1", "us1234", "usa1", "1us", "us1a", "us145\n", " us145", "us-1", "\u{fc}s1"] {
        assert!(!is_server(name), "{name}");
    }
    // a digit is one in any script
    assert!(is_server("us\u{661}"));
}

#[test]
fn four_files_are_served() {
    for name in ["players.txt", "towns.txt", "alliances.txt", "islands.txt"] {
        assert!(is_datafile(name), "{name}");
    }
    for name in ["", "players", "Towns.txt", "towns.txt ", "../towns.txt"] {
        assert!(!is_datafile(name), "{name}");
    }
}

#[test]
fn requests_are_routed() {
    assert_eq!(route_checked(true, "towns.txt", None), Route::Live);
    assert_eq!(route_checked(true, "islands.txt", Some(0)), Route::Snapshot(0));
    assert_eq!(route_checked(true, "other.txt", None), Route::NotFound);
    assert_eq!(route_checked(false, "islands.txt", None), Route::NotFound);
}

#[test]
fn requests_begin_on_their_route() {
    let mut state = AppState::new(Some(PathBuf::from("archive")));
    match handle_request(&mut state, "us145", "towns.txt", None, 0) {
        RequestStep::Live(Step::ProbeDisk(probe)) => {
            assert_eq!(probe.target.key, "us145/towns.txt");
            assert_eq!(probe.target.max_age, CACHE_EXPIRY);
        }
        _ => panic!("the file is not served live"),
    }
    match handle_request(&mut state, "us145", "towns.txt", Some(7), 0) {
        RequestStep::Snapshot(SnapshotStep::List(ask)) => assert_eq!(ask.at, 7),
        _ => panic!("no snapshot is served"),
    }
    let step = handle_request(&mut state, "us145", "other.txt", None, 0);
    assert!(matches!(step, RequestStep::NotFound));
    let step = handle_request(&mut state, "us", "towns.txt", Some(7), 0);
    assert!(matches!(step, RequestStep::NotFound));
    let step = request_routed(Route::NotFound, &mut state, "us145", "towns.txt", 0);
    assert!(matches!(step, RequestStep::NotFound));
}

#[test]
fn captures_fetch_all_files() {
    let mut state = AppState::new(None);
    let mut keys = Vec::new();
    for captured in handle_capture(&mut state, "us145", 0).ok().unwrap() {
        match captured.step {
            Step::ProbeDisk(probe) => {
                assert_eq!(probe.target.datafile, captured.datafile);
                assert_eq!(probe.target.max_age, CAPTURE_MAX_AGE);
                keys.push(probe.target.key);
            }
            _ => panic!("the disk is not asked"),
        }
    }
    assert_eq!(
        keys,
        vec!["us145/players.txt", "us145/alliances.txt", "us145/towns.txt", "us145/islands.txt"]
    );
    assert_eq!(handle_capture(&mut state, "nowhere", 0).err(), Some(Status::NotFound));
    assert_eq!(capture_checked(false, &mut state, "us145", 0).err(), Some(Status::NotFound));
    assert_eq!(capture_checked(true, &mut state, "us145", 0).ok().unwrap().len(), 4);
}

#[test]
fn captures_use_only_young_copies() {
    let mut state = AppState::new(None);
    let data = bytes::Bytes::from_static(b"data");
    state.cache.put("us145/towns.txt", &data, 0, CAPTURE_MAX_AGE - 1, 0);
    state.cache.put("us145/players.txt", &data, 0, CAPTURE_MAX_AGE, 0);
    let steps = handle_capture(&mut state, "us145", 0).ok().unwrap();
    assert!(matches!(steps[0].step, Step::ProbeDisk(_)));
    assert!(matches!(steps[2].step, Step::Done(Ok(_))));
}

#[test]
fn captures_succeed_with_all_files() {
    assert_eq!(capture_status(&vec![true, true, true, true]), Status::NoContent);
    assert_eq!(capture_status(&vec![true, true, false, true]), Status::BadGateway);
    assert_eq!(capture_status(&vec![]), Status::NoContent);
}

#[test]
fn statuses_have_codes() {
    assert_eq!(Status::NoContent.code(), 204);
    assert_eq!(Status::NotFound.code(), 404);
    assert_eq!(Status::InternalServerError.code(), 500);
    assert_eq!(Status::BadGateway.code(), 502);
}

#[test]
fn snapshots_need_an_archive() {
    let state = AppState::new(None);
    let step = snapshot_at(&state, "us145", "towns.txt", 5, 0);
    assert!(matches!(step, SnapshotStep::Done(Err(Status::NotFound))));
}

#[test]
fn snapshots_are_served_as_they_are_stored() {
    let mut state = AppState::new(Some(PathBuf::from("archive")));
    let SnapshotStep::List(ask) = snapshot_at(&state, "us145", "towns.txt", 250, 0) else {
        panic!("the archive is not listed")
    };
    assert_eq!((ask.server.as_str(), ask.datafile.as_str()), ("us145", "towns.txt"));
    assert_eq!(ask.archive_path(), "us145/towns.txt");
    let reading = read(ask.listed(&mut state, entries(&[300, 100, 200]), 1));
    assert_eq!(reading.version.lm, 200);
    assert_eq!(reading.version.path, PathBuf::from("200-0000000000000200.txt.gz"));
    match reading.read(Some(vec![1, 2, 3])) {
        SnapshotStep::Done(Ok(gz)) => assert_eq!(gz, vec![1, 2, 3]),
        _ => panic!("nothing is served"),
    }
    // the listing is known now
    let reading = read(snapshot_at(&state, "us145", "towns.txt", 300, 2));
    assert_eq!(reading.version.lm, 300);
    assert!(matches!(
        reading.read(None),
        SnapshotStep::Done(Err(Status::InternalServerError))
    ));
    let step = snapshot_at(&state, "us145", "towns.txt", 99, 2);
    assert!(matches!(step, SnapshotStep::Done(Err(Status::NotFound))));
}

#[test]
fn islands_are_served_by_the_closest_version() {
    let mut state = AppState::new(Some(PathBuf::from("archive")));
    let SnapshotStep::List(ask) = snapshot_at(&state, "us145", "islands.txt", 190, 0) else {
        panic!("the archive is not listed")
    };
    assert_eq!(read(ask.listed(&mut state, entries(&[200, 100]), 1)).version.lm, 200);
    assert_eq!(read(snapshot_at(&state, "us145", "islands.txt", 110, 1)).version.lm, 100);
}

#[test]
fn early_islands_are_served_by_the_first_version() {
    let mut state = AppState::new(Some(PathBuf::from("archive")));
    let SnapshotStep::List(ask) = snapshot_at(&state, "us145", "islands.txt", 5, 0) else {
        panic!("the archive is not listed")
    };
    assert_eq!(read(ask.listed(&mut state, entries(&[300, 100]), 1)).version.lm, 100);
}

#[test]
fn history_needs_a_server_and_an_archive() {
    let bare = AppState::new(None);
    let archived = AppState::new(Some(PathBuf::from("archive")));
    for step in [
        handle_history(&bare, "us145", 0),
        handle_history(&archived, "nowhere", 0),
        history_checked(false, &archived, "us145", 0),
        history_checked(true, &bare, "us145", 0),
    ] {
        assert!(matches!(step, HistoryStep::Done(Err(Status::NotFound))));
    }
}

#[test]
fn history_lists_every_file_once() {
    let mut state = AppState::new(Some(PathBuf::from("archive")));
    let mut step = handle_history(&state, "us145", 0);
    let mut asked = Vec::new();
    let history = loop {
        step = match step {
            HistoryStep::List(ask) => {
                assert_eq!(ask.server(), "us145");
                let file = ask.file();
                asked.push(file);
                assert_eq!(ask.archive_path(), format!("us145/{file}"));
                let lms: &[u64] = if file == "islands.txt" { &[7] } else { &[1000, 5000] };
                ask.listed(&mut state, entries(lms), 1)
            }
            HistoryStep::Done(Ok(history)) => break history,
            HistoryStep::Done(Err(status)) => panic!("{status:?}"),
        };
    };
    assert_eq!(asked, vec!["players.txt", "alliances.txt", "towns.txt", "islands.txt"]);
    assert_eq!(history.server, "us145");
    assert_eq!(history.snapshots, vec![1000, 5000]);
    // all listings are known now
    match handle_history(&state, "us145", 2) {
        HistoryStep::Done(Ok(history)) => assert_eq!(history.snapshots, vec![1000, 5000]),
        _ => panic!("the archive is listed again"),
    }
}

#[test]
fn numbers_are_read_and_written() {
    assert_eq!(parse_u64("0"), Some(0));
    assert_eq!(parse_u64("+0012"), Some(12));
    assert_eq!(parse_u64("18446744073709551615"), Some(u64::MAX));
    assert_eq!(parse_u64("18446744073709551616"), None);
    assert_eq!(parse_u64(""), None);
    assert_eq!(parse_u64("+"), None);
    assert_eq!(parse_u64("-1"), None);
    assert_eq!(parse_u64("1 "), None);
    let mut text = "n=".to_owned();
    append_decimal(&mut text, 0);
    append_decimal(&mut text, u64::MAX);
    assert_eq!(text, "n=018446744073709551615");
    assert_eq!(to_hex(&[0, 9, 10, 255]), "00090aff");
    assert!(str_eq("a", "a"));
    assert!(!str_eq("a", "ab"));
}
