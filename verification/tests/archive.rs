use std::path::PathBuf;

use reflector::archive::{
    gzip, new_version, record_outcome, time_since, Archive, RecordOutcome, RecordPlan,
    ISLANDS_MIN_INTERVAL_SECS, LISTING_TTL,
};
use reflector::hash::{canonical_hash, shorten};
use reflector::listing::{list_versions, normalize, resolve_at, DirEntry, ISLANDS_FILE};
use reflector::rows::{canonicalize, split_rows};
use reflector::timeline::{timeline_points, CLUSTER_SECS};
use reflector::version::{file_name, file_path, parse_name, temp_name, version_path, Version};

fn v(lm: u64, hash: &str) -> Version {
    Version {
        lm,
        hash: hash.to_owned(),
        path: PathBuf::new(),
    }
}

// 2026-09-11 05:13:01 / 05:13:02 / 05:22:01 UTC, as served by the two us145 nodes
const T0513_01: u64 = 1_789_103_581;
const T0513_02: u64 = 1_789_103_582;
const T0522_01: u64 = 1_789_104_121;

/// The directories of an archive, in memory.
struct Disk {
    objects: Vec<(PathBuf, String, Vec<u8>)>,
}

impl Disk {
    fn list(&self, dir: &PathBuf) -> Vec<DirEntry> {
        let mut entries = Vec::new();
        for (parent, name, _) in &self.objects {
            if parent == dir {
                entries.push(DirEntry {
                    name: Some(name.clone()),
                    path: parent.join(name),
                });
            }
        }
        entries
    }

    fn read(&self, path: &PathBuf) -> Vec<u8> {
        for (parent, name, data) in &self.objects {
            if &parent.join(name) == path {
                return data.clone();
            }
        }
        panic!("{path:?} is not there")
    }
}

fn versions(archive: &mut Archive, disk: &Disk, server: &str, file: &str) -> Vec<Version> {
    match archive.versions(server, file, 0) {
        Some(list) => list,
        None => {
            let dir = archive.dir().join(server).join(file);
            archive.refresh(server, file, 0, disk.list(&dir))
        }
    }
}

fn record(
    archive: &mut Archive,
    disk: &mut Disk,
    server: &str,
    file: &str,
    lm: u64,
    data: &[u8],
) -> RecordOutcome {
    let existing = versions(archive, disk, server, file);
    match Archive::record(file, lm, data, &existing).unwrap() {
        RecordPlan::Skip(outcome) => outcome,
        RecordPlan::Store(new) => {
            let dir = archive.dir().join(server).join(file);
            let path = dir.join(&new.name);
            disk.objects.push((dir, new.name, new.gz));
            let version = Version {
                lm: new.lm,
                hash: new.hash,
                path,
            };
            archive.commit(server, file, 0, existing, version);
            RecordOutcome::Stored
        }
    }
}

#[test]
fn hash_ignores_row_order() {
    assert_eq!(
        canonical_hash(b"1873947,TomOmbre,202,330,304,1\n848978981,Ramon,,441,302,1\n"),
        canonical_hash(b"848978981,Ramon,,441,302,1\n1873947,TomOmbre,202,330,304,1")
    );
}

#[test]
fn hash_detects_changed_row() {
    assert_ne!(
        canonical_hash(b"1330,848965218,55.The+Run,596,506,0,8631\n"),
        canonical_hash(b"1330,848965218,55.The+Run,596,506,0,8665\n")
    );
}

#[test]
fn parses_only_well_formed_names() {
    assert_eq!(
        parse_name("1789103581-0123456789abcdef.txt.gz"),
        Some((T0513_01, "0123456789abcdef".to_owned()))
    );
    assert_eq!(parse_name(".1789103581-0123456789abcdef.txt.gz.tmp"), None);
    assert_eq!(parse_name("1789103581-short.txt.gz"), None);
    assert_eq!(parse_name("notanumber-0123456789abcdef.txt.gz"), None);
}

#[test]
fn normalize_keeps_earliest_of_duplicate_content() {
    let versions = normalize(vec![v(T0522_01, "aa"), v(T0513_01, "aa"), v(T0513_02, "bb")]);
    assert_eq!(versions, vec![v(T0513_01, "aa"), v(T0513_02, "bb")]);
}

#[test]
fn timeline_clusters_one_nodes_files_into_one_point() {
    let players = vec![v(T0513_01, "p1")];
    let alliances = vec![v(T0513_01, "a1"), v(T0522_01, "a2")];
    let towns = vec![v(T0513_02, "t1"), v(T0522_01, "t2")];
    assert_eq!(
        timeline_points(&[players, alliances, towns], true),
        vec![T0513_02, T0522_01]
    );
}

#[test]
fn timeline_needs_every_file_and_islands() {
    let players = vec![v(T0522_01, "p1")];
    let alliances = vec![v(T0513_01, "a1")];
    let towns = vec![v(T0513_02, "t1")];
    let per_file = [players, alliances, towns];
    assert_eq!(timeline_points(&per_file, true), vec![T0522_01]);
    assert!(timeline_points(&per_file, false).is_empty());
}

#[test]
fn at_resolves_newest_version_not_after_t() {
    let towns = vec![v(T0513_02, "t1"), v(T0522_01, "t2")];
    assert_eq!(resolve_at(&towns, "towns.txt", T0522_01 - 1).unwrap().hash, "t1");
    assert_eq!(resolve_at(&towns, "towns.txt", T0522_01).unwrap().hash, "t2");
    assert_eq!(resolve_at(&towns, "towns.txt", T0513_01), None);
    let islands = vec![v(T0522_01, "i1")];
    assert_eq!(resolve_at(&islands, ISLANDS_FILE, T0513_01).unwrap().hash, "i1");
}

#[test]
fn record_dedupes_throttles_and_round_trips() {
    let dir = PathBuf::from("reflector-archive-test");
    let mut disk = Disk { objects: Vec::new() };
    let mut archive = Archive::new(dir.clone());

    let first = b"1,a,0\n2,b,0\n";
    let reordered = b"2,b,0\n1,a,0\n";
    let changed = b"1,a,0\n2,b,5\n";
    assert_eq!(record(&mut archive, &mut disk, "us145", "towns.txt", T0513_02, first), RecordOutcome::Stored);
    assert_eq!(record(&mut archive, &mut disk, "us145", "towns.txt", T0522_01, reordered), RecordOutcome::Duplicate);
    assert_eq!(record(&mut archive, &mut disk, "us145", "towns.txt", T0522_01, changed), RecordOutcome::Stored);

    let newest = Archive::newest(versions(&mut archive, &disk, "us145", "towns.txt")).unwrap();
    assert_eq!(newest.lm, T0522_01);
    assert_eq!(Archive::read_plain(&disk.read(&newest.path)).unwrap().as_ref(), changed);
    let older = Archive::at(&versions(&mut archive, &disk, "us145", "towns.txt"), "towns.txt", T0522_01 - 1).unwrap();
    assert_eq!(Archive::read_plain(&disk.read(&older.path)).unwrap().as_ref(), first);

    let day = ISLANDS_MIN_INTERVAL_SECS;
    assert_eq!(record(&mut archive, &mut disk, "us145", ISLANDS_FILE, T0513_02, b"1,0,18,1,20,iron,wood\n"), RecordOutcome::Stored);
    assert_eq!(record(&mut archive, &mut disk, "us145", ISLANDS_FILE, T0513_02 + 3600, b"1,0,18,1,19,iron,wood\n"), RecordOutcome::Throttled);
    assert_eq!(record(&mut archive, &mut disk, "us145", ISLANDS_FILE, T0513_02 + day, b"1,0,18,1,19,iron,wood\n"), RecordOutcome::Stored);

    // a fresh Archive (e.g. another instance) sees the same versions on disk
    let mut other = Archive::new(dir.clone());
    assert_eq!(versions(&mut other, &disk, "us145", "towns.txt").len(), 2);
    assert_eq!(versions(&mut other, &disk, "us145", ISLANDS_FILE).len(), 2);
    assert_eq!(
        versions(&mut other, &disk, "us145", "towns.txt"),
        versions(&mut archive, &disk, "us145", "towns.txt")
    );
}

#[test]
fn hash_is_the_start_of_the_digest_of_the_sorted_rows() {
    assert_eq!(canonical_hash(b""), "e3b0c44298fc1c14");
    assert_eq!(canonical_hash(b"\r\n\n"), "e3b0c44298fc1c14");
    assert_eq!(canonical_hash(b"a"), "87428fc522803d31");
    assert_eq!(canonical_hash(b"2,b,0\r\n\n1,a,0"), "9011e7bf7c45e22b");
    assert_eq!(shorten(&vec![0, 1, 15, 16, 127, 128, 254, 255, 9]), "00010f107f80feff");
}

#[test]
fn hash_counts_rows_that_occur_twice() {
    assert_ne!(canonical_hash(b"a\na\n"), canonical_hash(b"a\n"));
}

#[test]
fn rows_end_with_a_line_feed_or_both() {
    let expected: Vec<&[u8]> = vec![b"b", b"a", b"c\r"];
    assert_eq!(split_rows(b"b\r\n\r\n\na\nc\r\r\n"), expected);
    assert_eq!(canonicalize(b"b\r\n\r\n\na\nc\r\r\n"), b"a\nb\nc\r\n".to_vec());
    assert!(split_rows(b"").is_empty());
}

#[test]
fn rows_are_sorted_by_their_bytes() {
    assert_eq!(canonicalize(b"b\n\xff\nab\na\n10\n9"), b"10\n9\na\nab\nb\n\xff\n".to_vec());
}

#[test]
fn names_are_parsed_as_they_are_written() {
    let name = file_name(T0513_01, "0123456789abcdef");
    assert_eq!(name, "1789103581-0123456789abcdef.txt.gz");
    assert_eq!(parse_name(&name), Some((T0513_01, "0123456789abcdef".to_owned())));
    assert_eq!(temp_name(&name), ".1789103581-0123456789abcdef.txt.gz.tmp");
    assert_eq!(parse_name(&temp_name(&name)), None);
    let last = file_name(u64::MAX, "0000000000000000");
    assert_eq!(last, "18446744073709551615-0000000000000000.txt.gz");
    assert_eq!(parse_name(&last), Some((u64::MAX, "0000000000000000".to_owned())));
}

#[test]
fn versions_lie_under_their_server_and_file() {
    assert_eq!(file_path("us145", "towns.txt"), "us145/towns.txt");
    assert_eq!(
        version_path("us145", "towns.txt", "7-0123456789abcdef.txt.gz"),
        "us145/towns.txt/7-0123456789abcdef.txt.gz"
    );
    assert_ne!(version_path("us1", "45", "x"), version_path("us", "145", "x"));
}

#[test]
fn odd_names_are_parsed_or_refused() {
    assert_eq!(
        parse_name("+007-0123456789ABCdef.txt.gz"),
        Some((7, "0123456789ABCdef".to_owned()))
    );
    assert_eq!(parse_name("18446744073709551616-0123456789abcdef.txt.gz"), None);
    assert_eq!(parse_name("-0123456789abcdef.txt.gz"), None);
    assert_eq!(parse_name("+-0123456789abcdef.txt.gz"), None);
    assert_eq!(parse_name("1-2-0123456789abcdef.txt.gz"), None);
    assert_eq!(parse_name("1-0123456789abcdeg.txt.gz"), None);
    assert_eq!(parse_name("1-0123456789abcdef.txt"), None);
    assert_eq!(parse_name("1-0123456789abcd\u{e9}.txt.gz"), None);
    assert_eq!(parse_name(""), None);
}

#[test]
fn listing_passes_over_what_is_no_version() {
    let entry = |name: Option<&str>, path: &str| DirEntry {
        name: name.map(str::to_owned),
        path: PathBuf::from(path),
    };
    let list = list_versions(vec![
        entry(Some("20-00000000000000bb.txt.gz"), "b"),
        entry(None, "unnamed"),
        entry(Some(".30-00000000000000cc.txt.gz.tmp"), "half"),
        entry(Some("30-00000000000000bb.txt.gz"), "late"),
        entry(Some("10-00000000000000aa.txt.gz"), "a"),
    ]);
    assert_eq!(list.len(), 2);
    assert_eq!((list[0].lm, list[0].path.clone()), (10, PathBuf::from("a")));
    assert_eq!((list[1].lm, list[1].path.clone()), (20, PathBuf::from("b")));
}

#[test]
fn equal_times_are_listed_by_hash() {
    assert_eq!(
        normalize(vec![v(5, "b"), v(5, "B"), v(5, "a"), v(4, "c")]),
        vec![v(4, "c"), v(5, "B"), v(5, "a"), v(5, "b")]
    );
    assert!(normalize(vec![]).is_empty());
}

#[test]
fn the_first_of_equal_versions_is_listed() {
    let mut first = v(5, "a");
    first.path = PathBuf::from("first");
    let mut second = v(5, "a");
    second.path = PathBuf::from("second");
    assert_eq!(normalize(vec![first.clone(), second]), vec![first]);
}

#[test]
fn listing_again_changes_nothing() {
    let list = normalize(vec![v(9, "x"), v(3, "y"), v(7, "x"), v(3, "z")]);
    assert_eq!(normalize(list.clone()), list);
}

#[test]
fn resolving_without_versions_gives_none() {
    assert_eq!(resolve_at(&[], "towns.txt", 5), None);
    assert_eq!(resolve_at(&[], ISLANDS_FILE, 5), None);
    let islands = vec![v(5, "i1"), v(8, "i2")];
    assert_eq!(resolve_at(&islands, ISLANDS_FILE, 1).unwrap().hash, "i1");
    assert_eq!(resolve_at(&islands, ISLANDS_FILE, 9).unwrap().hash, "i2");
}

#[test]
fn islands_resolve_to_the_closest_version() {
    let islands = vec![v(100, "i1"), v(200, "i2"), v(200, "i3"), v(300, "i4")];
    let at = |t: u64| resolve_at(&islands, ISLANDS_FILE, t).unwrap().hash.clone();
    assert_eq!(at(0), "i1");
    assert_eq!(at(149), "i1");
    assert_eq!(at(150), "i1");
    assert_eq!(at(151), "i2");
    assert_eq!(at(190), "i2");
    assert_eq!(at(200), "i3");
    assert_eq!(at(250), "i3");
    assert_eq!(at(251), "i4");
    assert_eq!(at(u64::MAX), "i4");
    assert_eq!(resolve_at(&islands, "towns.txt", 190).unwrap().hash, "i1");
}

#[test]
fn islands_stay_a_day_apart() {
    let day = ISLANDS_MIN_INTERVAL_SECS;
    let mut disk = Disk { objects: Vec::new() };
    let mut archive = Archive::new(PathBuf::from("archive"));
    for (lm, row) in [(5 * day, "a"), (9, "b"), (6 * day - 1, "c"), (6 * day, "d"), (8 * day, "a"), (8 * day, "e")] {
        record(&mut archive, &mut disk, "us145", ISLANDS_FILE, lm, row.as_bytes());
    }
    let lms: Vec<u64> = versions(&mut archive, &disk, "us145", ISLANDS_FILE).iter().map(|v| v.lm).collect();
    assert_eq!(lms, vec![5 * day, 6 * day, 8 * day]);
}

#[test]
fn clusters_are_measured_from_their_beginning() {
    let list = vec![v(1000, "a"), v(1000 + CLUSTER_SECS, "b"), v(1001 + CLUSTER_SECS, "c")];
    assert_eq!(
        timeline_points(&[list], true),
        vec![1000 + CLUSTER_SECS, 1001 + CLUSTER_SECS]
    );
    assert!(timeline_points(&[], true).is_empty());
}

#[test]
fn timeline_covers_what_every_file_reaches() {
    let players = vec![v(100, "p1"), v(5000, "p2")];
    let towns = vec![v(1000, "t1"), v(9000, "t2")];
    assert_eq!(timeline_points(&[players, towns], true), vec![1000, 5000, 9000]);
}

#[test]
fn timeline_takes_the_islands_from_their_listing() {
    let list = vec![v(100, "p1")];
    assert_eq!(Archive::timeline(&[list.clone()], &vec![v(7, "i1")]), vec![100]);
    assert!(Archive::timeline(&[list], &vec![]).is_empty());
}

#[test]
fn outcomes_follow_the_content_and_for_islands_the_time() {
    let existing = vec![v(1000, "aa"), v(2000, "bb")];
    assert_eq!(record_outcome(&existing, "towns.txt", 5, "bb"), RecordOutcome::Duplicate);
    assert_eq!(record_outcome(&existing, "towns.txt", 5, "cc"), RecordOutcome::Stored);
    assert_eq!(record_outcome(&existing, ISLANDS_FILE, 5, "aa"), RecordOutcome::Duplicate);
    assert_eq!(record_outcome(&existing, ISLANDS_FILE, 5, "cc"), RecordOutcome::Throttled);
    let day = ISLANDS_MIN_INTERVAL_SECS;
    assert_eq!(record_outcome(&existing, ISLANDS_FILE, 1999 + day, "cc"), RecordOutcome::Throttled);
    assert_eq!(record_outcome(&existing, ISLANDS_FILE, 2000 + day, "cc"), RecordOutcome::Stored);
    assert_eq!(record_outcome(&vec![], ISLANDS_FILE, 5, "cc"), RecordOutcome::Stored);
}

#[test]
fn gzip_is_undone_by_reading() {
    let data = b"1,a,0\n1,a,0\n1,a,0\n1,a,0\n";
    let gz = gzip(data).unwrap();
    assert_eq!(gz[..2], [0x1f, 0x8b]);
    assert_eq!(Archive::read_plain(&gz).unwrap().as_ref(), data);
    assert_eq!(Archive::read_plain(&gzip(b"").unwrap()).unwrap().as_ref(), b"");
}

#[test]
fn damaged_versions_are_not_read() {
    let gz = gzip(b"1,a,0\n").unwrap();
    assert!(Archive::read_plain(b"not gzip").is_err());
    assert!(Archive::read_plain(&gz[..gz.len() - 1]).is_err());
    assert!(Archive::read_plain(b"").is_err());
}

#[test]
fn a_copy_that_cannot_be_compressed_is_refused() {
    let failed = Err(std::io::Error::other("full"));
    assert_eq!(new_version(7, "aa".to_owned(), failed).err().unwrap().to_string(), "full");
    let new = new_version(7, "aa".to_owned(), Ok(vec![1, 2])).unwrap();
    assert_eq!(new.lm, 7);
    assert_eq!(new.hash, "aa");
    assert_eq!(new.name, "7-aa.txt.gz");
    assert_eq!(new.temp_name, ".7-aa.txt.gz.tmp");
    assert_eq!(new.gz, vec![1, 2]);
}

#[test]
fn listings_are_used_for_a_minute() {
    let mut archive = Archive::new(PathBuf::from("archive"));
    assert_eq!(archive.dir(), &PathBuf::from("archive"));
    assert_eq!(archive.versions("us1", "towns.txt", 10), None);
    let entries = vec![DirEntry {
        name: Some("20-00000000000000bb.txt.gz".to_owned()),
        path: PathBuf::from("b"),
    }];
    let list = archive.refresh("us1", "towns.txt", 10, entries);
    assert_eq!(list.len(), 1);
    assert_eq!(archive.versions("us1", "towns.txt", 9 + LISTING_TTL), Some(list));
    assert_eq!(archive.versions("us1", "towns.txt", 10 + LISTING_TTL), None);
    assert_eq!(archive.versions("us1", "players.txt", 10), None);
    assert_eq!(archive.versions("us", "1towns.txt", 10), None);
}

#[test]
fn time_does_not_run_backwards() {
    assert_eq!(time_since(3, 10), 7);
    assert_eq!(time_since(10, 3), 0);
}
