//! How an archived version is served.
//!
//! As in [`crate::live`], each step asks for one piece of work outside, and is answered by its
//! method.

use vstd::prelude::*;

use crate::archive::{Archive, ListingView};
use crate::listing::{
    found_in, is_listing, is_listing_of, law_no_version_stands_for_no_time,
    law_resolved_is_newest_not_after, law_version_stands_for_a_time, resolved, DirEntry,
};
use crate::request::Status;
use crate::state::AppState;
use crate::timeline::{law_timeline_points_can_be_shown, timeline};
use crate::version::{file_location, file_path, views, Version, VersionView};

verus! {

/// Asks for a listing of the archived versions.
pub struct ListSnapshot {
    pub server: String,
    pub datafile: String,
    pub at: u64,
}

/// Asks for the stored bytes of a version.
pub struct ReadSnapshot {
    pub version: Version,
}

/// What is to be done next to serve an archived version.
pub enum SnapshotStep {
    List(ListSnapshot),
    Read(ReadSnapshot),
    /// The stored bytes to serve, or the failure to report.
    Done(Result<Vec<u8>, Status>),
}

pub open spec fn is_not_found(step: SnapshotStep) -> bool {
    step matches SnapshotStep::Done(Err(status)) && status == Status::NotFound
}

/// `step` reads the version that stands for the time `at`, if there is one.
pub open spec fn reads_resolved(
    list: Seq<VersionView>,
    datafile: Seq<char>,
    at: u64,
    step: SnapshotStep,
) -> bool {
    match resolved(list, datafile, at) {
        Some(i) => step matches SnapshotStep::Read(read) && read.version@ == list[i],
        None => is_not_found(step),
    }
}

/// `step` is the first step to serve the version that stands for the time `at`.
pub open spec fn begins_snapshot(
    state: AppState,
    server: Seq<char>,
    datafile: Seq<char>,
    at: u64,
    now: u128,
    step: SnapshotStep,
) -> bool {
    match state.archive {
        Some(archive) => match archive.fresh(server, datafile, now) {
            Some(list) => reads_resolved(list, datafile, at, step),
            None => {
                &&& step matches SnapshotStep::List(ask)
                &&& ask.server@ == server
                &&& ask.datafile@ == datafile
                &&& ask.at == at
            },
        },
        None => is_not_found(step),
    }
}

/// A snapshot of a file other than the islands is not found only where every version is after the
/// time. Otherwise the version that is read is one from the list that is not after the time, and
/// none that is not after it is newer.
pub proof fn law_snapshot_is_the_newest_not_after(
    list: Seq<VersionView>,
    datafile: Seq<char>,
    at: u64,
    step: SnapshotStep,
    j: int,
)
    requires
        is_listing(list),
        datafile != "islands.txt"@,
        reads_resolved(list, datafile, at, step),
        0 <= j < list.len(),
        list[j].lm <= at,
    ensures
        step matches SnapshotStep::Read(read) && list.contains(read.version@) && list[j].lm
            <= read.version.lm <= at,
{
    law_version_stands_for_a_time(list, datafile, at, j);
    law_resolved_is_newest_not_after(list, datafile, at);
}

/// A snapshot of the islands is read wherever there is a version, from one of those that are
/// closest to the time.
pub proof fn law_snapshot_of_islands_is_the_closest(
    list: Seq<VersionView>,
    at: u64,
    step: SnapshotStep,
    j: int,
)
    requires
        reads_resolved(list, "islands.txt"@, at, step),
        0 <= j < list.len(),
    ensures
        ({
            &&& step matches SnapshotStep::Read(read)
            &&& list.contains(read.version@)
            &&& list[j].lm <= at ==> at - list[j].lm >= read.version.lm - at && at - list[j].lm
                >= at - read.version.lm
            &&& at <= list[j].lm ==> list[j].lm - at >= read.version.lm - at && list[j].lm - at
                >= at - read.version.lm
        }),
{
    law_version_stands_for_a_time(list, "islands.txt"@, at, j);
}

/// A snapshot is not found where there is no version, or, of a file other than the islands, none
/// that is not after the time.
pub proof fn law_snapshot_before_all_versions_is_not_found(
    list: Seq<VersionView>,
    datafile: Seq<char>,
    at: u64,
    step: SnapshotStep,
)
    requires
        reads_resolved(list, datafile, at, step),
        list.len() == 0 || datafile != "islands.txt"@ && forall|j: int|
            0 <= j < list.len() ==> at < (#[trigger] list[j]).lm,
    ensures
        step == SnapshotStep::Done(Err(Status::NotFound)),
{
    if list.len() == 0 {
        law_no_version_stands_for_no_time(list, datafile, at);
    } else {
        law_version_stands_for_a_time(list, datafile, at, 0);
        match resolved(list, datafile, at) {
            Some(i) => {
                assert(at < list[i].lm);
            },
            None => {},
        }
    }
}

/// Every file can be read at every point of the timeline.
pub proof fn law_every_file_is_read_at_every_point(
    lists: Seq<Seq<VersionView>>,
    islands: Seq<VersionView>,
    k: int,
    f: int,
    datafile: Seq<char>,
    step: SnapshotStep,
    islands_step: SnapshotStep,
)
    requires
        0 <= k < timeline(lists, islands.len() > 0).len(),
        0 <= f < lists.len(),
        reads_resolved(lists[f], datafile, timeline(lists, islands.len() > 0)[k], step),
        reads_resolved(
            islands,
            "islands.txt"@,
            timeline(lists, islands.len() > 0)[k],
            islands_step,
        ),
    ensures
        step is Read,
        islands_step is Read,
{
    law_timeline_points_can_be_shown(lists, islands, datafile, k, f);
}

/// How serving a snapshot begins: without an archive it is not found; with one, the versions are
/// taken as they were listed less than a minute ago, or else listed again.
pub proof fn law_snapshot_begins_with_the_listing(
    state: AppState,
    server: Seq<char>,
    datafile: Seq<char>,
    at: u64,
    now: u128,
    step: SnapshotStep,
)
    requires
        begins_snapshot(state, server, datafile, at, now, step),
    ensures
        state.archive is None ==> step == SnapshotStep::Done(Err(Status::NotFound)),
        state.archive matches Some(archive) ==> {
            let listing = archive.listing(server, datafile);
            if listing is Some && now - listing->0.listed_at < 60_000_000_000 {
                reads_resolved(listing->0.versions, datafile, at, step)
            } else {
                &&& step matches SnapshotStep::List(ask)
                &&& ask.server@ == server
                &&& ask.datafile@ == datafile
                &&& ask.at == at
            }
        },
{
}

fn read_resolved(list: &Vec<Version>, datafile: &str, at: u64) -> (step: SnapshotStep)
    ensures
        reads_resolved(views(list@), datafile@, at, step),
{
    match Archive::at(list, datafile, at) {
        Some(version) => SnapshotStep::Read(ReadSnapshot { version }),
        None => SnapshotStep::Done(Err(Status::NotFound)),
    }
}

/// The first step to serve the version that stands for the time `at`, in unix seconds.
pub fn snapshot_at(state: &AppState, server: &str, datafile: &str, at: u64, now: u128) -> (step:
    SnapshotStep)
    requires
        state.wf(),
    ensures
        begins_snapshot(*state, server@, datafile@, at, now, step),
{
    match &state.archive {
        Some(archive) => match archive.versions(server, datafile, now) {
            Some(list) => read_resolved(&list, datafile, at),
            None => SnapshotStep::List(
                ListSnapshot { server: server.to_owned(), datafile: datafile.to_owned(), at },
            ),
        },
        None => SnapshotStep::Done(Err(Status::NotFound)),
    }
}

impl ListSnapshot {
    /// Where the archived versions lie, below the directory of the archive.
    pub fn archive_path(&self) -> (path: String)
        ensures
            path@ == file_location(self.server@, self.datafile@),
    {
        file_path(self.server.as_str(), self.datafile.as_str())
    }

    /// What is in the archive's directory for the file.
    pub fn listed(self, state: &mut AppState, entries: Vec<DirEntry>, now: u128) -> (step:
        SnapshotStep)
        requires
            old(state).wf(),
        ensures
            final(state).wf(),
            final(state).cache == old(state).cache,
            final(state).failed_cache == old(state).failed_cache,
            match old(state).archive {
                Some(before) => {
                    &&& final(state).archive matches Some(after)
                    &&& exists|list: Seq<VersionView>| #[trigger]
                        is_listing_of(found_in(entries@), list) && after.is_updated(
                            &before,
                            self.server@,
                            self.datafile@,
                            (ListingView { listed_at: now, versions: list }),
                        ) && reads_resolved(list, self.datafile@, self.at, step)
                },
                None => final(state).archive is None && is_not_found(step),
            },
    {
        match &mut state.archive {
            Some(archive) => {
                let list = archive.refresh(
                    self.server.as_str(),
                    self.datafile.as_str(),
                    now,
                    entries,
                );
                assert(is_listing_of(found_in(entries@), views(list@)));
                read_resolved(&list, self.datafile.as_str(), self.at)
            },
            None => SnapshotStep::Done(Err(Status::NotFound)),
        }
    }
}

impl ReadSnapshot {
    /// The stored bytes, if they could be read. They are served as they are; the stored gzip
    /// becomes the response's content encoding.
    pub fn read(self, gz: Option<Vec<u8>>) -> (step: SnapshotStep)
        ensures
            match gz {
                Some(gz) => step == SnapshotStep::Done(Ok(gz)),
                None => step == SnapshotStep::Done(Err(Status::InternalServerError)),
            },
    {
        match gz {
            Some(gz) => SnapshotStep::Done(Ok(gz)),
            None => SnapshotStep::Done(Err(Status::InternalServerError)),
        }
    }
}

} // verus!
