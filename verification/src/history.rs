//! How the timeline of a server is found.
//!
//! As in [`crate::live`], each step asks for one piece of work outside, and is answered by its
//! method.

use vstd::prelude::*;

use crate::archive::{Archive, ListingView, TIMELINE_FILES};
use crate::listing::{found_in, is_listing_of, DirEntry, ISLANDS_FILE};
use crate::request::{is_server, is_server_name, Status};
use crate::state::AppState;
use crate::timeline::{list_views, timeline};
use crate::version::{file_location, file_path, views, Version, VersionView};

verus! {

/// The points in time at which the files of a server can be shown.
pub struct History {
    pub server: String,
    pub snapshots: Vec<u64>,
}

/// How many files have to be listed to find a timeline.
pub const HISTORY_FILES: usize = 4;

/// The files that have to be listed to find a timeline, the islands last.
pub open spec fn history_file(i: int) -> Seq<char> {
    if 0 <= i < 3 {
        TIMELINE_FILES@[i]@
    } else {
        ISLANDS_FILE@
    }
}

/// Asks for a listing of the archived versions of the next file.
pub struct ListHistory {
    server: String,
    lists: Vec<Vec<Version>>,
}

/// What is to be done next to find a timeline.
pub enum HistoryStep {
    List(ListHistory),
    Done(Result<History, Status>),
}

/// The lists of versions that can be had without listing a directory, after those in `lists`.
pub open spec fn gathered(
    archive: Archive,
    server: Seq<char>,
    lists: Seq<Seq<VersionView>>,
    now: u128,
) -> Seq<Seq<VersionView>>
    decreases HISTORY_FILES - lists.len(),
{
    if lists.len() >= HISTORY_FILES {
        lists
    } else {
        match archive.fresh(server, history_file(lists.len() as int), now) {
            Some(list) => gathered(archive, server, lists.push(list), now),
            None => lists,
        }
    }
}

/// `step` is the timeline that follows from the lists, if they are complete, and otherwise asks
/// for the next.
pub open spec fn continues_with(
    server: Seq<char>,
    lists: Seq<Seq<VersionView>>,
    step: HistoryStep,
) -> bool {
    if lists.len() >= HISTORY_FILES {
        &&& step matches HistoryStep::Done(Ok(history))
        &&& history.server@ == server
        &&& history.snapshots@ == timeline(lists.take(3), lists[3].len() > 0)
    } else {
        &&& step matches HistoryStep::List(ask)
        &&& ask.for_server() == server
        &&& ask.have() == lists
    }
}

pub open spec fn has_no_history(step: HistoryStep) -> bool {
    step matches HistoryStep::Done(Err(status)) && status == Status::NotFound
}

/// The files of a history, in the order in which they are listed.
pub proof fn law_history_is_of_four_files()
    ensures
        history_file(0) == "players.txt"@,
        history_file(1) == "alliances.txt"@,
        history_file(2) == "towns.txt"@,
        history_file(3) == "islands.txt"@,
{
}

/// What is gathered begins with what was there. Each further list is that of the file whose turn it
/// is, listed less than a minute ago, and it goes on until all four are there or the next was not.
pub proof fn law_lists_are_gathered_in_turn(
    archive: Archive,
    server: Seq<char>,
    lists: Seq<Seq<VersionView>>,
    now: u128,
    k: int,
)
    requires
        lists.len() <= 4,
    ensures
        ({
            let all = gathered(archive, server, lists, now);
            &&& lists.len() <= all.len() <= 4
            &&& all.take(lists.len() as int) == lists
            &&& lists.len() <= k < all.len() ==> {
                &&& archive.listing(server, history_file(k)) matches Some(listing)
                &&& listing.versions == all[k]
                &&& now - listing.listed_at < 60_000_000_000
            }
            &&& all.len() < 4 ==> {
                archive.listing(server, history_file(all.len() as int)) matches Some(listing)
                    ==> now - listing.listed_at >= 60_000_000_000
            }
        }),
    decreases 4 - lists.len(),
{
    assert(lists.take(lists.len() as int) =~= lists);
    if lists.len() < 4 {
        match archive.fresh(server, history_file(lists.len() as int), now) {
            Some(list) => {
                let more = lists.push(list);
                law_lists_are_gathered_in_turn(archive, server, more, now, k);
                let all = gathered(archive, server, more, now);
                assert(all.take(more.len() as int).take(lists.len() as int) =~= all.take(
                    lists.len() as int,
                ));
                assert(more.take(lists.len() as int) =~= lists);
                assert(all[lists.len() as int] == all.take(more.len() as int)[lists.len() as int]);
            },
            None => {},
        }
    }
}

/// With the lists of all four files, the history is the timeline of the first three, as far as
/// there are islands. With fewer, the next one is asked for, and those that are there are kept.
pub proof fn law_history_is_the_timeline_of_the_server(
    server: Seq<char>,
    lists: Seq<Seq<VersionView>>,
    step: HistoryStep,
)
    requires
        lists.len() <= 4,
        continues_with(server, lists, step),
    ensures
        lists.len() == 4 ==> {
            &&& step matches HistoryStep::Done(Ok(history))
            &&& history.server@ == server
            &&& history.snapshots@ == timeline(
                seq![lists[0], lists[1], lists[2]],
                lists[3].len() > 0,
            )
        },
        lists.len() < 4 ==> {
            &&& step matches HistoryStep::List(ask)
            &&& ask.for_server() == server
            &&& ask.have() == lists
        },
{
    if lists.len() == 4 {
        assert(lists.take(3) =~= seq![lists[0], lists[1], lists[2]]);
    }
}

/// Where there is no history, it is not found.
pub proof fn law_no_history_is_not_found(step: HistoryStep)
    requires
        has_no_history(step),
    ensures
        step == HistoryStep::Done(Err(Status::NotFound)),
{
}

/// The name of a file that has to be listed to find a timeline.
fn history_file_name(i: usize) -> (name: &'static str)
    ensures
        name@ == history_file(i as int),
{
    if i < 3 {
        TIMELINE_FILES[i]
    } else {
        ISLANDS_FILE
    }
}

impl ListHistory {
    pub closed spec fn for_server(&self) -> Seq<char> {
        self.server@
    }

    /// The lists of the files before the one that is asked for.
    pub closed spec fn have(&self) -> Seq<Seq<VersionView>> {
        list_views(self.lists@)
    }

    /// The server whose file is to be listed.
    pub fn server(&self) -> (server: &str)
        ensures
            server@ == self.for_server(),
    {
        self.server.as_str()
    }

    /// The file whose versions are to be listed.
    pub fn file(&self) -> (file: &'static str)
        ensures
            file@ == history_file(self.have().len() as int),
    {
        history_file_name(self.lists.len())
    }

    /// Where the archived versions of the file lie, below the directory of the archive.
    pub fn archive_path(&self) -> (path: String)
        ensures
            path@ == file_location(self.for_server(), history_file(self.have().len() as int)),
    {
        file_path(self.server(), self.file())
    }

    fn advance(self, archive: &Archive, now: u128) -> (step: HistoryStep)
        requires
            archive.wf(),
        ensures
            continues_with(
                self.for_server(),
                gathered(*archive, self.for_server(), self.have(), now),
                step,
            ),
        decreases HISTORY_FILES - self.have().len(),
    {
        let server = self.server;
        let mut lists = self.lists;
        let ghost have = list_views(lists@);
        if lists.len() >= HISTORY_FILES {
            let timeline_files = vstd::slice::slice_subrange(lists.as_slice(), 0, 3);
            assert(list_views(timeline_files@) =~= have.take(3));
            assert(have[3] == views(lists@[3]@));
            let snapshots = Archive::timeline(timeline_files, &lists[3]);
            return HistoryStep::Done(Ok(History { server, snapshots }));
        }
        match archive.versions(server.as_str(), history_file_name(lists.len()), now) {
            Some(list) => {
                lists.push(list);
                assert(list_views(lists@) =~= have.push(views(list@)));
                ListHistory { server, lists }.advance(archive, now)
            },
            None => HistoryStep::List(ListHistory { server, lists }),
        }
    }

    /// What is in the archive's directory for the file.
    pub fn listed(self, state: &mut AppState, entries: Vec<DirEntry>, now: u128) -> (step:
        HistoryStep)
        requires
            old(state).wf(),
        ensures
            final(state).wf(),
            final(state).cache == old(state).cache,
            final(state).failed_cache == old(state).failed_cache,
            match old(state).archive {
                Some(before) => {
                    &&& final(state).archive matches Some(after)
                    &&& exists|list: Seq<VersionView>| #[trigger]
                        is_listing_of(found_in(entries@), list) && after.is_updated(
                            &before,
                            self.for_server(),
                            history_file(self.have().len() as int),
                            (ListingView { listed_at: now, versions: list }),
                        ) && continues_with(
                            self.for_server(),
                            gathered(after, self.for_server(), self.have().push(list), now),
                            step,
                        )
                },
                None => final(state).archive is None && has_no_history(step),
            },
    {
        let server = self.server;
        let mut lists = self.lists;
        match &mut state.archive {
            Some(archive) => {
                let list = archive.refresh(
                    server.as_str(),
                    history_file_name(lists.len()),
                    now,
                    entries,
                );
                assert(is_listing_of(found_in(entries@), views(list@)));
                let ghost have = list_views(lists@);
                let ghost new = views(list@);
                lists.push(list);
                assert(list_views(lists@) =~= have.push(new));
                ListHistory { server, lists }.advance(archive, now)
            },
            None => HistoryStep::Done(Err(Status::NotFound)),
        }
    }
}

/// The first step to find the timeline of a server, where it is known whether its name is one.
pub fn history_checked(server_ok: bool, state: &AppState, server: &str, now: u128) -> (step:
    HistoryStep)
    requires
        state.wf(),
    ensures
        match state.archive {
            Some(archive) => if server_ok {
                continues_with(server@, gathered(archive, server@, Seq::empty(), now), step)
            } else {
                has_no_history(step)
            },
            None => has_no_history(step),
        },
{
    if !server_ok {
        return HistoryStep::Done(Err(Status::NotFound));
    }
    match &state.archive {
        Some(archive) => {
            let start = ListHistory { server: server.to_owned(), lists: Vec::new() };
            assert(start.have() =~= Seq::<Seq<VersionView>>::empty());
            start.advance(archive, now)
        },
        None => HistoryStep::Done(Err(Status::NotFound)),
    }
}

/// The first step to find the timeline of a server.
pub fn handle_history(state: &AppState, server: &str, now: u128) -> (step: HistoryStep)
    requires
        state.wf(),
    ensures
        match state.archive {
            Some(archive) => if is_server_name(server@) {
                continues_with(server@, gathered(archive, server@, Seq::empty(), now), step)
            } else {
                has_no_history(step)
            },
            None => has_no_history(step),
        },
{
    history_checked(is_server(server), state, server, now)
}

} // verus!
