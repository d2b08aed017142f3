//! How a request is served, from its path on.

use vstd::prelude::*;

use crate::cache::age_at;
use crate::live::{begins, cache_key, get_live, is_usable, DiskFile, Step};
use crate::request::{
    is_server, is_server_name, law_four_files_are_served, route, route_checked, Route, Status,
    CAPTURE_FILES,
};
use crate::snapshot::{begins_snapshot, snapshot_at, SnapshotStep};
use crate::state::{failed_recently, AppState, CACHE_EXPIRY, CAPTURE_MAX_AGE};

verus! {

/// What is to be done next to serve a request for a data file.
pub enum RequestStep {
    NotFound,
    Snapshot(SnapshotStep),
    Live(Step),
}

/// The first step to serve a file of a capture.
pub struct Captured {
    pub datafile: &'static str,
    pub step: Step,
}

/// `step` is the first step to serve a request on its route. The file as it is now may come from
/// a cache for 15 minutes.
pub open spec fn begins_request(
    route: Route,
    before: AppState,
    server: Seq<char>,
    datafile: Seq<char>,
    now: u128,
    step: RequestStep,
    after: AppState,
) -> bool {
    match route {
        Route::NotFound => step is NotFound && after == before,
        Route::Snapshot(at) => {
            &&& step matches RequestStep::Snapshot(first)
            &&& begins_snapshot(before, server, datafile, at, now, first)
            &&& after == before
        },
        Route::Live => {
            &&& step matches RequestStep::Live(first)
            &&& begins(before, server, datafile, CACHE_EXPIRY, now, first, after)
        },
    }
}

/// `steps` are the first steps to serve each of the files that a capture fetches, taken one after
/// the other; `states` is what was remembered before each of them, and after the last. A cached
/// copy must be less than 5 minutes old.
pub open spec fn is_capture_of(
    server: Seq<char>,
    now: u128,
    steps: Seq<Captured>,
    states: Seq<AppState>,
) -> bool {
    &&& steps.len() == CAPTURE_FILES@.len()
    &&& states.len() == steps.len() + 1
    &&& forall|k: int|
        #![trigger steps[k]]
        0 <= k < steps.len() ==> steps[k].datafile@ == CAPTURE_FILES@[k]@ && begins(
            states[k],
            server,
            CAPTURE_FILES@[k]@,
            CAPTURE_MAX_AGE,
            now,
            steps[k].step,
            states[k + 1],
        )
}

/// `steps` are the first steps of a capture, which leads from `before` to `after`.
pub open spec fn begins_capture(
    before: AppState,
    server: Seq<char>,
    now: u128,
    steps: Seq<Captured>,
    after: AppState,
) -> bool {
    exists|states: Seq<AppState>| #[trigger]
        is_capture_of(server, now, steps, states) && states[0] == before && states.last() == after
}

/// A request for what is not there changes nothing. A snapshot is served without asking upstream,
/// and changes nothing yet. A file as it is now may come from a cache for 15 minutes.
pub proof fn law_request_begins_on_its_route(
    before: AppState,
    server_ok: bool,
    server: Seq<char>,
    datafile: Seq<char>,
    at: Option<u64>,
    now: u128,
    step: RequestStep,
    after: AppState,
)
    requires
        begins_request(
            route(server_ok, datafile, at),
            before,
            server,
            datafile,
            now,
            step,
            after,
        ),
    ensures
        ({
            let served = server_ok && (datafile == "players.txt"@ || datafile == "towns.txt"@
                || datafile == "alliances.txt"@ || datafile == "islands.txt"@);
            &&& !served ==> step is NotFound && after == before
            &&& served && at is Some ==> {
                &&& step matches RequestStep::Snapshot(first)
                &&& begins_snapshot(before, server, datafile, at->0, now, first)
                &&& after == before
            }
            &&& served && at is None ==> {
                &&& step matches RequestStep::Live(first)
                &&& begins(before, server, datafile, 900_000_000_000, now, first, after)
            }
        }),
{
    law_four_files_are_served(server_ok, datafile, at);
}

/// A capture begins to serve each of the four files, of which a cached copy must be less than 5
/// minutes old.
pub proof fn law_capture_begins_with_four_files(
    before: AppState,
    server: Seq<char>,
    now: u128,
    steps: Seq<Captured>,
    after: AppState,
)
    requires
        begins_capture(before, server, now, steps, after),
    ensures
        exists|one: AppState, two: AppState, three: AppState|
            #![trigger begins(before, server, "players.txt"@, 300_000_000_000, now, steps[0].step, one), begins(two, server, "towns.txt"@, 300_000_000_000, now, steps[2].step, three)]
            steps.len() == 4 && begins(
                before,
                server,
                "players.txt"@,
                300_000_000_000,
                now,
                steps[0].step,
                one,
            ) && begins(one, server, "alliances.txt"@, 300_000_000_000, now, steps[1].step, two)
                && begins(two, server, "towns.txt"@, 300_000_000_000, now, steps[2].step, three)
                && begins(
                three,
                server,
                "islands.txt"@,
                300_000_000_000,
                now,
                steps[3].step,
                after,
            ),
        steps[0].datafile@ == "players.txt"@,
        steps[1].datafile@ == "alliances.txt"@,
        steps[2].datafile@ == "towns.txt"@,
        steps[3].datafile@ == "islands.txt"@,
{
    let states = choose|states: Seq<AppState>| #[trigger]
        is_capture_of(server, now, steps, states) && states[0] == before && states.last() == after;
    assert(steps[0].datafile@ == CAPTURE_FILES@[0]@);
    assert(steps[1].datafile@ == CAPTURE_FILES@[1]@);
    assert(steps[2].datafile@ == CAPTURE_FILES@[2]@);
    assert(steps[3].datafile@ == CAPTURE_FILES@[3]@);
    assert(begins(before, server, "players.txt"@, 300_000_000_000, now, steps[0].step, states[1]));
    assert(begins(states[2], server, "towns.txt"@, 300_000_000_000, now, steps[2].step, states[3]));
}

/// A capture asks upstream for every file of which no cached copy is young enough, in memory or
/// on disk, but for one that upstream failed to serve a short while ago: it goes to the disk, with
/// a limit that no older copy there can meet.
pub proof fn law_capture_refetches_what_is_old(
    server: Seq<char>,
    now: u128,
    steps: Seq<Captured>,
    states: Seq<AppState>,
    k: int,
    found: Option<DiskFile>,
)
    requires
        is_capture_of(server, now, steps, states),
        0 <= k < steps.len(),
        ({
            let key = cache_key(server, CAPTURE_FILES@[k]@);
            let files = states[k].cache@;
            &&& !failed_recently(states[k].failed_cache@, key, now)
            &&& files.contains_key(key) ==> age_at(files[key].timestamp, now) >= CAPTURE_MAX_AGE
        }),
        found matches Some(file) ==> (file.age matches Some(age) ==> age >= CAPTURE_MAX_AGE),
    ensures
        steps[k].step matches Step::ProbeDisk(probe) && !is_usable(found, probe.target.max_age),
{
}

/// The first step to serve a request on its route.
pub fn request_routed(
    route: Route,
    state: &mut AppState,
    server: &str,
    datafile: &str,
    now: u128,
) -> (step: RequestStep)
    requires
        old(state).wf(),
    ensures
        final(state).wf(),
        begins_request(route, *old(state), server@, datafile@, now, step, *final(state)),
{
    match route {
        Route::NotFound => RequestStep::NotFound,
        Route::Snapshot(at) => RequestStep::Snapshot(snapshot_at(state, server, datafile, at, now)),
        Route::Live => RequestStep::Live(get_live(state, server, datafile, CACHE_EXPIRY, now)),
    }
}

/// The first step to serve a request for a data file of a server: as it was at the time `at`, or
/// as it is now.
pub fn handle_request(
    state: &mut AppState,
    server: &str,
    datafile: &str,
    at: Option<u64>,
    now: u128,
) -> (step: RequestStep)
    requires
        old(state).wf(),
    ensures
        final(state).wf(),
        begins_request(
            route(is_server_name(server@), datafile@, at),
            *old(state),
            server@,
            datafile@,
            now,
            step,
            *final(state),
        ),
{
    let taken = route_checked(is_server(server), datafile, at);
    request_routed(taken, state, server, datafile, now)
}

/// The first steps of a capture of a server, one for each file, where it is known whether its name
/// is one. All of them are to be followed to their end, whatever becomes of the others.
pub fn capture_checked(server_ok: bool, state: &mut AppState, server: &str, now: u128) -> (steps:
    Result<Vec<Captured>, Status>)
    requires
        old(state).wf(),
    ensures
        final(state).wf(),
        match steps {
            Ok(steps) => server_ok && begins_capture(
                *old(state),
                server@,
                now,
                steps@,
                *final(state),
            ),
            Err(status) => !server_ok && status == Status::NotFound && *final(state) == *old(state),
        },
{
    if !server_ok {
        return Err(Status::NotFound);
    }
    let mut steps: Vec<Captured> = Vec::new();
    let ghost mut states: Seq<AppState> = seq![*state];
    let mut i: usize = 0;
    while i < 4
        invariant
            i <= 4,
            state.wf(),
            steps@.len() == i,
            states.len() == i + 1,
            states[0] == *old(state),
            states.last() == *state,
            forall|k: int|
                #![trigger steps@[k]]
                0 <= k < i ==> steps@[k].datafile@ == CAPTURE_FILES@[k]@ && begins(
                    states[k],
                    server@,
                    CAPTURE_FILES@[k]@,
                    CAPTURE_MAX_AGE,
                    now,
                    steps@[k].step,
                    states[k + 1],
                ),
        decreases 4 - i,
    {
        let datafile = CAPTURE_FILES[i];
        let step = get_live(state, server, datafile, CAPTURE_MAX_AGE, now);
        steps.push(Captured { datafile, step });
        proof {
            states = states.push(*state);
        }
        i = i + 1;
    }
    assert(is_capture_of(server@, now, steps@, states));
    Ok(steps)
}

/// The first steps of a capture of a server, one for each file.
pub fn handle_capture(state: &mut AppState, server: &str, now: u128) -> (steps: Result<
    Vec<Captured>,
    Status,
>)
    requires
        old(state).wf(),
    ensures
        final(state).wf(),
        match steps {
            Ok(steps) => is_server_name(server@) && begins_capture(
                *old(state),
                server@,
                now,
                steps@,
                *final(state),
            ),
            Err(status) => {
                &&& !is_server_name(server@)
                &&& status == Status::NotFound
                &&& *final(state) == *old(state)
            },
        },
{
    capture_checked(is_server(server), state, server, now)
}

} // verus!
