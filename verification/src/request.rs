//! Which requests are served, and how.

use vstd::prelude::*;

use crate::external::{regex_is_match, regex_match};
use crate::text::{is_digit, str_eq};

verus! {

/// What a request is answered with, where it is not data.
#[derive(Debug, PartialEq, Eq, Structural)]
pub enum Status {
    NoContent,
    NotFound,
    InternalServerError,
    BadGateway,
}

impl Status {
    /// The HTTP status code.
    pub open spec fn spec_code(&self) -> u16 {
        match self {
            Status::NoContent => 204,
            Status::NotFound => 404,
            Status::InternalServerError => 500,
            Status::BadGateway => 502,
        }
    }

    /// The HTTP status code.
    pub fn code(&self) -> (code: u16)
        ensures
            code == self.spec_code(),
    {
        match self {
            Status::NoContent => 204,
            Status::NotFound => 404,
            Status::InternalServerError => 500,
            Status::BadGateway => 502,
        }
    }
}

/// The names of game servers.
pub const SERVER_PATTERN: &'static str = r"^[a-zA-Z]{2}\d{1,3}$";

/// The data files that are served.
pub const DATAFILE_WHITELIST: [&'static str; 4] = [
    "players.txt",
    "towns.txt",
    "alliances.txt",
    "islands.txt",
];

/// The data files that a capture fetches.
pub const CAPTURE_FILES: [&'static str; 4] = [
    "players.txt",
    "alliances.txt",
    "towns.txt",
    "islands.txt",
];

pub open spec fn is_ascii_letter(c: char) -> bool {
    'a' <= c <= 'z' || 'A' <= c <= 'Z'
}

/// Two letters and one to three digits.
pub open spec fn is_server_shaped(name: Seq<char>) -> bool {
    &&& 3 <= name.len() <= 5
    &&& is_ascii_letter(name[0])
    &&& is_ascii_letter(name[1])
    &&& forall|i: int| 2 <= i < name.len() ==> is_digit(#[trigger] name[i])
}

/// Two letters and one to three further characters, each a digit or not ASCII.
pub open spec fn starts_like_a_server(name: Seq<char>) -> bool {
    &&& 3 <= name.len() <= 5
    &&& is_ascii_letter(name[0])
    &&& is_ascii_letter(name[1])
    &&& forall|i: int| 2 <= i < name.len() ==> is_digit(#[trigger] name[i]) || name[i] > '\u{7f}'
}

/// The name matches the pattern for server names.
pub open spec fn is_server_name(name: Seq<char>) -> bool {
    regex_match(SERVER_PATTERN@, name) == Some(true)
}

/// A data file of this name is served.
pub open spec fn is_whitelisted(name: Seq<char>) -> bool {
    ||| name == "players.txt"@
    ||| name == "towns.txt"@
    ||| name == "alliances.txt"@
    ||| name == "islands.txt"@
}

/// How a request for a data file is served.
#[derive(Debug, PartialEq, Eq, Structural)]
pub enum Route {
    /// There is no such file.
    NotFound,
    /// The archived version that stands for this time, in unix seconds.
    Snapshot(u64),
    /// The file as it is now.
    Live,
}

/// How a request for a data file is served, where it is known whether the server name is one.
pub open spec fn route(server_ok: bool, datafile: Seq<char>, at: Option<u64>) -> Route {
    if !server_ok || !is_whitelisted(datafile) {
        Route::NotFound
    } else {
        match at {
            Some(t) => Route::Snapshot(t),
            None => Route::Live,
        }
    }
}

/// Whether a name is that of a server. Of ASCII names these are two letters and one to three
/// digits.
pub fn is_server(name: &str) -> (r: bool)
    ensures
        r == is_server_name(name@),
        vstd::utf8::is_ascii_chars(name@) ==> r == is_server_shaped(name@),
        r ==> starts_like_a_server(name@),
{
    match regex_is_match(SERVER_PATTERN, name) {
        Some(matched) => matched,
        None => false,
    }
}

/// Whether a data file of this name is served.
pub fn is_datafile(name: &str) -> (r: bool)
    ensures
        r == is_whitelisted(name@),
{
    let mut i: usize = 0;
    while i < 4
        invariant
            i <= 4,
            forall|k: int| 0 <= k < i ==> (#[trigger] DATAFILE_WHITELIST@[k])@ != name@,
        decreases 4 - i,
    {
        if str_eq(name, DATAFILE_WHITELIST[i]) {
            assert(DATAFILE_WHITELIST@[i as int]@ == name@);
            return true;
        }
        i = i + 1;
    }
    assert(DATAFILE_WHITELIST@[0]@ != name@);
    assert(DATAFILE_WHITELIST@[1]@ != name@);
    assert(DATAFILE_WHITELIST@[2]@ != name@);
    assert(DATAFILE_WHITELIST@[3]@ != name@);
    false
}

/// How a request for a data file is served, where it is known whether the server name is one.
pub fn route_checked(server_ok: bool, datafile: &str, at: Option<u64>) -> (r: Route)
    ensures
        r == route(server_ok, datafile@, at),
{
    if !server_ok {
        return Route::NotFound;
    }
    if !is_datafile(datafile) {
        return Route::NotFound;
    }
    match at {
        Some(t) => Route::Snapshot(t),
        None => Route::Live,
    }
}

/// What a capture is answered with, from whether each file could be served.
pub fn capture_status(served: &Vec<bool>) -> (status: Status)
    ensures
        status == if forall|i: int| 0 <= i < served@.len() ==> served@[i] {
            Status::NoContent
        } else {
            Status::BadGateway
        },
        served@.contains(false) ==> status == Status::BadGateway,
        !served@.contains(false) ==> status == Status::NoContent,
{
    let mut i: usize = 0;
    while i < served.len()
        invariant
            i <= served@.len(),
            forall|k: int| 0 <= k < i ==> served@[k],
        decreases served@.len() - i,
    {
        if !served[i] {
            assert(!served@[i as int]);
            assert(served@.contains(served@[i as int]));
            return Status::BadGateway;
        }
        i = i + 1;
    }
    Status::NoContent
}

/// What is shaped like a server has three to five characters: two letters, and then digits.
pub proof fn law_server_is_two_letters_and_digits(name: Seq<char>)
    ensures
        is_server_shaped(name) <==> {
            &&& 3 <= name.len() <= 5
            &&& 'a' <= name[0] <= 'z' || 'A' <= name[0] <= 'Z'
            &&& 'a' <= name[1] <= 'z' || 'A' <= name[1] <= 'Z'
            &&& forall|i: int| 2 <= i < name.len() ==> '0' <= #[trigger] name[i] <= '9'
        },
{
    if 3 <= name.len() && forall|i: int|
        2 <= i < name.len() ==> '0' <= #[trigger] name[i] <= '9' {
        assert forall|i: int| 2 <= i < name.len() implies is_digit(#[trigger] name[i]) by {
            assert('0' <= name[i] <= '9');
        }
    }
}

/// Four files are served, and only of what is a server: as they were, where a time is given, and
/// otherwise as they are.
pub proof fn law_four_files_are_served(server_ok: bool, datafile: Seq<char>, at: Option<u64>)
    ensures
        ({
            let served = server_ok && (datafile == "players.txt"@ || datafile == "towns.txt"@
                || datafile == "alliances.txt"@ || datafile == "islands.txt"@);
            &&& !served ==> route(server_ok, datafile, at) == Route::NotFound
            &&& served && at is None ==> route(server_ok, datafile, at) == Route::Live
            &&& served && at is Some ==> route(server_ok, datafile, at) == Route::Snapshot(at->0)
        }),
{
}

/// What the statuses are in HTTP.
pub proof fn law_statuses_are_those_of_http(status: Status)
    ensures
        status is NoContent ==> status.spec_code() == 204,
        status is NotFound ==> status.spec_code() == 404,
        status is InternalServerError ==> status.spec_code() == 500,
        status is BadGateway ==> status.spec_code() == 502,
{
}

/// A capture fetches exactly the files that are served.
pub proof fn law_capture_fetches_what_is_served(name: Seq<char>)
    ensures
        is_whitelisted(name) <==> exists|i: int|
            0 <= i < CAPTURE_FILES@.len() && (#[trigger] CAPTURE_FILES@[i])@ == name,
{
    assert(CAPTURE_FILES@[0]@ == "players.txt"@);
    assert(CAPTURE_FILES@[1]@ == "alliances.txt"@);
    assert(CAPTURE_FILES@[2]@ == "towns.txt"@);
    assert(CAPTURE_FILES@[3]@ == "islands.txt"@);
}

} // verus!
