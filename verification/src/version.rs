//! Archived versions of a data file and the names they are stored under.

use vstd::prelude::*;

use crate::hash::{is_hash, law_hash_is_sixteen_digits, HASH_LEN};
use crate::text::{
    append_decimal, decimal, is_hex_digit, lemma_decimal_parses, lemma_parsed_u64_chars,
    lemma_slash_splits, parse_u64, parsed_u64, str_eq,
};

verus! {

/// What the name of a stored version ends with.
pub const STORED_SUFFIX: &'static str = ".txt.gz";

#[derive(Debug, PartialEq, Eq)]
pub struct Version {
    /// upstream `Last-Modified`, in unix seconds
    pub lm: u64,
    pub hash: String,
    pub path: std::path::PathBuf,
}

impl Clone for Version {
    fn clone(&self) -> (copy: Self)
        ensures
            copy == *self,
    {
        Version { lm: self.lm, hash: self.hash.clone(), path: self.path.clone() }
    }
}

/// A version as the contracts see it.
pub struct VersionView {
    pub lm: u64,
    pub hash: Seq<char>,
    pub path: std::path::PathBuf,
}

impl View for Version {
    type V = VersionView;

    open spec fn view(&self) -> VersionView {
        VersionView { lm: self.lm, hash: self.hash@, path: self.path }
    }
}

/// The views of a sequence of versions.
pub open spec fn views(versions: Seq<Version>) -> Seq<VersionView> {
    Seq::new(versions.len(), |i: int| versions[i]@)
}

/// The contracts see every version, each with its time, its hash and where it lies.
pub proof fn law_views_are_the_versions(versions: Seq<Version>, i: int)
    requires
        0 <= i < versions.len(),
    ensures
        views(versions).len() == versions.len(),
        views(versions)[i].lm == versions[i].lm,
        views(versions)[i].hash == versions[i].hash@,
        views(versions)[i].path == versions[i].path,
{
}

/// Where there are no versions, the contracts see none.
pub proof fn law_no_versions_have_no_views(versions: Seq<Version>)
    requires
        versions.len() == 0,
    ensures
        views(versions).len() == 0,
{
}

/// The name that a version is stored under.
pub open spec fn stored_name(lm: u64, hash: Seq<char>) -> Seq<char> {
    decimal(lm as nat) + seq!['-'] + hash + STORED_SUFFIX@
}

/// The name that a version is written under before it is complete.
pub open spec fn temporary_name(name: Seq<char>) -> Seq<char> {
    seq!['.'] + name + ".tmp"@
}

/// Where the versions of a file lie, below the directory of the archive.
pub open spec fn file_location(server: Seq<char>, file: Seq<char>) -> Seq<char> {
    server + "/"@ + file
}

/// Where a version of a file lies, below the directory of the archive.
pub open spec fn version_location(server: Seq<char>, file: Seq<char>, name: Seq<char>) -> Seq<
    char,
> {
    file_location(server, file) + "/"@ + name
}

/// Two versions lie in the same place only if they are of the same file, and have the same name.
/// Neither servers nor files have a slash in their names.
pub proof fn law_version_path_is_unique(
    server1: Seq<char>,
    file1: Seq<char>,
    name1: Seq<char>,
    server2: Seq<char>,
    file2: Seq<char>,
    name2: Seq<char>,
)
    requires
        !server1.contains('/'),
        !server2.contains('/'),
        !file1.contains('/'),
        !file2.contains('/'),
        version_location(server1, file1, name1) == version_location(server2, file2, name2),
    ensures
        server1 == server2,
        file1 == file2,
        name1 == name2,
{
    let rest1 = file1 + "/"@ + name1;
    let rest2 = file2 + "/"@ + name2;
    assert(version_location(server1, file1, name1) =~= server1 + "/"@ + rest1);
    assert(version_location(server2, file2, name2) =~= server2 + "/"@ + rest2);
    lemma_slash_splits(server1, rest1, server2, rest2);
    lemma_slash_splits(file1, name1, file2, name2);
}

/// The time and the content hash in the name of a stored version, if it is such a name.
pub open spec fn name_fields(name: Seq<char>) -> Option<(u64, Seq<char>)> {
    let end = name.len() - STORED_SUFFIX@.len();
    let hash = name.subrange(end - HASH_LEN, end);
    let number = name.take(end - HASH_LEN - 1);
    if end > HASH_LEN && name.skip(end) == STORED_SUFFIX@ && is_hash(hash) && name[end - HASH_LEN
        - 1] == '-' && parsed_u64(number) is Some {
        Some((parsed_u64(number)->0, hash))
    } else {
        None
    }
}

/// A name is that of a stored version exactly when it is a number, a dash, a content hash and
/// the suffix, one after the other.
pub proof fn law_name_fields(name: Seq<char>, lm: u64, hash: Seq<char>)
    ensures
        name_fields(name) == Some((lm, hash)) <==> is_hash(hash) && exists|number: Seq<char>|
            parsed_u64(number) == Some(lm) && name == #[trigger] (number + seq!['-']) + hash
                + STORED_SUFFIX@,
{
    let end = name.len() - STORED_SUFFIX@.len();
    if name_fields(name) == Some((lm, hash)) {
        let number = name.take(end - HASH_LEN - 1);
        assert(name =~= (number + seq!['-']) + hash + STORED_SUFFIX@);
    }
    if is_hash(hash) && exists|number: Seq<char>|
        parsed_u64(number) == Some(lm) && name == #[trigger] (number + seq!['-']) + hash
            + STORED_SUFFIX@ {
        let number = choose|number: Seq<char>|
            parsed_u64(number) == Some(lm) && name == #[trigger] (number + seq!['-']) + hash
                + STORED_SUFFIX@;
        assert(name.skip(end) =~= STORED_SUFFIX@);
        assert(name.subrange(end - HASH_LEN, end) =~= hash);
        assert(name.take(end - HASH_LEN - 1) =~= number);
    }
}

/// What is stored is found again: the name of a stored version gives back its time and hash.
pub proof fn law_stored_name_is_found(lm: u64, hash: Seq<char>)
    requires
        is_hash(hash),
    ensures
        name_fields(stored_name(lm, hash)) == Some((lm, hash)),
{
    lemma_decimal_parses(lm);
    let number = decimal(lm as nat);
    assert(stored_name(lm, hash) == (number + seq!['-']) + hash + STORED_SUFFIX@);
    law_name_fields(stored_name(lm, hash), lm, hash);
}

/// A version that is still being written is not found, whatever it will be called.
pub proof fn law_temporary_name_is_ignored(name: Seq<char>)
    ensures
        name_fields(temporary_name(name)) is None,
{
    let temporary = temporary_name(name);
    reveal_strlit(".tmp");
    reveal_strlit(".txt.gz");
    let end = temporary.len() - STORED_SUFFIX@.len();
    if name_fields(temporary) is Some {
        assert(temporary.skip(end).last() == temporary.last());
        assert(temporary.last() == ".tmp"@.last());
    }
}

/// A version is stored under its time in decimal and its content hash, with a dash between them and
/// the suffix behind; before it is complete, under that with a dot before it and another suffix
/// behind.
pub proof fn law_stored_name_says_time_and_hash(lm: u64, hash: Seq<char>, name: Seq<char>)
    ensures
        stored_name(lm, hash) == decimal(lm as nat) + "-"@ + hash + ".txt.gz"@,
        temporary_name(name) == "."@ + name + ".tmp"@,
{
    reveal_strlit("-");
    reveal_strlit(".");
    assert("-"@ =~= seq!['-']);
    assert("."@ =~= seq!['.']);
}

/// A name says the time `lm` and the content hash `hash` exactly when it is a number that counts
/// to `lm`, a dash, the sixteen digits of `hash`, and the suffix.
pub proof fn law_name_says_time_and_hash(name: Seq<char>, lm: u64, hash: Seq<char>)
    ensures
        name_fields(name) == Some((lm, hash)) <==> hash.len() == 16 && (forall|i: int|
            0 <= i < hash.len() ==> '0' <= #[trigger] hash[i] <= '9' || 'a' <= hash[i] <= 'f'
                || 'A' <= hash[i] <= 'F') && exists|number: Seq<char>|
            parsed_u64(number) == Some(lm) && name == #[trigger] (number + "-"@) + hash
                + ".txt.gz"@,
{
    reveal_strlit("-");
    assert("-"@ =~= seq!['-']);
    law_hash_is_sixteen_digits(hash);
    law_name_fields(name, lm, hash);
    if name_fields(name) == Some((lm, hash)) {
        let number = choose|number: Seq<char>|
            parsed_u64(number) == Some(lm) && name == #[trigger] (number + seq!['-']) + hash
                + STORED_SUFFIX@;
        assert(name == (number + "-"@) + hash + ".txt.gz"@);
    }
    if exists|number: Seq<char>|
        parsed_u64(number) == Some(lm) && name == #[trigger] (number + "-"@) + hash
            + ".txt.gz"@ {
        let number = choose|number: Seq<char>|
            parsed_u64(number) == Some(lm) && name == #[trigger] (number + "-"@) + hash
                + ".txt.gz"@;
        assert(name == (number + seq!['-']) + hash + STORED_SUFFIX@);
    }
}

proof fn lemma_stored_names_are_ascii(name: Seq<char>)
    requires
        name_fields(name) is Some,
    ensures
        vstd::utf8::is_ascii_chars(name),
{
    reveal_strlit(".txt.gz");
    let end = name.len() - STORED_SUFFIX@.len();
    let number = name.take(end - HASH_LEN - 1);
    let hash = name.subrange(end - HASH_LEN, end);
    lemma_parsed_u64_chars(number);
    assert forall|i: int| 0 <= i < name.len() implies '\0' <= #[trigger] name[i] <= '\u{7f}' by {
        if i < end - HASH_LEN - 1 {
            assert(number[i] == name[i]);
        } else if end - HASH_LEN <= i < end {
            assert(hash[i - (end - HASH_LEN)] == name[i]);
        } else if i >= end {
            assert(name.skip(end)[i - end] == name[i]);
        }
    }
}

/// Whether `s` looks like a content hash.
fn looks_like_hash(s: &str) -> (r: bool)
    requires
        s.is_ascii(),
    ensures
        r == is_hash(s@),
{
    proof {
        vstd::utf8::is_ascii_chars_encode_utf8(s@);
    }
    let bytes = s.as_bytes();
    if bytes.len() != HASH_LEN {
        return false;
    }
    let mut i: usize = 0;
    while i < bytes.len()
        invariant
            i <= bytes@.len(),
            bytes@.len() == HASH_LEN,
            s@.len() == HASH_LEN,
            vstd::utf8::is_ascii_chars(s@),
            forall|k: int| 0 <= k < s@.len() ==> #[trigger] bytes@[k] == s@[k] as u8,
            forall|k: int| 0 <= k < i ==> is_hex_digit(#[trigger] s@[k]),
        decreases bytes@.len() - i,
    {
        let b = bytes[i];
        assert('\0' <= s@[i as int] <= '\u{7f}');
        if !((48 <= b && b <= 57) || (97 <= b && b <= 102) || (65 <= b && b <= 70)) {
            assert(!is_hex_digit(s@[i as int]));
            return false;
        }
        i = i + 1;
    }
    true
}

/// The time and the content hash in the name of a stored version, if it is such a name.
pub fn parse_name(name: &str) -> (fields: Option<(u64, String)>)
    ensures
        match fields {
            Some((lm, hash)) => name_fields(name@) == Some((lm, hash@)),
            None => name_fields(name@) is None,
        },
{
    if !name.is_ascii() {
        proof {
            if name_fields(name@) is Some {
                lemma_stored_names_are_ascii(name@);
            }
        }
        return None;
    }
    proof {
        reveal_strlit(".txt.gz");
    }
    let len = name.unicode_len();
    let suffix_len = STORED_SUFFIX.unicode_len();
    if len <= suffix_len + HASH_LEN {
        return None;
    }
    let end = len - suffix_len;
    let suffix = name.substring_ascii(end, len);
    assert(suffix@ =~= name@.skip(end as int));
    if !str_eq(suffix, STORED_SUFFIX) {
        return None;
    }
    let hash = name.substring_ascii(end - HASH_LEN, end);
    if !looks_like_hash(hash) {
        return None;
    }
    if name.get_char(end - HASH_LEN - 1) != '-' {
        return None;
    }
    let number = name.substring_ascii(0, end - HASH_LEN - 1);
    assert(number@ =~= name@.take(end - HASH_LEN - 1));
    match parse_u64(number) {
        Some(lm) => Some((lm, hash.to_owned())),
        None => None,
    }
}

/// The name that a version is stored under.
pub fn file_name(lm: u64, hash: &str) -> (name: String)
    ensures
        name@ == stored_name(lm, hash@),
{
    proof {
        reveal_strlit("-");
    }
    let mut name = String::new();
    append_decimal(&mut name, lm);
    name.append("-");
    name.append(hash);
    name.append(STORED_SUFFIX);
    assert(name@ =~= stored_name(lm, hash@));
    name
}

/// Where the versions of a file lie, below the directory of the archive.
pub fn file_path(server: &str, file: &str) -> (path: String)
    ensures
        path@ == server@ + "/"@ + file@,
        path@ == file_location(server@, file@),
{
    let mut path = String::new();
    path.append(server);
    path.append("/");
    path.append(file);
    assert(path@ =~= file_location(server@, file@));
    path
}

/// Where a version of a file lies, below the directory of the archive.
pub fn version_path(server: &str, file: &str, name: &str) -> (path: String)
    ensures
        path@ == server@ + "/"@ + file@ + "/"@ + name@,
        path@ == version_location(server@, file@, name@),
{
    let mut path = file_path(server, file);
    path.append("/");
    path.append(name);
    path
}

/// A name that [`parse_name`] refuses, so that a half-written version is never read.
pub fn temp_name(name: &str) -> (temp: String)
    ensures
        temp@ == temporary_name(name@),
{
    proof {
        reveal_strlit(".");
    }
    let mut temp = String::new();
    temp.append(".");
    temp.append(name);
    temp.append(".tmp");
    assert(temp@ =~= temporary_name(name@));
    temp
}

} // verus!
