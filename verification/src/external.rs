//! What the library takes on trust: the types and functions of other crates that it uses, and
//! of the standard library where no contract comes with Verus.

use vstd::prelude::*;

use crate::request::{is_server_shaped, starts_like_a_server, SERVER_PATTERN};

verus! {

#[verifier::external_type_specification]
#[verifier::external_body]
pub struct ExBytes(bytes::Bytes);

#[verifier::external_type_specification]
#[verifier::external_body]
pub struct ExPathBuf(std::path::PathBuf);

#[verifier::external_type_specification]
#[verifier::external_body]
pub struct ExIoError(std::io::Error);

/// `PathBuf::clone` gives back the same path.
pub assume_specification[ <std::path::PathBuf as Clone>::clone ](
    path: &std::path::PathBuf,
) -> (copy: std::path::PathBuf)
    ensures
        copy == *path,
;

/// The bytes that a buffer holds.
pub uninterp spec fn bytes_contents(buffer: bytes::Bytes) -> Seq<u8>;

/// `Bytes::from` on a `Vec<u8>`: the buffer holds the bytes of the vector.
#[verifier::external_body]
pub(crate) fn bytes_from_vec(data: Vec<u8>) -> (buffer: bytes::Bytes)
    ensures
        bytes_contents(buffer) == data@,
{
    bytes::Bytes::from(data)
}

/// `Bytes::clone`: the copy holds the same bytes.
#[verifier::external_body]
pub(crate) fn bytes_clone(buffer: &bytes::Bytes) -> (copy: bytes::Bytes)
    ensures
        bytes_contents(copy) == bytes_contents(*buffer),
{
    buffer.clone()
}

/// `Bytes::as_ref`: the bytes of the buffer as a slice.
#[verifier::external_body]
pub(crate) fn bytes_as_slice(buffer: &bytes::Bytes) -> (slice: &[u8])
    ensures
        slice@ == bytes_contents(*buffer),
{
    buffer.as_ref()
}

/// The SHA-256 digest of a byte string.
pub uninterp spec fn sha256(data: Seq<u8>) -> Seq<u8>;

/// `Sha256::digest` of the `sha2` crate: the digest of `data`, which is 32 bytes long.
#[verifier::external_body]
pub(crate) fn sha256_digest(data: &[u8]) -> (digest: Vec<u8>)
    ensures
        digest@ == sha256(data@),
        digest@.len() == 32,
{
    <sha2::Sha256 as sha2::Digest>::digest(data).to_vec()
}

/// What the gzip stream `gz` unpacks to, if it is one.
pub uninterp spec fn gunzipped(gz: Seq<u8>) -> Option<Seq<u8>>;

/// The gzip stream that `data` is packed to, unless the compressor fails on it.
pub uninterp spec fn gzipped(data: Seq<u8>) -> Option<Seq<u8>>;

/// `GzEncoder` of the `flate2` crate, writing into memory at the default level: the stream
/// depends on the data alone, and unpacks to what went in. The compressor fails only where an
/// internal buffer of it would overflow; on which data that is, if on any, is left open.
#[verifier::external_body]
pub(crate) fn gzip_bytes(data: &[u8]) -> (gz: Result<Vec<u8>, std::io::Error>)
    ensures
        gz matches Ok(bytes) ==> gzipped(data@) == Some(bytes@) && gunzipped(bytes@) == Some(data@),
        gz is Err ==> gzipped(data@) is None,
{
    let mut encoder = flate2::write::GzEncoder::new(Vec::new(), flate2::Compression::default());
    std::io::Write::write_all(&mut encoder, data)?;
    encoder.finish()
}

/// `GzDecoder` of the `flate2` crate, read to its end: what the first member of the stream
/// unpacks to, or an error where it is not a sound gzip stream.
#[verifier::external_body]
pub(crate) fn gunzip_bytes(gz: &[u8]) -> (plain: Result<Vec<u8>, std::io::Error>)
    ensures
        plain matches Ok(bytes) ==> gunzipped(gz@) == Some(bytes@),
        plain is Err ==> gunzipped(gz@) is None,
{
    let mut plain = Vec::new();
    let mut decoder = flate2::read::GzDecoder::new(gz);
    std::io::Read::read_to_end(&mut decoder, &mut plain)?;
    Ok(plain)
}

/// The time that an HTTP date names, in seconds since the Unix epoch, if the text is one.
pub uninterp spec fn http_date(text: Seq<char>) -> Option<u64>;

/// `parse_http_date` of the `httpdate` crate, which accepts the three date formats of HTTP,
/// for years from 1970 to 9999. The time is converted to seconds since the Unix epoch.
#[verifier::external_body]
pub(crate) fn parse_http_date(text: &str) -> (secs: Option<u64>)
    ensures
        secs == http_date(text@),
{
    match httpdate::parse_http_date(text) {
        Ok(time) => match time.duration_since(std::time::UNIX_EPOCH) {
            Ok(since_epoch) => Some(since_epoch.as_secs()),
            Err(_) => None,
        },
        Err(_) => None,
    }
}

/// Whether `text` has a match for the regular expression `pattern`, if that is one.
pub uninterp spec fn regex_match(pattern: Seq<char>, text: Seq<char>) -> Option<bool>;

/// `Regex::new` and `Regex::is_match` of the `regex` crate, for the pattern of server names: it is
/// a regular expression, and in an ASCII text it matches two letters and one to three digits, from
/// beginning to end. In other texts `\d` stands for the decimal digits of all scripts; which
/// characters these are is left open. Of other patterns nothing is said, as the limit on the size
/// of a compiled expression may not be the same on all machines.
#[verifier::external_body]
pub(crate) fn regex_is_match(pattern: &str, text: &str) -> (matched: Option<bool>)
    requires
        pattern@ == SERVER_PATTERN@,
    ensures
        matched == regex_match(pattern@, text@),
        matched is Some,
        vstd::utf8::is_ascii_chars(text@) ==> matched == Some(is_server_shaped(text@)),
        matched == Some(true) ==> starts_like_a_server(text@),
{
    match regex::Regex::new(pattern) {
        Ok(regex) => Some(regex.is_match(text)),
        Err(_) => None,
    }
}

} // verus!
