//! The hash that identifies the content of a data file.

use vstd::prelude::*;

use crate::external::{sha256, sha256_digest};
use crate::order::lex_le;
use crate::rows::{
    canonical_form, canonicalize, law_canonical_form_is_the_rows,
    law_canonical_form_is_the_sorted_rows, rows,
};
use crate::text::{hex, hex_char, is_hex_digit, to_hex};

verus! {

/// How many bytes of a digest a content hash keeps.
pub const HASH_BYTES: usize = 8;

/// How many characters a content hash has.
pub const HASH_LEN: usize = 16;

/// A digest cut down to a content hash.
pub open spec fn short_hash(digest: Seq<u8>) -> Seq<char> {
    hex(digest.take(HASH_BYTES as int))
}

/// The content hash of a data file.
pub open spec fn content_hash(data: Seq<u8>) -> Seq<char> {
    short_hash(sha256(canonical_form(data)))
}

/// What a content hash looks like.
pub open spec fn is_hash(s: Seq<char>) -> bool {
    &&& s.len() == HASH_LEN
    &&& forall|i: int| 0 <= i < s.len() ==> is_hex_digit(#[trigger] s[i])
}

proof fn lemma_hex_char(d: int)
    requires
        0 <= d < 16,
    ensures
        is_hex_digit(hex_char(d)),
{
}

/// The short form of every digest looks like a content hash.
pub proof fn lemma_short_hash_is_hash(digest: Seq<u8>)
    requires
        digest.len() >= HASH_BYTES,
    ensures
        is_hash(short_hash(digest)),
{
    let s = short_hash(digest);
    let bytes = digest.take(HASH_BYTES as int);
    assert forall|i: int| 0 <= i < s.len() implies is_hex_digit(#[trigger] s[i]) by {
        lemma_hex_char(bytes[i / 2] as int / 16);
        lemma_hex_char(bytes[i / 2] as int % 16);
    }
}

/// The order in which a file has its rows does not show in its hash; nor do blank lines and the
/// kind of line end.
pub proof fn law_hash_ignores_row_order(a: Seq<u8>, b: Seq<u8>)
    requires
        rows(a).to_multiset() == rows(b).to_multiset(),
    ensures
        content_hash(a) == content_hash(b),
{
    law_canonical_form_is_the_rows(a, b);
}

/// The content hash of a file is the first eight bytes of a SHA-256 digest, in hexadecimal. What
/// is digested holds every row, each as often as it occurs: it is the same for two files only if
/// their rows are.
pub proof fn law_hash_is_of_all_the_rows(a: Seq<u8>, b: Seq<u8>)
    ensures
        exists|x: Seq<u8>, y: Seq<u8>|
            #![trigger sha256(x), sha256(y)]
            content_hash(a) == hex(sha256(x).take(8)) && content_hash(b) == hex(sha256(y).take(8))
                && (x == y <==> rows(a).to_multiset() == rows(b).to_multiset()) && (exists|
                s: Seq<Seq<u8>>,
            |
                #![trigger s.to_multiset()]
                s.to_multiset() == rows(a).to_multiset() && (forall|i: int, j: int|
                    0 <= i < j < s.len() ==> lex_le(#[trigger] s[i], #[trigger] s[j])) && x
                    == s.map_values(|row: Seq<u8>| row.push(10u8)).flatten()),
{
    let x = canonical_form(a);
    let y = canonical_form(b);
    law_canonical_form_is_the_rows(a, b);
    law_canonical_form_is_the_sorted_rows(a);
    assert(content_hash(a) == hex(sha256(x).take(8)));
    assert(content_hash(b) == hex(sha256(y).take(8)));
}

/// What looks like a content hash is sixteen hexadecimal digits.
pub proof fn law_hash_is_sixteen_digits(s: Seq<char>)
    ensures
        is_hash(s) <==> s.len() == 16 && forall|i: int|
            0 <= i < s.len() ==> '0' <= #[trigger] s[i] <= '9' || 'a' <= s[i] <= 'f' || 'A' <= s[i]
                <= 'F',
{
    if s.len() == 16 && forall|i: int|
        0 <= i < s.len() ==> '0' <= #[trigger] s[i] <= '9' || 'a' <= s[i] <= 'f' || 'A' <= s[i]
            <= 'F' {
        assert forall|i: int| 0 <= i < s.len() implies is_hex_digit(#[trigger] s[i]) by {
            assert('0' <= s[i] <= '9' || 'a' <= s[i] <= 'f' || 'A' <= s[i] <= 'F');
        }
    }
}

/// A digest as a content hash: its first bytes in hexadecimal.
pub fn shorten(digest: &Vec<u8>) -> (hash: String)
    requires
        digest@.len() >= HASH_BYTES,
    ensures
        hash@ == short_hash(digest@),
        is_hash(hash@),
{
    proof {
        lemma_short_hash_is_hash(digest@);
        assert(digest@.subrange(0, HASH_BYTES as int) =~= digest@.take(HASH_BYTES as int));
    }
    to_hex(vstd::slice::slice_subrange(digest.as_slice(), 0, HASH_BYTES))
}

/// SHA-256 over the rows in sorted order: the upstream nodes serve the same rows in
/// different orders, which must not count as a new version.
pub fn canonical_hash(data: &[u8]) -> (hash: String)
    ensures
        hash@ == content_hash(data@),
        is_hash(hash@),
{
    let form = canonicalize(data);
    let digest = sha256_digest(form.as_slice());
    shorten(&digest)
}

} // verus!
