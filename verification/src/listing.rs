//! The versions of a data file as a list: oldest first, one for each content.

use vstd::hash_set::StringHashSet;
use vstd::prelude::*;

use crate::order::{
    bytes_le, lemma_lex_antisymmetric, lemma_lex_total, lemma_lex_transitive, lex_le, Ranked,
};
use crate::sort::{is_stable_order, is_stable_sort, lemma_no_place_is_missing, sorted};
use crate::text::{lemma_utf8_injective, str_eq};
use crate::version::{name_fields, parse_name, views, Version, VersionView};

verus! {

pub const ISLANDS_FILE: &'static str = "islands.txt";

/// Versions are listed by time, those of the same time by hash.
pub open spec fn listed_le(a: VersionView, b: VersionView) -> bool {
    a.lm < b.lm || a.lm == b.lm && lex_le(
        vstd::utf8::encode_utf8(a.hash),
        vstd::utf8::encode_utf8(b.hash),
    )
}

impl Ranked for Version {
    open spec fn ranks_le(self, other: Self) -> bool {
        listed_le(self@, other@)
    }

    proof fn lemma_total(a: Self, b: Self) {
        lemma_lex_total(
            vstd::utf8::encode_utf8(a.hash@),
            vstd::utf8::encode_utf8(b.hash@),
        );
    }

    proof fn lemma_transitive(a: Self, b: Self, c: Self) {
        if a.lm == b.lm && b.lm == c.lm {
            lemma_lex_transitive(
                vstd::utf8::encode_utf8(a.hash@),
                vstd::utf8::encode_utf8(b.hash@),
                vstd::utf8::encode_utf8(c.hash@),
            );
        }
    }

    fn le(&self, other: &Self) -> (le: bool) {
        self.lm < other.lm || self.lm == other.lm && bytes_le(
            self.hash.as_str().as_bytes(),
            other.hash.as_str().as_bytes(),
        )
    }
}

/// The version at `i` is the earliest of its content, and the first of those that are equally
/// early.
pub open spec fn is_earliest(versions: Seq<VersionView>, i: int) -> bool {
    &&& 0 <= i < versions.len()
    &&& forall|j: int|
        0 <= j < versions.len() && j != i && (#[trigger] versions[j]).hash == versions[i].hash
            ==> versions[i].lm < versions[j].lm || versions[i].lm == versions[j].lm && i < j
}

/// `version` is the earliest of its content.
pub open spec fn is_kept(versions: Seq<VersionView>, version: VersionView) -> bool {
    exists|i: int| #[trigger] is_earliest(versions, i) && versions[i] == version
}

/// In list order, and no content twice.
pub open spec fn is_listing(list: Seq<VersionView>) -> bool {
    forall|i: int, j: int|
        #![trigger list[i], list[j]]
        0 <= i < j < list.len() ==> listed_le(list[i], list[j]) && list[i].hash != list[j].hash
}

/// `list` is the listing of `versions`: of each content its earliest version, in list order.
pub open spec fn is_listing_of(versions: Seq<VersionView>, list: Seq<VersionView>) -> bool {
    &&& is_listing(list)
    &&& forall|k: int| 0 <= k < list.len() ==> is_kept(versions, #[trigger] list[k])
    &&& forall|i: int| #[trigger] is_earliest(versions, i) ==> list.contains(versions[i])
}

/// Every version is listed at or before its time.
proof fn lemma_listed_le_lm(list: Seq<VersionView>, i: int, j: int)
    requires
        is_listing(list),
        0 <= i <= j < list.len(),
    ensures
        list[i].lm <= list[j].lm,
{
    if i < j {
        assert(listed_le(list[i], list[j]));
    }
}

proof fn lemma_listed_le_both(a: VersionView, b: VersionView)
    requires
        listed_le(a, b),
        listed_le(b, a),
    ensures
        a.lm == b.lm,
        a.hash == b.hash,
{
    lemma_lex_antisymmetric(vstd::utf8::encode_utf8(a.hash), vstd::utf8::encode_utf8(b.hash));
    lemma_utf8_injective(a.hash, b.hash);
}

/// Two listings of the same versions are the same listing.
proof fn lemma_same_elements(a: Seq<VersionView>, b: Seq<VersionView>)
    requires
        is_listing(a),
        is_listing(b),
        forall|v: VersionView| #[trigger] a.contains(v) <==> b.contains(v),
    ensures
        a == b,
    decreases a.len(),
{
    if a.len() == 0 {
        if b.len() > 0 {
            assert(b.contains(b[0]));
            assert(a.contains(b[0]));
        }
        assert(a =~= b);
    } else {
        assert(a.contains(a[0]));
        assert(b.contains(a[0]));
        let j = choose|j: int| 0 <= j < b.len() && b[j] == a[0];
        assert(b.contains(b[0]));
        assert(a.contains(b[0]));
        let i = choose|i: int| 0 <= i < a.len() && a[i] == b[0];
        if j > 0 && i > 0 {
            assert(listed_le(b[0], b[j]));
            assert(listed_le(a[0], a[i]));
            lemma_listed_le_both(a[0], b[0]);
        }
        assert(a[0] == b[0]);
        let a2 = a.drop_first();
        let b2 = b.drop_first();
        assert forall|v: VersionView| #[trigger] a2.contains(v) implies b2.contains(v) by {
            let k = choose|k: int| 0 <= k < a2.len() && a2[k] == v;
            assert(a[k + 1] == v);
            assert(a.contains(v));
            let m = choose|m: int| 0 <= m < b.len() && b[m] == v;
            assert(a[0].hash != a[k + 1].hash);
            assert(b2[m - 1] == v);
        }
        assert forall|v: VersionView| b2.contains(v) implies #[trigger] a2.contains(v) by {
            let k = choose|k: int| 0 <= k < b2.len() && b2[k] == v;
            assert(b[k + 1] == v);
            assert(b.contains(v));
            assert(a.contains(v));
            let m = choose|m: int| 0 <= m < a.len() && a[m] == v;
            assert(b[0].hash != b[k + 1].hash);
            assert(a2[m - 1] == v);
        }
        assert(is_listing(a2)) by {
            assert forall|i: int, j: int|
                #![trigger a2[i], a2[j]]
                0 <= i < j < a2.len() implies listed_le(a2[i], a2[j]) && a2[i].hash
                != a2[j].hash by {
                assert(a2[i] == a[i + 1] && a2[j] == a[j + 1]);
            }
        }
        assert(is_listing(b2)) by {
            assert forall|i: int, j: int|
                #![trigger b2[i], b2[j]]
                0 <= i < j < b2.len() implies listed_le(b2[i], b2[j]) && b2[i].hash
                != b2[j].hash by {
                assert(b2[i] == b[i + 1] && b2[j] == b[j + 1]);
            }
        }
        lemma_same_elements(a2, b2);
        assert(a =~= seq![a[0]] + a2);
        assert(b =~= seq![b[0]] + b2);
    }
}

/// There is at most one listing of the same versions.
pub proof fn law_listing_is_unique(
    versions: Seq<VersionView>,
    a: Seq<VersionView>,
    b: Seq<VersionView>,
)
    requires
        is_listing_of(versions, a),
        is_listing_of(versions, b),
    ensures
        a == b,
{
    assert forall|v: VersionView| #[trigger] a.contains(v) implies b.contains(v) by {
        let k = choose|k: int| 0 <= k < a.len() && a[k] == v;
        let i = choose|i: int| #[trigger] is_earliest(versions, i) && versions[i] == a[k];
        assert(b.contains(versions[i]));
    }
    assert forall|v: VersionView| b.contains(v) implies #[trigger] a.contains(v) by {
        let k = choose|k: int| 0 <= k < b.len() && b[k] == v;
        let i = choose|i: int| #[trigger] is_earliest(versions, i) && versions[i] == b[k];
        assert(a.contains(versions[i]));
    }
    lemma_same_elements(a, b);
}

/// No version before the one at `k` has its content.
spec fn is_first_of_hash(s: Seq<VersionView>, k: int) -> bool {
    &&& 0 <= k < s.len()
    &&& forall|m: int| 0 <= m < k ==> (#[trigger] s[m]).hash != s[k].hash
}

/// `kept` are those of the first `n` versions of `s` whose content does not come before them;
/// `from` says where in `s` they stand.
spec fn keeps_firsts(
    s: Seq<VersionView>,
    n: int,
    kept: Seq<VersionView>,
    from: Seq<int>,
) -> bool {
    &&& 0 <= n <= s.len()
    &&& kept.len() == from.len()
    &&& forall|a: int|
        #![trigger from[a]]
        0 <= a < from.len() ==> is_first_of_hash(s, from[a]) && from[a] < n && kept[a] == s[from[a]]
    &&& forall|a: int, b: int| 0 <= a < b < from.len() ==> #[trigger] from[a] < #[trigger] from[b]
    &&& forall|k: int| 0 <= k < n && #[trigger] is_first_of_hash(s, k) ==> from.contains(k)
}

proof fn lemma_firsts_of_sorted(
    versions: Seq<Version>,
    in_order: Seq<Version>,
    kept: Seq<VersionView>,
    from: Seq<int>,
)
    requires
        is_stable_sort(versions, in_order),
        keeps_firsts(views(in_order), in_order.len() as int, kept, from),
    ensures
        is_listing_of(views(versions), kept),
{
    let vs = views(versions);
    let s = views(in_order);
    let origin = choose|origin: Seq<int>| is_stable_order(versions, in_order, origin);
    assert forall|k: int| 0 <= k < s.len() implies 0 <= #[trigger] origin[k] < vs.len() && s[k]
        == vs[origin[k]] by {
        assert(in_order[k] == versions[origin[k]]);
    }
    assert forall|k: int, m: int| 0 <= k < m < s.len() implies listed_le(
        #[trigger] s[k],
        #[trigger] s[m],
    ) by {
        assert(in_order[k].ranks_le(in_order[m]));
    }
    // Of two versions with the same time and content the one that came first stands first.
    assert forall|k: int, m: int|
        0 <= k < m < s.len() && (#[trigger] s[k]).hash == (#[trigger] s[m]).hash && s[k].lm
            == s[m].lm implies origin[k] < origin[m] by {
        let text = vstd::utf8::encode_utf8(s[k].hash);
        lemma_lex_total(text, text);
        assert(in_order[m].ranks_le(in_order[k]));
        assert(origin[k] < origin[m]);
    }
    assert(is_listing(kept)) by {
        assert forall|a: int, b: int|
            #![trigger kept[a], kept[b]]
            0 <= a < b < kept.len() implies listed_le(kept[a], kept[b]) && kept[a].hash
            != kept[b].hash by {
            assert(from[a] < from[b]);
            assert(is_first_of_hash(s, from[a]) && is_first_of_hash(s, from[b]));
            assert(s[from[a]] == kept[a] && s[from[b]] == kept[b]);
        }
    }
    assert forall|a: int| 0 <= a < kept.len() implies is_kept(vs, #[trigger] kept[a]) by {
        let k = from[a];
        assert(is_first_of_hash(s, k));
        let i = origin[k];
        assert forall|j: int|
            0 <= j < vs.len() && j != i && (#[trigger] vs[j]).hash == vs[i].hash implies vs[i].lm
            < vs[j].lm || vs[i].lm == vs[j].lm && i < j by {
            lemma_no_place_is_missing(origin, j);
            let m = choose|m: int| 0 <= m < origin.len() && origin[m] == j;
            assert(s[m] == vs[origin[m]]);
            assert(s[k] == vs[i]);
            if m < k {
                assert(s[m].hash != s[k].hash);
            }
            assert(listed_le(s[k], s[m]));
        }
        assert(is_earliest(vs, i) && vs[i] == kept[a]);
    }
    assert forall|i: int| #[trigger] is_earliest(vs, i) implies kept.contains(vs[i]) by {
        lemma_no_place_is_missing(origin, i);
        let k = choose|k: int| 0 <= k < origin.len() && origin[k] == i;
        assert(s[k] == vs[origin[k]]);
        assert forall|m: int| 0 <= m < k implies (#[trigger] s[m]).hash != s[k].hash by {
            if s[m].hash == s[k].hash {
                let j = origin[m];
                assert(s[m] == vs[j]);
                assert(origin[m] != origin[k]);
                assert(listed_le(s[m], s[k]));
                assert(vs[j].hash == vs[i].hash);
            }
        }
        assert(is_first_of_hash(s, k));
        let a = choose|a: int| 0 <= a < from.len() && from[a] == k;
        assert(kept[a] == s[from[a]]);
    }
}

/// Sort oldest first and collapse same-content versions (e.g. from two instances racing, or
/// the same data served by two nodes) into the earliest one.
pub fn normalize(versions: Vec<Version>) -> (list: Vec<Version>)
    ensures
        is_listing_of(views(versions@), views(list@)),
{
    let in_order = sorted(versions);
    let ghost s = views(in_order@);
    let ghost mut from: Seq<int> = seq![];
    let mut seen = StringHashSet::new();
    let mut list: Vec<Version> = Vec::new();
    for version in it: in_order.into_iter()
        invariant
            it.seq() == in_order@,
            s == views(in_order@),
            keeps_firsts(s, it.index() as int, views(list@), from),
            forall|hash: Seq<char>|
                #[trigger] seen@.contains(hash) <==> exists|k: int|
                    0 <= k < it.index() && (#[trigger] s[k]).hash == hash,
    {
        let ghost n = it.index() as int;
        let ghost before = list@;
        assert(version == in_order@[n]);
        assert(s[n] == version@);
        if seen.insert(version.hash.clone()) {
            list.push(version);
            proof {
                assert(is_first_of_hash(s, n));
                assert(views(list@) =~= views(before).push(s[n]));
                let from2 = from.push(n);
                assert forall|k: int| 0 <= k < n + 1 && #[trigger] is_first_of_hash(s, k) implies
                    from2.contains(k) by {
                    if k < n {
                        let a = choose|a: int| 0 <= a < from.len() && from[a] == k;
                        assert(from2[a] == k);
                    } else {
                        assert(from2[from.len() as int] == k);
                    }
                }
                from = from2;
            }
        }
        assert(keeps_firsts(s, n + 1, views(list@), from));
    }
    proof {
        lemma_firsts_of_sorted(versions@, in_order@, views(list@), from);
    }
    list
}

/// An entry of the directory that holds the versions of a file. The name is missing where it is
/// not Unicode.
pub struct DirEntry {
    pub name: Option<String>,
    pub path: std::path::PathBuf,
}

/// The version that a directory entry holds, if it is one.
pub open spec fn entry_version(entry: DirEntry) -> Option<VersionView> {
    match entry.name {
        Some(name) => match name_fields(name@) {
            Some((lm, hash)) => Some(VersionView { lm, hash, path: entry.path }),
            None => None,
        },
        None => None,
    }
}

/// The versions that a directory holds, in the order of its entries.
pub open spec fn found_in(entries: Seq<DirEntry>) -> Seq<VersionView>
    decreases entries.len(),
{
    if entries.len() == 0 {
        Seq::empty()
    } else {
        let rest = found_in(entries.drop_last());
        match entry_version(entries.last()) {
            Some(version) => rest.push(version),
            None => rest,
        }
    }
}

/// The versions that a directory holds, oldest first and one for each content. Entries that are
/// not named like a stored version are passed over.
pub fn list_versions(entries: Vec<DirEntry>) -> (list: Vec<Version>)
    ensures
        is_listing_of(found_in(entries@), views(list@)),
{
    let mut versions: Vec<Version> = Vec::new();
    assert(views(versions@) =~= found_in(entries@.take(0)));
    for entry in it: entries.into_iter()
        invariant
            it.seq() == entries@,
            views(versions@) == found_in(entries@.take(it.index() as int)),
    {
        let ghost n = it.index() as int;
        let ghost before = versions@;
        assert(entry == entries@[n]);
        assert(entries@.take(n + 1).drop_last() =~= entries@.take(n));
        assert(entries@.take(n + 1).last() == entry);
        match entry.name {
            Some(name) => {
                match parse_name(name.as_str()) {
                    Some((lm, hash)) => {
                        versions.push(Version { lm, hash, path: entry.path });
                        assert(views(versions@) =~= views(before).push(
                            VersionView { lm, hash: hash@, path: entry.path },
                        ));
                    },
                    None => {},
                }
            },
            None => {},
        }
        assert(views(versions@) =~= found_in(entries@.take(n + 1)));
    }
    assert(entries@.take(entries@.len() as int) =~= entries@);
    normalize(versions)
}

/// Of every content there is an earliest version.
proof fn lemma_earliest_exists(versions: Seq<VersionView>, j: int) -> (i: int)
    requires
        0 <= j < versions.len(),
    ensures
        is_earliest(versions, i),
        versions[i].hash == versions[j].hash,
        versions[i].lm <= versions[j].lm,
    decreases versions[j].lm, j,
{
    if is_earliest(versions, j) {
        j
    } else {
        let k = choose|k: int|
            0 <= k < versions.len() && k != j && (#[trigger] versions[k]).hash == versions[j].hash
                && !(versions[j].lm < versions[k].lm || versions[j].lm == versions[k].lm && j < k);
        lemma_earliest_exists(versions, k)
    }
}

/// The content of `version` is listed, at its time or before.
pub open spec fn lists_content_of(list: Seq<VersionView>, version: VersionView) -> bool {
    exists|k: int|
        0 <= k < list.len() && (#[trigger] list[k]).hash == version.hash && list[k].lm <= version.lm
}

/// Every content is listed, at the time it was first seen, and nothing else is.
pub proof fn law_every_content_is_listed(versions: Seq<VersionView>, list: Seq<VersionView>)
    requires
        is_listing_of(versions, list),
    ensures
        forall|j: int| 0 <= j < versions.len() ==> lists_content_of(list, #[trigger] versions[j]),
        forall|k: int| 0 <= k < list.len() ==> versions.contains(#[trigger] list[k]),
{
    assert forall|j: int| 0 <= j < versions.len() implies lists_content_of(
        list,
        #[trigger] versions[j],
    ) by {
        let i = lemma_earliest_exists(versions, j);
        assert(list.contains(versions[i]));
        let k = choose|k: int| 0 <= k < list.len() && list[k] == versions[i];
        assert(list[k].hash == versions[j].hash);
    }
    assert forall|k: int| 0 <= k < list.len() implies versions.contains(#[trigger] list[k]) by {
        assert(is_kept(versions, list[k]));
    }
}

/// A listing holds nothing but versions that there are, and of each content one: the earliest, and
/// of those that are equally early the first. It goes from early to late, and where the times are
/// equal by the bytes of the hashes.
pub proof fn law_listing_is_the_earliest_of_each_content(
    versions: Seq<VersionView>,
    list: Seq<VersionView>,
    j: int,
    a: int,
    b: int,
)
    requires
        is_listing_of(versions, list),
    ensures
        0 <= j < versions.len() ==> exists|k: int|
            0 <= k < list.len() && (#[trigger] list[k]).hash == versions[j].hash && list[k].lm
                <= versions[j].lm,
        0 <= a < list.len() ==> exists|i: int|
            0 <= i < versions.len() && #[trigger] versions[i] == list[a] && (0 <= j
                < versions.len() && versions[j].hash == list[a].hash ==> list[a].lm
                < versions[j].lm || list[a].lm == versions[j].lm && i <= j),
        0 <= a < b < list.len() ==> {
            &&& list[a].hash != list[b].hash
            &&& list[a].lm <= list[b].lm
            &&& list[a].lm == list[b].lm ==> lex_le(
                vstd::utf8::encode_utf8(list[a].hash),
                vstd::utf8::encode_utf8(list[b].hash),
            )
        },
{
    law_every_content_is_listed(versions, list);
    if 0 <= j < versions.len() {
        assert(lists_content_of(list, versions[j]));
    }
    if 0 <= a < list.len() {
        assert(is_kept(versions, list[a]));
        let i = choose|i: int| #[trigger] is_earliest(versions, i) && versions[i] == list[a];
        assert(versions[i] == list[a]);
    }
}

/// A listing is empty only where there are no versions, and never longer than they are.
pub proof fn law_listing_is_no_longer_than_the_versions(versions: Seq<VersionView>, list: Seq<VersionView>)
    requires
        is_listing_of(versions, list),
    ensures
        versions.len() == 0 ==> list.len() == 0,
        versions.len() == 1 ==> list == versions,
        versions.len() > 0 ==> list.len() > 0,
        list.len() <= versions.len(),
{
    law_every_content_is_listed(versions, list);
    if list.len() > 0 {
        assert(versions.contains(list[0]));
    }
    if versions.len() > 0 {
        assert(lists_content_of(list, versions[0]));
    }
    assert(list.no_duplicates()) by {
        assert forall|i: int, j: int|
            0 <= i < list.len() && 0 <= j < list.len() && i != j implies list[i] != list[j] by {
            if i < j {
                assert(list[i].hash != list[j].hash);
            } else {
                assert(list[j].hash != list[i].hash);
            }
        }
    }
    list.unique_seq_to_set();
    versions.lemma_cardinality_of_set();
    assert(list.to_set().subset_of(versions.to_set())) by {
        assert forall|v: VersionView| list.to_set().contains(v) implies versions.to_set().contains(
            v,
        ) by {
            let k = choose|k: int| 0 <= k < list.len() && list[k] == v;
            assert(versions.contains(list[k]));
        }
    }
    vstd::set_lib::lemma_len_subset(list.to_set(), versions.to_set());
    if versions.len() == 1 {
        assert(versions.contains(list[0]));
        assert(list =~= versions);
    }
}

/// A directory holds the versions of its parts, and an entry is a version exactly when its name
/// says a time and a content hash; it lies where the entry does.
pub proof fn law_entries_are_versions_by_their_names(
    a: Seq<DirEntry>,
    b: Seq<DirEntry>,
    entry: DirEntry,
)
    ensures
        found_in(a + b) == found_in(a) + found_in(b),
        found_in(seq![entry]) == match entry.name {
            Some(name) => match name_fields(name@) {
                Some((lm, hash)) => seq![VersionView { lm, hash, path: entry.path }],
                None => Seq::empty(),
            },
            None => Seq::empty(),
        },
    decreases b.len(),
{
    assert(seq![entry].drop_last() =~= Seq::<DirEntry>::empty());
    assert(found_in(Seq::<DirEntry>::empty()) =~= Seq::<VersionView>::empty());
    assert(found_in(seq![entry]) =~= match entry_version(entry) {
        Some(version) => seq![version],
        None => Seq::empty(),
    });
    if b.len() == 0 {
        assert(a + b =~= a);
    } else {
        law_entries_are_versions_by_their_names(a, b.drop_last(), entry);
        assert((a + b).drop_last() =~= a + b.drop_last());
        assert((a + b).last() == b.last());
    }
    assert(found_in(a + b) =~= found_in(a) + found_in(b));
}

/// The listing of a listing is that listing.
pub proof fn law_listing_again_changes_nothing(list: Seq<VersionView>)
    requires
        is_listing(list),
    ensures
        is_listing_of(list, list),
{
    assert forall|i: int| 0 <= i < list.len() implies is_earliest(list, i) by {
        assert forall|j: int|
            0 <= j < list.len() && j != i && (#[trigger] list[j]).hash == list[i].hash implies false by {
            if j < i {
                assert(list[j].hash != list[i].hash);
            } else {
                assert(list[i].hash != list[j].hash);
            }
        }
    }
    assert forall|k: int| 0 <= k < list.len() implies is_kept(list, #[trigger] list[k]) by {
        assert(is_earliest(list, k));
    }
}

proof fn lemma_listing_holds_the_kept(versions: Seq<VersionView>, list: Seq<VersionView>)
    requires
        is_listing_of(versions, list),
    ensures
        forall|v: VersionView| #[trigger] list.contains(v) <==> is_kept(versions, v),
{
    assert forall|v: VersionView| #[trigger] list.contains(v) implies is_kept(versions, v) by {
        let k = choose|k: int| 0 <= k < list.len() && list[k] == v;
        assert(is_kept(versions, list[k]));
    }
}

/// A version of new content joins the kept ones and displaces none.
proof fn lemma_new_content_is_kept(versions: Seq<VersionView>, at: int, new: VersionView)
    requires
        0 <= at <= versions.len(),
        forall|i: int| 0 <= i < versions.len() ==> (#[trigger] versions[i]).hash != new.hash,
    ensures
        forall|v: VersionView|
            #[trigger] is_kept(versions.insert(at, new), v) <==> v == new || is_kept(versions, v),
{
    let more = versions.insert(at, new);
    let place = |i: int|
        if i < at {
            i
        } else {
            i + 1
        };
    assert forall|i: int| 0 <= i < versions.len() implies more[#[trigger] place(i)]
        == versions[i] by {}
    assert(more[at] == new);
    assert forall|j: int| 0 <= j < more.len() && j != at implies (#[trigger] more[j]).hash
        != new.hash by {
        if j < at {
            assert(more[j] == versions[j]);
        } else {
            assert(more[j] == versions[j - 1]);
        }
    }
    assert(is_earliest(more, at));
    assert(is_kept(more, new));
    assert forall|v: VersionView| is_kept(versions, v) implies #[trigger] is_kept(more, v) by {
        let i = choose|i: int| #[trigger] is_earliest(versions, i) && versions[i] == v;
        let m = place(i);
        assert(more[m] == v);
        assert forall|j: int|
            0 <= j < more.len() && j != m && (#[trigger] more[j]).hash == more[m].hash implies more[m].lm
            < more[j].lm || more[m].lm == more[j].lm && m < j by {
            let back = if j < at {
                j
            } else {
                j - 1
            };
            assert(j != at);
            assert(more[j] == versions[back]);
        }
        assert(is_earliest(more, m));
    }
    assert forall|v: VersionView| #[trigger] is_kept(more, v) && v != new implies is_kept(
        versions,
        v,
    ) by {
        let m = choose|m: int| #[trigger] is_earliest(more, m) && more[m] == v;
        let i = if m < at {
            m
        } else {
            m - 1
        };
        assert(m != at);
        assert(versions[i] == v);
        assert forall|j: int|
            0 <= j < versions.len() && j != i && (#[trigger] versions[j]).hash == versions[i].hash implies versions[i].lm
            < versions[j].lm || versions[i].lm == versions[j].lm && i < j by {
            assert(more[place(j)] == versions[j]);
        }
        assert(is_earliest(versions, i));
    }
}

proof fn lemma_found_in_insert(entries: Seq<DirEntry>, at: int, entry: DirEntry) -> (place: int)
    requires
        0 <= at <= entries.len(),
        entry_version(entry) is Some,
    ensures
        0 <= place <= found_in(entries).len(),
        found_in(entries.insert(at, entry)) == found_in(entries).insert(
            place,
            entry_version(entry)->0,
        ),
    decreases entries.len(),
{
    let more = entries.insert(at, entry);
    let new = entry_version(entry)->0;
    let found = found_in(entries);
    if at == entries.len() {
        assert(more.drop_last() =~= entries);
        assert(more.last() == entry);
        assert(found.push(new) =~= found.insert(found.len() as int, new));
        found.len() as int
    } else {
        let place = lemma_found_in_insert(entries.drop_last(), at, entry);
        assert(more.drop_last() =~= entries.drop_last().insert(at, entry));
        assert(more.last() == entries.last());
        let rest = found_in(entries.drop_last());
        match entry_version(entries.last()) {
            Some(last) => {
                assert(rest.insert(place, new).push(last) =~= rest.push(last).insert(place, new));
            },
            None => {},
        }
        place
    }
}

/// Whoever lists the directory after a version of new content was stored in it, wherever the
/// new entry turns up, finds the listing that the one who stored it has.
pub proof fn law_stored_version_is_listed(
    entries: Seq<DirEntry>,
    list: Seq<VersionView>,
    at: int,
    entry: DirEntry,
    updated: Seq<VersionView>,
    relisted: Seq<VersionView>,
)
    requires
        is_listing_of(found_in(entries), list),
        0 <= at <= entries.len(),
        entry_version(entry) is Some,
        forall|k: int|
            0 <= k < list.len() ==> (#[trigger] list[k]).hash != (entry_version(entry)->0).hash,
        is_listing_of(list.push(entry_version(entry)->0), updated),
        is_listing_of(found_in(entries.insert(at, entry)), relisted),
    ensures
        relisted == updated,
{
    let found = found_in(entries);
    let new = entry_version(entry)->0;
    let place = lemma_found_in_insert(entries, at, entry);
    assert forall|i: int| 0 <= i < found.len() implies (#[trigger] found[i]).hash != new.hash by {
        law_every_content_is_listed(found, list);
        assert(lists_content_of(list, found[i]));
    }
    lemma_new_content_is_kept(found, place, new);
    lemma_listing_holds_the_kept(found, list);
    lemma_listing_holds_the_kept(found_in(entries.insert(at, entry)), relisted);
    lemma_new_content_is_kept(list, list.len() as int, new);
    assert(list.insert(list.len() as int, new) =~= list.push(new));
    law_listing_again_changes_nothing(list);
    lemma_listing_holds_the_kept(list, list);
    lemma_listing_holds_the_kept(list.push(new), updated);
    assert forall|v: VersionView| #[trigger] relisted.contains(v) <==> updated.contains(v) by {
        assert(list.contains(v) <==> is_kept(found, v));
        assert(list.contains(v) <==> is_kept(list, v));
        assert(is_kept(list.insert(list.len() as int, new), v) <==> v == new || is_kept(list, v));
    }
    lemma_same_elements(relisted, updated);
}

/// The last version that is not after `t`, by its place in the list.
pub open spec fn newest_not_after(versions: Seq<VersionView>, t: u64) -> Option<int>
    decreases versions.len(),
{
    if versions.len() == 0 {
        None
    } else if versions.last().lm <= t {
        Some(versions.len() - 1)
    } else {
        newest_not_after(versions.drop_last(), t)
    }
}

/// How far `lm` is from `t`.
pub open spec fn distance(lm: u64, t: u64) -> int {
    if lm <= t {
        t - lm
    } else {
        lm - t
    }
}

/// A version from the time `lm` is to be taken for the time `t`, rather than an earlier one in
/// the list from the time `other`: it is closer, or as close and not after `t`.
pub open spec fn is_closer(lm: u64, other: u64, t: u64) -> bool {
    distance(lm, t) < distance(other, t) || distance(lm, t) == distance(other, t) && lm <= t
}

/// The version that is closest to `t`, by its place in the list.
pub open spec fn closest(versions: Seq<VersionView>, t: u64) -> Option<int>
    decreases versions.len(),
{
    if versions.len() == 0 {
        None
    } else {
        match closest(versions.drop_last(), t) {
            Some(i) => if is_closer(versions.last().lm, versions[i].lm, t) {
                Some(versions.len() - 1)
            } else {
                Some(i)
            },
            None => Some(0),
        }
    }
}

/// The version of `file` that stands for the time `t`, by its place in the list: of islands the
/// closest one, and of other files the last one that is not after `t`.
pub open spec fn resolved(versions: Seq<VersionView>, file: Seq<char>, t: u64) -> Option<int> {
    if file == ISLANDS_FILE@ {
        closest(versions, t)
    } else {
        newest_not_after(versions, t)
    }
}

/// Where there is a version, one is closest; of two that are equally close, it is not the one
/// after `t`.
pub proof fn lemma_closest(versions: Seq<VersionView>, t: u64)
    ensures
        match closest(versions, t) {
            Some(i) => {
                &&& 0 <= i < versions.len()
                &&& forall|j: int|
                    0 <= j < versions.len() ==> distance(versions[i].lm, t) <= distance(
                        (#[trigger] versions[j]).lm,
                        t,
                    )
                &&& t < versions[i].lm ==> forall|j: int|
                    0 <= j < versions.len() && (#[trigger] versions[j]).lm <= t ==> distance(
                        versions[i].lm,
                        t,
                    ) < distance(versions[j].lm, t)
                &&& forall|j: int|
                    0 <= j < versions.len() && (#[trigger] versions[j]).lm == versions[i].lm
                        ==> if versions[i].lm <= t {
                        j <= i
                    } else {
                        i <= j
                    }
            },
            None => versions.len() == 0,
        },
    decreases versions.len(),
{
    if versions.len() > 0 {
        let fewer = versions.drop_last();
        lemma_closest(fewer, t);
        assert forall|j: int| 0 <= j < fewer.len() implies #[trigger] versions[j] == fewer[j] by {}
    }
}

pub proof fn lemma_newest_not_after(versions: Seq<VersionView>, t: u64)
    ensures
        match newest_not_after(versions, t) {
            Some(i) => {
                &&& 0 <= i < versions.len()
                &&& versions[i].lm <= t
                &&& forall|j: int| i < j < versions.len() ==> t < (#[trigger] versions[j]).lm
            },
            None => forall|j: int| 0 <= j < versions.len() ==> t < (#[trigger] versions[j]).lm,
        },
    decreases versions.len(),
{
    if versions.len() > 0 && versions.last().lm > t {
        lemma_newest_not_after(versions.drop_last(), t);
        assert forall|j: int| 0 <= j < versions.len() - 1 implies #[trigger] versions[j]
            == versions.drop_last()[j] by {}
    }
}

/// Of a file other than the islands the newest version that is not after `t` stands for the time
/// `t`, and none only where all are after it.
pub proof fn law_resolved_is_newest_not_after(list: Seq<VersionView>, file: Seq<char>, t: u64)
    requires
        is_listing(list),
        file != ISLANDS_FILE@,
    ensures
        match resolved(list, file, t) {
            Some(i) => {
                &&& 0 <= i < list.len()
                &&& list[i].lm <= t
                &&& forall|j: int|
                    0 <= j < list.len() && (#[trigger] list[j]).lm <= t ==> list[j].lm <= list[i].lm
            },
            None => forall|j: int| 0 <= j < list.len() ==> t < (#[trigger] list[j]).lm,
        },
{
    lemma_newest_not_after(list, t);
    match resolved(list, file, t) {
        Some(i) => {
            assert forall|j: int| 0 <= j < list.len() && (#[trigger] list[j]).lm
                <= t implies list[j].lm <= list[i].lm by {
                if j <= i {
                    lemma_listed_le_lm(list, j, i);
                }
            }
        },
        None => {},
    }
}

/// Whenever there is a version of the islands, the one that is closest to `t` stands for the time
/// `t`; of two that are equally close it is the earlier one.
pub proof fn law_resolved_islands_are_closest(list: Seq<VersionView>, t: u64)
    requires
        list.len() > 0,
    ensures
        resolved(list, ISLANDS_FILE@, t) matches Some(i) && {
            &&& 0 <= i < list.len()
            &&& forall|j: int|
                0 <= j < list.len() ==> distance(list[i].lm, t) <= distance(
                    (#[trigger] list[j]).lm,
                    t,
                )
            &&& forall|j: int|
                0 <= j < list.len() && distance(list[i].lm, t) == distance(
                    (#[trigger] list[j]).lm,
                    t,
                ) ==> list[i].lm <= list[j].lm
        },
{
    lemma_closest(list, t);
}

/// The version that stands for a time, in a list that goes from early to late. Of islands, there is
/// one wherever there is a version, and none is closer to the time; where one is as close, the one
/// that is taken is not the later, and of those with the same time it is the one that stands closest
/// to the time in the list. Of other files, there is one exactly where some version is not after
/// the time, and it is the last of those.
pub proof fn law_version_stands_for_a_time(
    list: Seq<VersionView>,
    file: Seq<char>,
    t: u64,
    j: int,
)
    requires
        0 <= j < list.len(),
    ensures
        file == "islands.txt"@ ==> {
            &&& resolved(list, file, t) matches Some(i)
            &&& 0 <= i < list.len()
            &&& list[j].lm <= t ==> t - list[j].lm >= list[i].lm - t && t - list[j].lm >= t
                - list[i].lm
            &&& t <= list[j].lm ==> list[j].lm - t >= list[i].lm - t && list[j].lm - t >= t
                - list[i].lm
            &&& list[j].lm + list[i].lm == 2 * t ==> list[i].lm <= list[j].lm
            &&& list[j].lm == list[i].lm && list[i].lm <= t ==> j <= i
            &&& list[j].lm == list[i].lm && t < list[i].lm ==> i <= j
        },
        file != "islands.txt"@ ==> match resolved(list, file, t) {
            Some(i) => {
                &&& 0 <= i < list.len()
                &&& list[i].lm <= t
                &&& i < j ==> t < list[j].lm
            },
            None => t < list[j].lm,
        },
{
    lemma_newest_not_after(list, t);
    lemma_closest(list, t);
}

/// Where there is no version, none stands for any time.
pub proof fn law_no_version_stands_for_no_time(list: Seq<VersionView>, file: Seq<char>, t: u64)
    requires
        list.len() == 0,
    ensures
        resolved(list, file, t) is None,
{
}

/// The time between `lm` and `t`.
fn time_between(lm: u64, t: u64) -> (secs: u64)
    ensures
        secs == distance(lm, t),
{
    if lm <= t {
        t - lm
    } else {
        lm - t
    }
}

/// The version that is closest to `t`.
fn find_closest<'a>(versions: &'a [Version], t: u64) -> (found: Option<&'a Version>)
    ensures
        match found {
            Some(version) => {
                &&& closest(views(versions@), t) matches Some(i)
                &&& 0 <= i < versions@.len()
                &&& *version == versions@[i]
            },
            None => closest(views(versions@), t) is None,
        },
{
    let ghost all = views(versions@);
    if versions.len() == 0 {
        return None;
    }
    let mut best: usize = 0;
    let mut n: usize = 1;
    proof {
        assert(all.take(1).drop_last() =~= Seq::<VersionView>::empty());
        assert(closest(Seq::<VersionView>::empty(), t) is None);
    }
    while n < versions.len()
        invariant
            best < n <= versions@.len(),
            all == views(versions@),
            closest(all.take(n as int), t) == Some(best as int),
        decreases versions@.len() - n,
    {
        let lm = versions[n].lm;
        let other = versions[best].lm;
        let near = time_between(lm, t);
        let far = time_between(other, t);
        proof {
            assert(all.take(n + 1).drop_last() =~= all.take(n as int));
            assert(all.take(n + 1).last() == versions@[n as int]@);
            assert(all.take(n + 1)[best as int] == versions@[best as int]@);
        }
        if near < far || near == far && lm <= t {
            best = n;
        }
        n = n + 1;
    }
    assert(all.take(n as int) =~= all);
    Some(&versions[best])
}

/// The version of `file` that stands for the time `t`: of islands the closest one, and of other
/// files the newest that is not after `t`.
pub fn resolve_at<'a>(versions: &'a [Version], file: &str, t: u64) -> (found: Option<&'a Version>)
    ensures
        match found {
            Some(version) => {
                &&& resolved(views(versions@), file@, t) matches Some(i)
                &&& 0 <= i < versions@.len()
                &&& *version == versions@[i]
            },
            None => resolved(views(versions@), file@, t) is None,
        },
{
    if str_eq(file, ISLANDS_FILE) {
        return find_closest(versions, t);
    }
    let ghost all = views(versions@);
    let mut i: usize = versions.len();
    assert(all.take(i as int) =~= all);
    while i > 0
        invariant
            i <= versions@.len(),
            all == views(versions@),
            file@ != ISLANDS_FILE@,
            newest_not_after(all, t) == newest_not_after(all.take(i as int), t),
        decreases i,
    {
        i = i - 1;
        assert(all.take(i + 1).drop_last() =~= all.take(i as int));
        assert(all.take(i + 1).last() == versions@[i as int]@);
        if versions[i].lm <= t {
            return Some(&versions[i]);
        }
    }
    None
}

} // verus!
