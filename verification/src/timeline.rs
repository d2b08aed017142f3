//! The points in time at which an archive can show every data file.

use vstd::prelude::*;
use vstd::relations::*;

use crate::listing::{lemma_closest, lemma_newest_not_after, resolved, ISLANDS_FILE};
use crate::order::Ranked;
use crate::sort::sorted;
use crate::version::{views, Version, VersionView};

verus! {

/// An upstream node writes all of its files within a second or two of each other.
pub const CLUSTER_SECS: u64 = 120;

/// The times of the versions in a list.
pub open spec fn times_of(list: Seq<VersionView>) -> Seq<u64> {
    Seq::new(list.len(), |i: int| list[i].lm)
}

/// The times of the versions of all files.
pub open spec fn all_times(lists: Seq<Seq<VersionView>>) -> Seq<u64>
    decreases lists.len(),
{
    if lists.len() == 0 {
        Seq::empty()
    } else {
        all_times(lists.drop_last()) + times_of(lists.last())
    }
}

/// The views of a list for each file.
pub open spec fn list_views(per_file: Seq<Vec<Version>>) -> Seq<Seq<VersionView>> {
    Seq::new(per_file.len(), |i: int| views(per_file[i]@))
}

/// Times from early to late.
pub open spec fn time_order() -> spec_fn(u64, u64) -> bool {
    |a: u64, b: u64| a <= b
}

pub open spec fn is_ascending(times: Seq<u64>) -> bool {
    forall|i: int, j: int| 0 <= i <= j < times.len() ==> times[i] <= times[j]
}

/// How many of the first times are at most `CLUSTER_SECS` after `start`.
pub open spec fn cluster_len(times: Seq<u64>, start: u64) -> nat
    decreases times.len(),
{
    if times.len() == 0 || times[0] - start > CLUSTER_SECS {
        0
    } else {
        1 + cluster_len(times.drop_first(), start)
    }
}

/// Ascending times fall into clusters: each begins with the first time that no earlier cluster
/// holds, and ends with the last one that is at most `CLUSTER_SECS` after its beginning. These
/// are the ends.
pub open spec fn cluster_ends(times: Seq<u64>) -> Seq<u64>
    decreases times.len(),
{
    if times.len() == 0 {
        Seq::empty()
    } else {
        let n = cluster_len(times, times[0]) as int;
        if 0 < n <= times.len() {
            seq![times[n - 1]] + cluster_ends(times.skip(n))
        } else {
            Seq::empty()
        }
    }
}

/// There is a version that is not after `t`.
pub open spec fn is_reached(list: Seq<VersionView>, t: u64) -> bool {
    exists|i: int| 0 <= i < list.len() && (#[trigger] list[i]).lm <= t
}

/// Every file has a version that is not after `t`.
pub open spec fn all_reached(lists: Seq<Seq<VersionView>>, t: u64) -> bool {
    forall|f: int| 0 <= f < lists.len() ==> is_reached(#[trigger] lists[f], t)
}

/// The timeline of an archive: the ends of the clusters in which versions appeared, as far as
/// every file has a version by then. Without islands there is nothing to show.
pub open spec fn timeline(lists: Seq<Seq<VersionView>>, has_islands: bool) -> Seq<u64> {
    if has_islands {
        cluster_ends(all_times(lists).sort_by(time_order())).filter(|t: u64| all_reached(lists, t))
    } else {
        Seq::empty()
    }
}

proof fn lemma_time_order_is_total()
    ensures
        total_ordering(time_order()),
{
}

proof fn lemma_cluster_len(times: Seq<u64>, start: u64)
    ensures
        cluster_len(times, start) <= times.len(),
        forall|i: int|
            0 <= i < cluster_len(times, start) ==> #[trigger] times[i] - start <= CLUSTER_SECS,
        cluster_len(times, start) < times.len() ==> times[cluster_len(times, start) as int] - start
            > CLUSTER_SECS,
    decreases times.len(),
{
    if times.len() > 0 && times[0] - start <= CLUSTER_SECS {
        lemma_cluster_len(times.drop_first(), start);
        assert forall|i: int| 0 <= i < cluster_len(times, start) implies #[trigger] times[i] - start
            <= CLUSTER_SECS by {
            if i > 0 {
                assert(times[i] == times.drop_first()[i - 1]);
            }
        }
    }
}

proof fn lemma_cluster_len_is(times: Seq<u64>, start: u64, n: int)
    requires
        0 <= n <= times.len(),
        forall|i: int| 0 <= i < n ==> #[trigger] times[i] - start <= CLUSTER_SECS,
        n < times.len() ==> times[n] - start > CLUSTER_SECS,
    ensures
        cluster_len(times, start) == n,
{
    lemma_cluster_len(times, start);
    let m = cluster_len(times, start) as int;
    if m < n {
        assert(times[m] - start <= CLUSTER_SECS);
    } else if n < m {
        assert(times[n] - start <= CLUSTER_SECS);
    }
}

/// `t` is within a cluster that ends at one of `ends`.
pub open spec fn is_covered(ends: Seq<u64>, t: u64) -> bool {
    exists|k: int| 0 <= k < ends.len() && t <= #[trigger] ends[k] <= t + CLUSTER_SECS
}

/// The ends of clusters are among the times.
proof fn lemma_cluster_ends_are_times(times: Seq<u64>, k: int) -> (i: int)
    requires
        0 <= k < cluster_ends(times).len(),
    ensures
        0 <= i < times.len(),
        times[i] == cluster_ends(times)[k],
    decreases times.len(),
{
    let n = cluster_len(times, times[0]) as int;
    if k == 0 {
        n - 1
    } else {
        let i = lemma_cluster_ends_are_times(times.skip(n), k - 1);
        n + i
    }
}

/// The ends of clusters ascend, and none occurs twice.
proof fn lemma_cluster_ends_ascend(times: Seq<u64>, j: int, k: int)
    requires
        is_ascending(times),
        0 <= j < k < cluster_ends(times).len(),
    ensures
        cluster_ends(times)[j] < cluster_ends(times)[k],
    decreases times.len(),
{
    let start = times[0];
    lemma_cluster_len(times, start);
    let n = cluster_len(times, start) as int;
    let rest = times.skip(n);
    if j > 0 {
        assert(is_ascending(rest));
        lemma_cluster_ends_ascend(rest, j - 1, k - 1);
    } else {
        let i = lemma_cluster_ends_are_times(rest, k - 1);
        assert(times[n] <= times[n + i]);
        assert(times[n - 1] - start <= CLUSTER_SECS);
    }
}

/// Every time is followed by the end of its cluster.
proof fn lemma_cluster_ends_cover(times: Seq<u64>, i: int) -> (k: int)
    requires
        is_ascending(times),
        0 <= i < times.len(),
    ensures
        0 <= k < cluster_ends(times).len(),
        times[i] <= cluster_ends(times)[k] <= times[i] + CLUSTER_SECS,
    decreases times.len(),
{
    let start = times[0];
    lemma_cluster_len(times, start);
    let n = cluster_len(times, start) as int;
    let rest = times.skip(n);
    if i < n {
        assert(times[i] <= times[n - 1]);
        assert(times[n - 1] - start <= CLUSTER_SECS);
        assert(times[0] <= times[i]);
        0
    } else {
        assert(is_ascending(rest));
        let k = lemma_cluster_ends_cover(rest, i - n);
        k + 1
    }
}

proof fn lemma_sorted_times(times: Seq<u64>)
    ensures
        is_ascending(times.sort_by(time_order())),
        forall|t: u64| #[trigger] times.sort_by(time_order()).contains(t) <==> times.contains(t),
{
    broadcast use vstd::seq_lib::group_to_multiset_ensures;

    lemma_time_order_is_total();
    times.lemma_sort_by_ensures(time_order());
    let s = times.sort_by(time_order());
    assert forall|i: int, j: int| 0 <= i <= j < s.len() implies s[i] <= s[j] by {
        if i < j {
            assert(time_order()(s[i], s[j]));
        }
    }
    assert forall|t: u64| times.contains(t) implies #[trigger] s.contains(t) by {
        assert(times.to_multiset().count(t) > 0);
        assert(s.to_multiset().count(t) > 0);
    }
}

proof fn lemma_filter_keeps_order(s: Seq<u64>, keep: spec_fn(u64) -> bool)
    requires
        forall|j: int, k: int| 0 <= j < k < s.len() ==> #[trigger] s[j] < #[trigger] s[k],
    ensures
        forall|j: int, k: int|
            0 <= j < k < s.filter(keep).len() ==> #[trigger] s.filter(keep)[j]
                < #[trigger] s.filter(keep)[k],
        forall|t: u64| #[trigger] s.filter(keep).contains(t) <==> s.contains(t) && keep(t),
    decreases s.len(),
{
    reveal(Seq::filter);
    if s.len() > 0 {
        let front = s.drop_last();
        lemma_filter_keeps_order(front, keep);
        let kept = front.filter(keep);
        assert forall|t: u64| #[trigger] s.filter(keep).contains(t) <==> s.contains(t) && keep(t) by {
            if s.filter(keep).contains(t) {
                let k = choose|k: int| 0 <= k < s.filter(keep).len() && s.filter(keep)[k] == t;
                if k < kept.len() {
                    assert(kept.contains(t));
                    let i = choose|i: int| 0 <= i < front.len() && front[i] == t;
                    assert(s[i] == t);
                } else {
                    assert(s[s.len() - 1] == t);
                }
            }
            if s.contains(t) && keep(t) {
                let i = choose|i: int| 0 <= i < s.len() && s[i] == t;
                if i < front.len() {
                    assert(front[i] == t);
                    assert(kept.contains(t));
                    let k = choose|k: int| 0 <= k < kept.len() && kept[k] == t;
                    assert(s.filter(keep)[k] == t);
                } else {
                    assert(s.filter(keep)[kept.len() as int] == t);
                }
            }
        }
        assert forall|j: int, k: int| 0 <= j < k < s.filter(keep).len() implies #[trigger] s.filter(
            keep,
        )[j] < #[trigger] s.filter(keep)[k] by {
            if k == kept.len() {
                assert(kept.contains(kept[j]));
                let i = choose|i: int| 0 <= i < front.len() && front[i] == kept[j];
                assert(s[i] < s[s.len() - 1]);
            } else {
                assert(kept[j] < kept[k]);
            }
        }
    }
}

proof fn lemma_ends_ascend(times: Seq<u64>)
    requires
        is_ascending(times),
    ensures
        forall|j: int, k: int|
            0 <= j < k < cluster_ends(times).len() ==> #[trigger] cluster_ends(times)[j]
                < #[trigger] cluster_ends(times)[k],
{
    assert forall|j: int, k: int|
        0 <= j < k < cluster_ends(times).len() implies #[trigger] cluster_ends(times)[j]
        < #[trigger] cluster_ends(times)[k] by {
        lemma_cluster_ends_ascend(times, j, k);
    }
}

/// What is a point of the timeline.
proof fn lemma_timeline_point(lists: Seq<Seq<VersionView>>, t: u64)
    ensures
        timeline(lists, true).contains(t) <==> cluster_ends(
            all_times(lists).sort_by(time_order()),
        ).contains(t) && all_reached(lists, t),
{
    let times = all_times(lists).sort_by(time_order());
    let keep = |t: u64| all_reached(lists, t);
    lemma_sorted_times(all_times(lists));
    lemma_ends_ascend(times);
    lemma_filter_keeps_order(cluster_ends(times), keep);
    assert(keep(t) == all_reached(lists, t));
}

/// The points of a timeline ascend, and none occurs twice.
pub proof fn law_timeline_ascends(lists: Seq<Seq<VersionView>>, has_islands: bool, j: int, k: int)
    requires
        0 <= j < k < timeline(lists, has_islands).len(),
    ensures
        timeline(lists, has_islands)[j] < timeline(lists, has_islands)[k],
{
    let times = all_times(lists).sort_by(time_order());
    lemma_sorted_times(all_times(lists));
    lemma_ends_ascend(times);
    lemma_filter_keeps_order(cluster_ends(times), |t: u64| all_reached(lists, t));
}

/// At every point of a timeline every file can be shown: there are islands, and each of the
/// other files has a version that is not after the point. The point itself is the time of a
/// version.
pub proof fn law_timeline_points_can_be_shown(
    lists: Seq<Seq<VersionView>>,
    islands: Seq<VersionView>,
    file: Seq<char>,
    k: int,
    f: int,
)
    requires
        0 <= k < timeline(lists, islands.len() > 0).len(),
        0 <= f < lists.len(),
    ensures
        resolved(lists[f], file, timeline(lists, islands.len() > 0)[k]) is Some,
        resolved(islands, ISLANDS_FILE@, timeline(lists, islands.len() > 0)[k]) is Some,
        all_times(lists).contains(timeline(lists, islands.len() > 0)[k]),
{
    let points = timeline(lists, islands.len() > 0);
    let p = points[k];
    assert(timeline(lists, true).contains(p));
    lemma_timeline_point(lists, p);
    let times = all_times(lists).sort_by(time_order());
    let end = choose|end: int| 0 <= end < cluster_ends(times).len() && cluster_ends(times)[end] == p;
    let i = lemma_cluster_ends_are_times(times, end);
    lemma_sorted_times(all_times(lists));
    assert(times.contains(p));
    assert(is_reached(lists[f], p));
    lemma_newest_not_after(lists[f], p);
    lemma_closest(lists[f], p);
    lemma_closest(islands, p);
}

/// Nothing recorded is left out: where there are islands, and every file has a version by the
/// time of some version, the timeline has a point at that time or at most `CLUSTER_SECS` after
/// it.
pub proof fn law_timeline_covers_every_version(lists: Seq<Seq<VersionView>>, t: u64)
    requires
        all_times(lists).contains(t),
        all_reached(lists, t),
    ensures
        is_covered(timeline(lists, true), t),
{
    let times = all_times(lists).sort_by(time_order());
    lemma_sorted_times(all_times(lists));
    assert(times.contains(t));
    let i = choose|i: int| 0 <= i < times.len() && times[i] == t;
    let k = lemma_cluster_ends_cover(times, i);
    let p = cluster_ends(times)[k];
    assert forall|f: int| 0 <= f < lists.len() implies is_reached(#[trigger] lists[f], p) by {
        assert(is_reached(lists[f], t));
        let v = choose|v: int| 0 <= v < lists[f].len() && (#[trigger] lists[f][v]).lm <= t;
        assert(lists[f][v].lm <= p);
    }
    lemma_timeline_point(lists, p);
    let points = timeline(lists, true);
    let m = choose|m: int| 0 <= m < points.len() && points[m] == p;
    assert(t <= points[m] <= t + CLUSTER_SECS);
}

/// The files that a node writes at one go make one point, at the time of the last of them.
pub proof fn law_one_cluster_is_one_point(lists: Seq<Seq<VersionView>>, last: u64)
    requires
        all_times(lists).contains(last),
        forall|t: u64| #[trigger]
            all_times(lists).contains(t) ==> t <= last && last - t <= CLUSTER_SECS,
        all_reached(lists, last),
    ensures
        timeline(lists, true) == seq![last],
{
    let times = all_times(lists).sort_by(time_order());
    lemma_sorted_times(all_times(lists));
    assert(times.contains(last));
    let i = choose|i: int| 0 <= i < times.len() && times[i] == last;
    let n = times.len() as int;
    assert forall|k: int| 0 <= k < n implies #[trigger] times[k] - times[0] <= CLUSTER_SECS by {
        assert(times.contains(times[k]));
        assert(times.contains(times[0]));
    }
    lemma_cluster_len_is(times, times[0], n);
    assert(times.contains(times[n - 1]));
    assert(times[i] <= times[n - 1]);
    assert(times.skip(n) =~= Seq::<u64>::empty());
    assert(cluster_ends(Seq::<u64>::empty()) =~= Seq::<u64>::empty());
    assert(cluster_ends(times) =~= seq![last]);
    reveal(Seq::filter);
    let keep = |t: u64| all_reached(lists, t);
    assert(seq![last].drop_last() =~= Seq::<u64>::empty());
    assert(Seq::<u64>::empty().filter(keep) =~= Seq::<u64>::empty());
    assert(seq![last].filter(keep) =~= seq![last]);
}

/// `t` is the time of a version.
pub open spec fn is_version_time(lists: Seq<Seq<VersionView>>, t: u64) -> bool {
    exists|f: int, i: int|
        0 <= f < lists.len() && 0 <= i < lists[f].len() && (#[trigger] lists[f][i]).lm == t
}

/// By the time `t` the file has a version.
pub open spec fn has_version_by(list: Seq<VersionView>, t: u64) -> bool {
    exists|i: int| 0 <= i < list.len() && (#[trigger] list[i]).lm <= t
}

/// By the time `t` every file has a version.
pub open spec fn can_show(lists: Seq<Seq<VersionView>>, t: u64) -> bool {
    forall|f: int| 0 <= f < lists.len() ==> has_version_by(#[trigger] lists[f], t)
}

/// Spans of at most 120 seconds, from early to late, that begin and end with the time of a
/// version, and that no two begin within 120 seconds of each other.
pub open spec fn are_spans(
    lists: Seq<Seq<VersionView>>,
    starts: Seq<u64>,
    ends: Seq<u64>,
) -> bool {
    &&& starts.len() == ends.len()
    &&& forall|k: int|
        0 <= k < starts.len() ==> {
            &&& is_version_time(lists, #[trigger] starts[k])
            &&& is_version_time(lists, ends[k])
            &&& starts[k] <= ends[k] <= starts[k] + 120
        }
    &&& forall|k: int, m: int|
        0 <= k < m < starts.len() ==> #[trigger] starts[k] + 120 < #[trigger] starts[m]
}

/// `t` is within one of the spans.
pub open spec fn is_within(starts: Seq<u64>, ends: Seq<u64>, t: u64) -> bool {
    exists|k: int| 0 <= k < starts.len() && #[trigger] starts[k] <= t <= ends[k]
}

/// What a timeline is: the times of all versions fall into spans, and the timeline is the ends of
/// those by which every file has a version.
pub open spec fn is_timeline_by(
    lists: Seq<Seq<VersionView>>,
    starts: Seq<u64>,
    ends: Seq<u64>,
    points: Seq<u64>,
) -> bool {
    &&& are_spans(lists, starts, ends)
    &&& forall|t: u64| is_version_time(lists, t) ==> #[trigger] is_within(starts, ends, t)
    &&& forall|p: u64| #[trigger] points.contains(p) <==> ends.contains(p) && can_show(lists, p)
    &&& forall|j: int, k: int|
        0 <= j < k < points.len() ==> #[trigger] points[j] < #[trigger] points[k]
}

proof fn lemma_all_times_are_version_times(lists: Seq<Seq<VersionView>>, t: u64)
    ensures
        all_times(lists).contains(t) <==> is_version_time(lists, t),
    decreases lists.len(),
{
    if lists.len() > 0 {
        let front = lists.drop_last();
        let last = lists.last();
        let n = all_times(front).len() as int;
        lemma_all_times_are_version_times(front, t);
        if all_times(lists).contains(t) {
            let k = choose|k: int| 0 <= k < all_times(lists).len() && all_times(lists)[k] == t;
            if k < n {
                assert(all_times(front)[k] == t);
                let (f, i) = choose|f: int, i: int|
                    0 <= f < front.len() && 0 <= i < front[f].len() && (#[trigger] front[f][i]).lm
                        == t;
                assert(lists[f][i].lm == t);
            } else {
                assert(lists[lists.len() - 1][k - n].lm == t);
            }
        }
        if is_version_time(lists, t) {
            let (f, i) = choose|f: int, i: int|
                0 <= f < lists.len() && 0 <= i < lists[f].len() && (#[trigger] lists[f][i]).lm == t;
            if f < front.len() {
                assert(front[f][i].lm == t);
                let k = choose|k: int| 0 <= k < all_times(front).len() && all_times(front)[k] == t;
                assert(all_times(lists)[k] == t);
            } else {
                assert(times_of(last)[i] == t);
                assert(all_times(lists)[n + i] == t);
            }
        }
    }
}

/// The beginnings of the clusters.
proof fn lemma_cluster_starts(times: Seq<u64>) -> (starts: Seq<u64>)
    requires
        is_ascending(times),
    ensures
        starts.len() == cluster_ends(times).len(),
        forall|k: int|
            0 <= k < starts.len() ==> times.contains(#[trigger] starts[k]) && starts[k]
                <= cluster_ends(times)[k] <= starts[k] + CLUSTER_SECS,
        forall|k: int, m: int|
            0 <= k < m < starts.len() ==> #[trigger] starts[k] + CLUSTER_SECS
                < #[trigger] starts[m],
        forall|t: u64|
            times.contains(t) ==> #[trigger] is_within(starts, cluster_ends(times), t),
        starts.len() > 0 ==> starts[0] == times[0],
    decreases times.len(),
{
    let ends = cluster_ends(times);
    if times.len() == 0 {
        Seq::empty()
    } else {
        let start = times[0];
        lemma_cluster_len(times, start);
        let n = cluster_len(times, start) as int;
        let rest = times.skip(n);
        assert(is_ascending(rest));
        let later = lemma_cluster_starts(rest);
        let starts = seq![start] + later;
        let later_ends = cluster_ends(rest);
        assert(ends =~= seq![times[n - 1]] + later_ends);
        assert(times[0] <= times[n - 1]);
        assert(times[n - 1] - start <= CLUSTER_SECS);
        assert forall|k: int| 0 <= k < starts.len() implies times.contains(#[trigger] starts[k])
            && starts[k] <= ends[k] <= starts[k] + CLUSTER_SECS by {
            if k > 0 {
                assert(starts[k] == later[k - 1]);
                assert(rest.contains(later[k - 1]));
                let i = choose|i: int| 0 <= i < rest.len() && rest[i] == later[k - 1];
                assert(times[n + i] == starts[k]);
                assert(ends[k] == later_ends[k - 1]);
            } else {
                assert(times[0] == starts[0]);
            }
        }
        assert forall|k: int, m: int| 0 <= k < m < starts.len() implies #[trigger] starts[k]
            + CLUSTER_SECS < #[trigger] starts[m] by {
            assert(starts[m] == later[m - 1]);
            if k > 0 {
                assert(starts[k] == later[k - 1]);
            } else {
                assert(rest.contains(later[m - 1]));
                let i = choose|i: int| 0 <= i < rest.len() && rest[i] == later[m - 1];
                assert(times[n] <= times[n + i]);
            }
        }
        assert forall|t: u64| times.contains(t) implies #[trigger] is_within(starts, ends, t) by {
            let i = choose|i: int| 0 <= i < times.len() && times[i] == t;
            if i < n {
                assert(times[0] <= times[i] <= times[n - 1]);
                assert(starts[0] <= t <= ends[0]);
            } else {
                assert(rest[i - n] == t);
                assert(rest.contains(t));
                assert(is_within(later, later_ends, t));
                let k = choose|k: int|
                    0 <= k < later.len() && #[trigger] later[k] <= t <= later_ends[k];
                assert(starts[k + 1] == later[k] && ends[k + 1] == later_ends[k]);
                assert(starts[k + 1] <= t <= ends[k + 1]);
            }
        }
        starts
    }
}

/// Where there are islands, the timeline is the ends of the spans that the times of all versions
/// fall into, from early to late and as far as every file has a version by then. Without islands
/// it is empty.
pub proof fn law_timeline_is_of_all_versions(lists: Seq<Seq<VersionView>>)
    ensures
        exists|starts: Seq<u64>, ends: Seq<u64>| #[trigger]
            is_timeline_by(lists, starts, ends, timeline(lists, true)),
        timeline(lists, false).len() == 0,
{
    let times = all_times(lists).sort_by(time_order());
    let points = timeline(lists, true);
    lemma_sorted_times(all_times(lists));
    let starts = lemma_cluster_starts(times);
    let ends = cluster_ends(times);
    assert forall|k: int| 0 <= k < starts.len() implies {
        &&& is_version_time(lists, #[trigger] starts[k])
        &&& is_version_time(lists, ends[k])
        &&& starts[k] <= ends[k] <= starts[k] + 120
    } by {
        assert(times.contains(starts[k]));
        lemma_all_times_are_version_times(lists, starts[k]);
        let i = lemma_cluster_ends_are_times(times, k);
        assert(times.contains(ends[k]));
        lemma_all_times_are_version_times(lists, ends[k]);
    }
    assert forall|t: u64| is_version_time(lists, t) implies #[trigger] is_within(starts, ends, t) by {
        lemma_all_times_are_version_times(lists, t);
        assert(times.contains(t));
    }
    assert forall|p: u64| #[trigger] points.contains(p) <==> ends.contains(p) && can_show(
        lists,
        p,
    ) by {
        lemma_timeline_point(lists, p);
        if can_show(lists, p) {
            assert forall|f: int| 0 <= f < lists.len() implies is_reached(#[trigger] lists[f], p) by {
                assert(has_version_by(lists[f], p));
            }
        }
        if all_reached(lists, p) {
            assert forall|f: int| 0 <= f < lists.len() implies has_version_by(
                #[trigger] lists[f],
                p,
            ) by {
                assert(is_reached(lists[f], p));
            }
        }
    }
    assert forall|j: int, k: int| 0 <= j < k < points.len() implies #[trigger] points[j]
        < #[trigger] points[k] by {
        law_timeline_ascends(lists, true, j, k);
    }
    assert(is_timeline_by(lists, starts, ends, points));
}

/// The timeline is of the versions of every file.
pub proof fn law_list_views_are_the_lists(per_file: Seq<Vec<Version>>, f: int, i: int)
    ensures
        list_views(per_file).len() == per_file.len(),
        0 <= f < per_file.len() ==> list_views(per_file)[f].len() == per_file[f]@.len(),
        0 <= f < per_file.len() && 0 <= i < per_file[f]@.len() ==> list_views(per_file)[f][i].lm
            == per_file[f]@[i].lm,
{
}

/// No version is left out of the timeline: where there are islands, and every file has a version by
/// the time of the version at `i` in the list of the file `f`, there is a point at that time or at
/// most 120 seconds after it.
pub proof fn law_no_version_is_left_out(lists: Seq<Seq<VersionView>>, f: int, i: int)
    requires
        0 <= f < lists.len(),
        0 <= i < lists[f].len(),
        can_show(lists, lists[f][i].lm),
    ensures
        exists|k: int|
            0 <= k < timeline(lists, true).len() && lists[f][i].lm <= #[trigger] timeline(
                lists,
                true,
            )[k] <= lists[f][i].lm + 120,
{
    let t = lists[f][i].lm;
    assert(is_version_time(lists, t));
    lemma_all_times_are_version_times(lists, t);
    assert forall|g: int| 0 <= g < lists.len() implies is_reached(#[trigger] lists[g], t) by {
        assert(has_version_by(lists[g], t));
    }
    law_timeline_covers_every_version(lists, t);
}

/// The times of all versions, from early to late.
fn sorted_times(per_file: &[Vec<Version>]) -> (times: Vec<u64>)
    ensures
        times@ == all_times(list_views(per_file@)).sort_by(time_order()),
        is_ascending(times@),
{
    let ghost lists = list_views(per_file@);
    let mut times: Vec<u64> = Vec::new();
    let mut f: usize = 0;
    assert(lists.take(0) =~= Seq::<Seq<VersionView>>::empty());
    while f < per_file.len()
        invariant
            f <= per_file@.len(),
            lists == list_views(per_file@),
            times@ == all_times(lists.take(f as int)),
        decreases per_file@.len() - f,
    {
        let versions = &per_file[f];
        let ghost before = times@;
        let mut i: usize = 0;
        assert(times@ =~= before + times_of(lists[f as int].take(0)));
        while i < versions.len()
            invariant
                i <= versions@.len(),
                lists[f as int] == views(versions@),
                times@ == before + times_of(lists[f as int].take(i as int)),
            decreases versions@.len() - i,
        {
            times.push(versions[i].lm);
            assert(times@ =~= before + times_of(lists[f as int].take(i + 1)));
            i = i + 1;
        }
        proof {
            assert(lists[f as int].take(i as int) =~= lists[f as int]);
            assert(lists.take(f + 1).drop_last() =~= lists.take(f as int));
            assert(lists.take(f + 1).last() == lists[f as int]);
        }
        f = f + 1;
    }
    assert(lists.take(f as int) =~= lists);
    let r = sorted(times);
    proof {
        lemma_time_order_is_total();
        times@.lemma_sort_by_ensures(time_order());
        assert(sorted_by(r@, time_order())) by {
            assert forall|i: int, j: int| 0 <= i < j < r@.len() implies #[trigger] time_order()(
                r@[i],
                r@[j],
            ) by {
                assert(r@[i].ranks_le(r@[j]));
            }
        }
        vstd::seq_lib::lemma_sorted_unique(r@, times@.sort_by(time_order()), time_order());
        lemma_sorted_times(times@);
    }
    r
}

/// The ends of the clusters that ascending times fall into.
fn ends_of_clusters(times: &Vec<u64>) -> (ends: Vec<u64>)
    requires
        is_ascending(times@),
    ensures
        ends@ == cluster_ends(times@),
{
    let ghost s = times@;
    let mut ends: Vec<u64> = Vec::new();
    if times.len() == 0 {
        return ends;
    }
    let mut start = times[0];
    ends.push(start);
    let ghost mut done: Seq<u64> = seq![];
    let ghost mut c: int = 0;
    let mut i: usize = 1;
    proof {
        assert(s.skip(0) =~= s);
        assert(done + cluster_ends(s) =~= cluster_ends(s));
        assert(ends@ =~= done.push(s[0]));
    }
    while i < times.len()
        invariant
            s == times@,
            is_ascending(s),
            0 <= c < i <= s.len(),
            start == s[c],
            forall|k: int| c <= k < i ==> #[trigger] s[k] - start <= CLUSTER_SECS,
            cluster_ends(s) == done + cluster_ends(s.skip(c)),
            ends@ == done.push(s[i - 1]),
        decreases s.len() - i,
    {
        let lm = times[i];
        assert(s[c] <= s[i as int]);
        if lm - start <= CLUSTER_SECS {
            let last = ends.len() - 1;
            ends.set(last, lm);
            assert(ends@ =~= done.push(s[i as int]));
        } else {
            proof {
                let rest = s.skip(c);
                lemma_cluster_len_is(rest, start, i - c);
                assert(rest.skip(i - c) =~= s.skip(i as int));
                assert(cluster_ends(rest) == seq![s[i - 1]] + cluster_ends(s.skip(i as int)));
                done = done.push(s[i - 1]);
                assert(cluster_ends(s) =~= done + cluster_ends(s.skip(i as int)));
                c = i as int;
            }
            start = lm;
            ends.push(lm);
            assert(ends@ =~= done.push(s[i as int]));
        }
        i = i + 1;
    }
    proof {
        let rest = s.skip(c);
        lemma_cluster_len_is(rest, start, rest.len() as int);
        assert(rest.skip(rest.len() as int) =~= Seq::<u64>::empty());
        assert(cluster_ends(Seq::<u64>::empty()) =~= Seq::<u64>::empty());
        assert(ends@ =~= cluster_ends(s));
    }
    ends
}

/// Whether every file has a version that is not after `t`.
fn every_file_reached(per_file: &[Vec<Version>], t: u64) -> (r: bool)
    ensures
        r == all_reached(list_views(per_file@), t),
{
    let ghost lists = list_views(per_file@);
    let mut f: usize = 0;
    while f < per_file.len()
        invariant
            f <= per_file@.len(),
            lists == list_views(per_file@),
            forall|g: int| 0 <= g < f ==> is_reached(#[trigger] lists[g], t),
        decreases per_file@.len() - f,
    {
        let versions = &per_file[f];
        let mut reached = false;
        let mut i: usize = 0;
        while i < versions.len() && !reached
            invariant
                i <= versions@.len(),
                lists[f as int] == views(versions@),
                reached ==> is_reached(lists[f as int], t),
                !reached ==> forall|k: int| 0 <= k < i ==> (#[trigger] lists[f as int][k]).lm > t,
            decreases versions@.len() - i,
        {
            assert(lists[f as int][i as int].lm == versions@[i as int].lm);
            if versions[i].lm <= t {
                reached = true;
            }
            i = i + 1;
        }
        if !reached {
            assert(!is_reached(lists[f as int], t));
            return false;
        }
        f = f + 1;
    }
    true
}

/// The timeline of an archive whose listings of the timeline files are `per_file`.
pub fn timeline_points(per_file: &[Vec<Version>], has_islands: bool) -> (points: Vec<u64>)
    ensures
        points@ == timeline(list_views(per_file@), has_islands),
{
    let mut points: Vec<u64> = Vec::new();
    if !has_islands {
        return points;
    }
    let times = sorted_times(per_file);
    let ends = ends_of_clusters(&times);
    let ghost keep = |t: u64| all_reached(list_views(per_file@), t);
    let mut i: usize = 0;
    proof {
        reveal(Seq::filter);
        assert(ends@.take(0) =~= Seq::<u64>::empty());
        assert(points@ =~= ends@.take(0).filter(keep));
    }
    while i < ends.len()
        invariant
            i <= ends@.len(),
            keep == (|t: u64| all_reached(list_views(per_file@), t)),
            points@ == ends@.take(i as int).filter(keep),
        decreases ends@.len() - i,
    {
        let p = ends[i];
        let ghost before = points@;
        if every_file_reached(per_file, p) {
            points.push(p);
        }
        proof {
            reveal(Seq::filter);
            assert(ends@.take(i + 1).drop_last() =~= ends@.take(i as int));
            assert(ends@.take(i + 1).last() == p);
        }
        i = i + 1;
    }
    assert(ends@.take(i as int) =~= ends@);
    points
}

} // verus!
