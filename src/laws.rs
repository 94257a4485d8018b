use vstd::prelude::*;

use crate::matcher::{matched, matched_prefix, matched_row, table_fits};
use crate::nearest::{has_candidate, is_nearest, lemma_nearest_exists, lemma_nearest_unique, nearest};
use crate::records::{joined, MatchResult, ReferenceMarker, TelemetryPoint};

verus! {

/// How many of the first `n` points have a nearest marker.
pub open spec fn matched_count(keys: Seq<Seq<Option<u64>>>, n: int) -> int
    decreases n,
{
    if n <= 0 {
        0
    } else {
        matched_count(keys, n - 1) + if nearest(keys[n - 1]) is Some {
            1int
        } else {
            0int
        }
    }
}

proof fn lemma_count_monotone(keys: Seq<Seq<Option<u64>>>, a: int, b: int)
    requires
        0 <= a <= b,
    ensures
        matched_count(keys, a) <= matched_count(keys, b),
        a < b && nearest(keys[a]) is Some ==> matched_count(keys, a) < matched_count(keys, b),
    decreases b - a,
{
    if a < b {
        lemma_count_monotone(keys, a, b - 1);
    }
}

/// The first `n` points give `matched_count(keys, n)` rows, and point `i`, if it has
/// a nearest marker `j`, gives the row at position `matched_count(keys, i)`.
proof fn lemma_prefix_rows(
    points: Seq<TelemetryPoint>,
    markers: Seq<ReferenceMarker>,
    keys: Seq<Seq<Option<u64>>>,
    n: int,
)
    requires
        0 <= n <= points.len(),
        n <= keys.len(),
    ensures
        matched_prefix(points, markers, keys, n).len() == matched_count(keys, n),
        forall|i: int|
            #![trigger nearest(keys[i])]
            0 <= i < n && nearest(keys[i]) is Some ==> matched_prefix(points, markers, keys, n)[matched_count(keys, i)]
                == joined(points[i], markers[nearest(keys[i])->0].led_num),
    decreases n,
{
    if n > 0 {
        lemma_prefix_rows(points, markers, keys, n - 1);
        let pre = matched_prefix(points, markers, keys, n - 1);
        let all = matched_prefix(points, markers, keys, n);
        assert(all == pre + matched_row(points[n - 1], markers, keys[n - 1]));
        assert forall|i: int|
            #![trigger nearest(keys[i])]
            0 <= i < n && nearest(keys[i]) is Some implies all[matched_count(keys, i)] == joined(
                points[i],
                markers[nearest(keys[i])->0].led_num,
            ) by {
            lemma_count_monotone(keys, 0, i);
            if i < n - 1 {
                lemma_count_monotone(keys, i, n - 1);
                assert(all[matched_count(keys, i)] == pre[matched_count(keys, i)]);
            } else {
                assert(all[matched_count(keys, i)] == matched_row(points[n - 1], markers, keys[n - 1])[0]);
            }
        }
    }
}

/// The output rows are fixed by the inputs: two results that both meet the
/// contract of `nearest_neighbor` are equal, and no point has two nearest markers.
pub proof fn law_deterministic(
    points: Seq<TelemetryPoint>,
    markers: Seq<ReferenceMarker>,
    keys: Seq<Seq<Option<u64>>>,
    first: Seq<MatchResult>,
    second: Seq<MatchResult>,
)
    requires
        first == matched(points, markers, keys),
        second == matched(points, markers, keys),
    ensures
        first == second,
        forall|i: int, a: int, b: int|
            0 <= i < keys.len() && is_nearest(keys[i], a) && is_nearest(keys[i], b) ==> a == b,
{
    assert forall|i: int, a: int, b: int|
        0 <= i < keys.len() && is_nearest(keys[i], a) && is_nearest(keys[i], b) implies a == b by {
        lemma_nearest_unique(keys[i], a, b);
    }
}

/// The rows come in the order of their points: one row for each point that has a
/// candidate marker, the row of point `i` at the position that counts the matched
/// points before it, and a point is skipped exactly when it has no candidate.
pub proof fn law_order_preserved(
    points: Seq<TelemetryPoint>,
    markers: Seq<ReferenceMarker>,
    keys: Seq<Seq<Option<u64>>>,
)
    requires
        table_fits(points.len() as int, markers.len() as int, keys),
    ensures
        matched(points, markers, keys).len() == matched_count(keys, points.len() as int),
        forall|i: int|
            0 <= i < points.len() ==> (nearest(#[trigger] keys[i]) is Some <==> has_candidate(keys[i])),
        forall|i: int, k: int|
            0 <= i < k < points.len() && nearest(keys[i]) is Some ==> #[trigger] matched_count(keys, i)
                < #[trigger] matched_count(keys, k),
        forall|i: int|
            0 <= i < points.len() && nearest(#[trigger] keys[i]) is Some ==> matched(points, markers, keys)[matched_count(keys, i)]
                == joined(points[i], markers[nearest(keys[i])->0].led_num),
{
    lemma_prefix_rows(points, markers, keys, points.len() as int);
    assert forall|i: int| 0 <= i < points.len() implies (nearest(#[trigger] keys[i]) is Some
        <==> has_candidate(keys[i])) by {
        lemma_nearest_exists(keys[i]);
    }
    assert forall|i: int, k: int|
        0 <= i < k < points.len() && nearest(keys[i]) is Some implies #[trigger] matched_count(keys, i)
            < #[trigger] matched_count(keys, k) by {
        lemma_count_monotone(keys, i, k);
    }
}

/// The marker of every row is at least as near to its point as every marker whose
/// distance is comparable.
pub proof fn law_minimal(
    points: Seq<TelemetryPoint>,
    markers: Seq<ReferenceMarker>,
    keys: Seq<Seq<Option<u64>>>,
)
    requires
        table_fits(points.len() as int, markers.len() as int, keys),
    ensures
        forall|i: int|
            0 <= i < points.len() && nearest(#[trigger] keys[i]) is Some ==> {
                let j = nearest(keys[i])->0;
                &&& 0 <= j < markers.len()
                &&& matched(points, markers, keys)[matched_count(keys, i)].led_num == markers[j].led_num
                &&& forall|k: int|
                    0 <= k < markers.len() && keys[i][k] is Some ==> keys[i][j]->0 <= keys[i][k]->0
            },
{
    lemma_prefix_rows(points, markers, keys, points.len() as int);
    assert forall|i: int| 0 <= i < points.len() && nearest(#[trigger] keys[i]) is Some implies {
        let j = nearest(keys[i])->0;
        &&& 0 <= j < markers.len()
        &&& matched(points, markers, keys)[matched_count(keys, i)].led_num == markers[j].led_num
        &&& forall|k: int|
            0 <= k < markers.len() && keys[i][k] is Some ==> keys[i][j]->0 <= keys[i][k]->0
    } by {
        lemma_nearest_exists(keys[i]);
    }
}

/// Of two markers at the same distance from a point, the later one is never chosen.
pub proof fn law_tie_break(keys: Seq<Option<u64>>, a: int, b: int)
    requires
        0 <= a < b < keys.len(),
        keys[a] is Some,
        keys[a] == keys[b],
    ensures
        nearest(keys) != Some(b),
{
    lemma_nearest_exists(keys);
}

/// With no markers, no point has a candidate and the output is empty.
pub proof fn law_empty_markers(
    points: Seq<TelemetryPoint>,
    markers: Seq<ReferenceMarker>,
    keys: Seq<Seq<Option<u64>>>,
)
    requires
        markers.len() == 0,
        table_fits(points.len() as int, markers.len() as int, keys),
    ensures
        matched(points, markers, keys) == Seq::<MatchResult>::empty(),
{
    assert forall|n: int| 0 <= n <= points.len() implies matched_prefix(points, markers, keys, n)
        == Seq::<MatchResult>::empty() by {
        lemma_empty_prefix(points, markers, keys, n);
    }
}

proof fn lemma_empty_prefix(
    points: Seq<TelemetryPoint>,
    markers: Seq<ReferenceMarker>,
    keys: Seq<Seq<Option<u64>>>,
    n: int,
)
    requires
        markers.len() == 0,
        table_fits(points.len() as int, markers.len() as int, keys),
        0 <= n <= points.len(),
    ensures
        matched_prefix(points, markers, keys, n) == Seq::<MatchResult>::empty(),
    decreases n,
{
    if n > 0 {
        lemma_empty_prefix(points, markers, keys, n - 1);
        assert(keys[n - 1].len() == 0);
        lemma_nearest_exists(keys[n - 1]);
        assert(matched_prefix(points, markers, keys, n) =~= Seq::<MatchResult>::empty());
    }
}

/// `row` carries the fields of `p` unchanged.
pub open spec fn carries(row: MatchResult, p: TelemetryPoint) -> bool {
    &&& row.x == p.x
    &&& row.y == p.y
    &&& row.date == p.date
    &&& row.driver_number == p.driver_number
}

/// Every row carries `x`, `y`, `date` and `driver_number` of a point unchanged.
pub proof fn law_fields_pass_through(
    points: Seq<TelemetryPoint>,
    markers: Seq<ReferenceMarker>,
    keys: Seq<Seq<Option<u64>>>,
)
    requires
        table_fits(points.len() as int, markers.len() as int, keys),
    ensures
        forall|k: int|
            0 <= k < matched(points, markers, keys).len() ==> exists|i: int|
                0 <= i < points.len() && carries(
                    #[trigger] matched(points, markers, keys)[k],
                    #[trigger] points[i],
                ),
{
    lemma_rows_from_points(points, markers, keys, points.len() as int);
}

proof fn lemma_rows_from_points(
    points: Seq<TelemetryPoint>,
    markers: Seq<ReferenceMarker>,
    keys: Seq<Seq<Option<u64>>>,
    n: int,
)
    requires
        0 <= n <= points.len(),
    ensures
        forall|k: int|
            0 <= k < matched_prefix(points, markers, keys, n).len() ==> exists|i: int|
                0 <= i < n && carries(
                    #[trigger] matched_prefix(points, markers, keys, n)[k],
                    #[trigger] points[i],
                ),
    decreases n,
{
    if n > 0 {
        lemma_rows_from_points(points, markers, keys, n - 1);
        let pre = matched_prefix(points, markers, keys, n - 1);
        let all = matched_prefix(points, markers, keys, n);
        assert forall|k: int| 0 <= k < all.len() implies exists|i: int|
            0 <= i < n && carries(#[trigger] all[k], #[trigger] points[i]) by {
            if k < pre.len() {
                assert(all[k] == pre[k]);
                let i = choose|i: int| 0 <= i < n - 1 && carries(#[trigger] pre[k], #[trigger] points[i]);
                assert(carries(all[k], points[i]));
            } else {
                assert(all[k] == matched_row(points[n - 1], markers, keys[n - 1])[0]);
                assert(carries(all[k], points[n - 1]));
            }
        }
    }
}

} // verus!
