use vstd::prelude::*;

use crate::nearest::{nearest, nearest_index};
use crate::records::{joined, MatchResult, ReferenceMarker, TelemetryPoint};

verus! {

/// The distance keys as a table of plain sequences: `keys[i][j]` belongs to
/// telemetry point `i` and marker `j`.
pub open spec fn key_table(keys: Seq<Vec<Option<u64>>>) -> Seq<Seq<Option<u64>>> {
    keys.map_values(|row: Vec<Option<u64>>| row@)
}

/// The table has a row for each point and a key for each marker in each row.
pub open spec fn table_fits(n_points: int, n_markers: int, keys: Seq<Seq<Option<u64>>>) -> bool {
    &&& keys.len() == n_points
    &&& forall|i: int| 0 <= i < keys.len() ==> #[trigger] keys[i].len() == n_markers
}

/// The output row of point `p` whose keys are `row`, if it has a nearest marker.
pub open spec fn matched_row(
    p: TelemetryPoint,
    markers: Seq<ReferenceMarker>,
    row: Seq<Option<u64>>,
) -> Seq<MatchResult> {
    match nearest(row) {
        Some(j) => seq![joined(p, markers[j].led_num)],
        None => seq![],
    }
}

/// The output for the first `n` points, in their order.
pub open spec fn matched_prefix(
    points: Seq<TelemetryPoint>,
    markers: Seq<ReferenceMarker>,
    keys: Seq<Seq<Option<u64>>>,
    n: int,
) -> Seq<MatchResult>
    decreases n,
{
    if n <= 0 {
        seq![]
    } else {
        matched_prefix(points, markers, keys, n - 1) + matched_row(points[n - 1], markers, keys[n - 1])
    }
}

/// The output for all points.
pub open spec fn matched(
    points: Seq<TelemetryPoint>,
    markers: Seq<ReferenceMarker>,
    keys: Seq<Seq<Option<u64>>>,
) -> Seq<MatchResult> {
    matched_prefix(points, markers, keys, points.len() as int)
}

/// Joins `point` with its nearest marker, given the keys of its distances to `markers`.
pub fn match_point(
    point: &TelemetryPoint,
    markers: &Vec<ReferenceMarker>,
    keys: &Vec<Option<u64>>,
) -> (r: Option<MatchResult>)
    requires
        keys@.len() == markers@.len(),
    ensures
        r is Some <==> nearest(keys@) is Some,
        r matches Some(m) ==> seq![m] == matched_row(*point, markers@, keys@),
        r is None ==> matched_row(*point, markers@, keys@) == Seq::<MatchResult>::empty(),
{
    match nearest_index(keys) {
        Some(j) => Some(MatchResult::join(point, markers[j].led_num)),
        None => None,
    }
}

/// Joins each point that has a candidate marker with its nearest marker, in the
/// order of the points. `keys[i][j]` is the key of the distance from point `i`
/// to marker `j`.
pub fn nearest_neighbor(
    points: &Vec<TelemetryPoint>,
    markers: &Vec<ReferenceMarker>,
    keys: &Vec<Vec<Option<u64>>>,
) -> (r: Vec<MatchResult>)
    requires
        table_fits(points@.len() as int, markers@.len() as int, key_table(keys@)),
    ensures
        r@ == matched(points@, markers@, key_table(keys@)),
{
    let ghost table = key_table(keys@);
    let mut results: Vec<MatchResult> = Vec::new();
    let mut i: usize = 0;
    while i < points.len()
        invariant
            0 <= i <= points@.len(),
            table == key_table(keys@),
            table_fits(points@.len() as int, markers@.len() as int, table),
            results@ == matched_prefix(points@, markers@, table, i as int),
        decreases points@.len() - i,
    {
        assert(table[i as int] == keys@[i as int]@);
        assert(table[i as int].len() == markers@.len());
        if let Some(m) = match_point(&points[i], markers, &keys[i]) {
            results.push(m);
        }
        i = i + 1;
    }
    results
}

} // verus!
