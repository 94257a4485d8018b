use nearest_led::matcher::{match_point, nearest_neighbor};
use nearest_led::nearest::nearest_index;
use nearest_led::records::{MatchResult, ReferenceMarker, TelemetryPoint};

fn point(x: f64, y: f64, date: &str, driver_number: i32) -> TelemetryPoint {
    TelemetryPoint { x: x.to_bits(), y: y.to_bits(), date: date.to_string(), driver_number }
}

fn marker(x: f64, y: f64, led_num: i32) -> ReferenceMarker {
    ReferenceMarker { x_led: x.to_bits(), y_led: y.to_bits(), led_num }
}

fn key_of(d: f64) -> Option<u64> {
    if d.is_finite() {
        Some(d.to_bits())
    } else {
        None
    }
}

fn keys(points: &[TelemetryPoint], markers: &[ReferenceMarker]) -> Vec<Vec<Option<u64>>> {
    points
        .iter()
        .map(|p| {
            markers
                .iter()
                .map(|m| {
                    let dx = f64::from_bits(p.x) - f64::from_bits(m.x_led);
                    let dy = f64::from_bits(p.y) - f64::from_bits(m.y_led);
                    key_of((dx.powi(2) + dy.powi(2)).sqrt())
                })
                .collect()
        })
        .collect()
}

fn run(points: Vec<TelemetryPoint>, markers: Vec<ReferenceMarker>) -> Vec<(f64, f64, String, i32, i32)> {
    let table = keys(&points, &markers);
    nearest_neighbor(&points, &markers, &table).iter().map(row).collect()
}

fn row(r: &MatchResult) -> (f64, f64, String, i32, i32) {
    (f64::from_bits(r.x), f64::from_bits(r.y), r.date.clone(), r.driver_number, r.led_num)
}

#[test]
fn equidistant_markers_pick_the_first() {
    let out = run(vec![point(0.0, 0.0, "d1", 7)], vec![marker(1.0, 0.0, 10), marker(0.0, 1.0, 20)]);
    assert_eq!(out, vec![(0.0, 0.0, "d1".to_string(), 7, 10)]);
}

#[test]
fn no_markers_give_no_rows() {
    let out = run(vec![point(5.0, 5.0, "d2", 3)], vec![]);
    assert!(out.is_empty());
}

#[test]
fn coincident_points_match_their_markers() {
    let out = run(
        vec![point(0.0, 0.0, "a", 1), point(10.0, 10.0, "b", 2)],
        vec![marker(0.0, 0.0, 100), marker(10.0, 10.0, 200)],
    );
    assert_eq!(
        out,
        vec![(0.0, 0.0, "a".to_string(), 1, 100), (10.0, 10.0, "b".to_string(), 2, 200)]
    );
}

#[test]
fn no_markers_give_no_rows_for_many_points() {
    let pts = vec![point(1.0, 2.0, "a", 1), point(-3.0, 4.5, "b", 2), point(0.0, 0.0, "c", 3)];
    assert!(run(pts, vec![]).is_empty());
}

#[test]
fn nearest_is_smallest_distance() {
    let out = run(
        vec![point(2.0, 2.0, "t", 44)],
        vec![marker(10.0, 10.0, 1), marker(3.0, 2.5, 2), marker(-1.0, 2.0, 3)],
    );
    assert_eq!(out, vec![(2.0, 2.0, "t".to_string(), 44, 2)]);
}

#[test]
fn later_equal_marker_is_not_chosen() {
    let out = run(
        vec![point(0.0, 0.0, "t", 1)],
        vec![marker(5.0, 0.0, 1), marker(0.0, 2.0, 2), marker(-2.0, 0.0, 3), marker(0.0, -2.0, 4)],
    );
    assert_eq!(out[0].4, 2);
}

#[test]
fn fields_are_carried_unchanged() {
    let x = 0.1 + 0.2;
    let y = -1.0e-300;
    let out = nearest_neighbor(
        &vec![point(x, y, "2023-09-17T12:00:00.123+00:00", 81)],
        &vec![marker(0.0, 0.0, 9)],
        &vec![vec![Some(1.0f64.to_bits())]],
    );
    assert_eq!(out.len(), 1);
    assert_eq!(out[0].x, x.to_bits());
    assert_eq!(out[0].y, y.to_bits());
    assert_eq!(out[0].date, "2023-09-17T12:00:00.123+00:00");
    assert_eq!(out[0].driver_number, 81);
    assert_eq!(out[0].led_num, 9);
}

#[test]
fn rows_keep_point_order_and_skip_points_without_candidates() {
    let pts = vec![point(0.0, 0.0, "a", 1), point(1.0, 1.0, "b", 2), point(2.0, 2.0, "c", 3)];
    let mks = vec![marker(0.0, 0.0, 10), marker(2.0, 2.0, 20)];
    let table = vec![
        vec![Some(4), Some(9)],
        vec![None, None],
        vec![Some(8), Some(1)],
    ];
    let out: Vec<_> = nearest_neighbor(&pts, &mks, &table).iter().map(row).collect();
    assert_eq!(out, vec![(0.0, 0.0, "a".to_string(), 1, 10), (2.0, 2.0, "c".to_string(), 3, 20)]);
}

#[test]
fn repeated_runs_agree() {
    let pts = vec![point(0.5, 0.5, "a", 1), point(7.0, -2.0, "b", 2), point(3.0, 3.0, "c", 3)];
    let mks = vec![marker(1.0, 1.0, 5), marker(0.0, 0.0, 6), marker(6.0, -1.0, 7)];
    let first = run(pts.clone(), mks.clone());
    let second = run(pts, mks);
    assert_eq!(first, second);
    assert_eq!(first.len(), 3);
}

#[test]
fn nan_distance_is_never_chosen() {
    let out = run(
        vec![point(0.0, 0.0, "n", 1)],
        vec![marker(f64::NAN, 0.0, 1), marker(3.0, 4.0, 2), marker(f64::NAN, f64::NAN, 3)],
    );
    assert_eq!(out, vec![(0.0, 0.0, "n".to_string(), 1, 2)]);
}

#[test]
fn nan_point_gets_no_row() {
    let out = run(
        vec![point(f64::NAN, 0.0, "n", 1), point(1.0, 1.0, "m", 2)],
        vec![marker(0.0, 0.0, 1), marker(1.0, 1.0, 2)],
    );
    assert_eq!(out, vec![(1.0, 1.0, "m".to_string(), 2, 2)]);
}

#[test]
fn infinite_distance_is_never_chosen() {
    let out = run(vec![point(0.0, 0.0, "i", 1)], vec![marker(f64::INFINITY, 0.0, 1)]);
    assert!(out.is_empty());
}

#[test]
fn single_marker_is_always_chosen() {
    let out = run(vec![point(-100.0, 250.0, "s", 5)], vec![marker(1.0e6, -1.0e6, 42)]);
    assert_eq!(out, vec![(-100.0, 250.0, "s".to_string(), 5, 42)]);
}

#[test]
fn nearest_index_cases() {
    assert_eq!(nearest_index(&vec![]), None);
    assert_eq!(nearest_index(&vec![None, None]), None);
    assert_eq!(nearest_index(&vec![Some(5)]), Some(0));
    assert_eq!(nearest_index(&vec![Some(5), None, Some(3), Some(3)]), Some(2));
    assert_eq!(nearest_index(&vec![None, Some(u64::MAX), Some(0)]), Some(2));
    assert_eq!(nearest_index(&vec![Some(0), Some(0)]), Some(0));
}

#[test]
fn match_point_joins_with_nearest_marker() {
    let p = point(1.5, -2.5, "x", 16);
    let mks = vec![marker(0.0, 0.0, 3), marker(1.0, 1.0, 4)];
    let r = match_point(&p, &mks, &vec![Some(7), Some(2)]).unwrap();
    assert_eq!(row(&r), (1.5, -2.5, "x".to_string(), 16, 4));
    assert!(match_point(&p, &mks, &vec![None, None]).is_none());
}

#[test]
fn join_copies_fields() {
    let p = point(3.25, 4.75, "when", 22);
    let r = MatchResult::join(&p, 17);
    assert_eq!(row(&r), (3.25, 4.75, "when".to_string(), 22, 17));
}
