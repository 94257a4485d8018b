use vstd::prelude::*;

verus! {

/// One telemetry sample. The coordinates are IEEE-754 `f64` values held as
/// their bit patterns (`f64::to_bits`), so they are carried through unchanged.
#[derive(Clone, Debug)]
pub struct TelemetryPoint {
    pub x: u64,
    pub y: u64,
    pub date: String,
    pub driver_number: i32,
}

/// One fixed marker. The coordinates are `f64` bit patterns, as in `TelemetryPoint`.
#[derive(Clone, Copy, Debug, PartialEq, Eq, Structural)]
pub struct ReferenceMarker {
    pub x_led: u64,
    pub y_led: u64,
    pub led_num: i32,
}

/// One output row: a telemetry sample joined with the number of its nearest marker.
#[derive(Clone, Debug)]
pub struct MatchResult {
    pub x: u64,
    pub y: u64,
    pub date: String,
    pub driver_number: i32,
    pub led_num: i32,
}

/// The row that joins `p` with the marker number `led_num`.
pub open spec fn joined(p: TelemetryPoint, led_num: i32) -> MatchResult {
    MatchResult { x: p.x, y: p.y, date: p.date, driver_number: p.driver_number, led_num }
}

impl MatchResult {
    /// Copies the fields of `point` and adds `led_num`.
    pub fn join(point: &TelemetryPoint, led_num: i32) -> (r: MatchResult)
        ensures
            r == joined(*point, led_num),
    {
        MatchResult {
            x: point.x,
            y: point.y,
            date: point.date.clone(),
            driver_number: point.driver_number,
            led_num,
        }
    }
}

} // verus!
