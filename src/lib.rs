// Nearest-marker matching of telemetry points: each point is joined with the
// marker at the smallest distance, the earliest marker winning a tie.
pub mod laws;
pub mod matcher;
pub mod nearest;
pub mod records;
