//! Verified core of the wavepool sailplane simulator: the batching of
//! telemetry records into numbered output files, the flight recorder that
//! owns one such channel per telemetry stream, and the wall-clock benchmark.
//! The floating-point flight physics lives in the companion application.

pub mod decimal;
pub mod log;
pub mod telemetry;
pub mod time;
