//! Recovery of the GPS telemetry that Novatek dashcams embed as fixed-layout
//! binary records in their MP4 files: validation and decoding of one record,
//! calendar timestamps, and the ordering of the records gathered over a run.

pub mod datetime;
pub mod novatek_gps;
pub mod opts;
pub mod track;
