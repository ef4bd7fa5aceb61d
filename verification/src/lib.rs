//! Row-scan multiplexing of an R×C grid of logical on/off outputs onto
//! R + C physical drive lines.
//!
//! The caller writes desired cell states into a grid of virtual pins; each
//! call to the scan-advance operation realizes exactly one row of that grid
//! onto the physical lines and moves a round-robin cursor to the next row.

pub mod driver;
pub mod mux;
