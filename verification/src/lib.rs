//! Tools for working with AEDAT recordings from event-based vision sensors:
//! locating the end of the ASCII header, decoding the fixed-size binary event
//! records, and turning the decoded event stream into CSV rows, time-windowed
//! aggregates with an optional downsampled raster, or reconstructed frames.

use vstd::prelude::*;

pub mod aedat_data;
pub mod aedat_header_tools;
pub mod cli_configs;
pub mod csv;
pub mod text;
pub mod time_window_csv;
pub mod video;
pub mod write_buffer;

verus! {

/// The error kinds that the conversion routines report.
///
/// `NotFound` covers a missing header sentinel or camera marker, `EmptyInput`
/// an event sequence with no first timestamp to anchor a window, and
/// `OutOfRange` a pixel coordinate outside the configured grid.
#[derive(Clone, Copy, Debug, PartialEq, Eq, Structural)]
pub enum AedatError {
    NotFound,
    EmptyInput,
    OutOfRange,
}

} // verus!
