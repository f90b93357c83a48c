//! The configuration surface of the three conversions. The structs hold plain
//! values; an outer layer resolves them from the command line.

use vstd::prelude::*;
use vstd::string::StringExecFns;

verus! {

/// How the flat CSV represents an event's position: not at all, as X and Y
/// columns, or as a single pixel-number column.
#[derive(Clone, Copy, Debug, PartialEq, Eq, Structural)]
pub enum CoordMode {
    NoCoord,
    XY,
    PixelNum,
}

/// Settings of the flat CSV export.
pub struct CsvConfig {
    pub filename: String,
    pub include_polarity: bool,
    pub coords: CoordMode,
    pub offset_time: bool,
}

/// Settings of the time-windowed CSV export.
pub struct TimeWindowConfig {
    pub filename: String,
    pub include_both_column: bool,
    pub include_pgm: bool,
    pub window_size: u32,
    pub max_windows: u32,
    pub pgm_scale: usize,
    pub pgm_threshold: usize,
}

/// The header line of the windowed CSV: `On,Off`, a `Both` column when
/// requested, a `PGM_String` column when requested.
pub open spec fn time_window_header_chars(both: bool, pgm: bool) -> Seq<char> {
    "On,Off"@ + (if both {
        ",Both"@
    } else {
        Seq::<char>::empty()
    }) + (if pgm {
        ",PGM_String"@
    } else {
        Seq::<char>::empty()
    }) + "\n"@
}

impl TimeWindowConfig {
    /// Builds the header line that matches the configured columns.
    pub fn create_csv_header(&self) -> (h: String)
        ensures
            h@ == time_window_header_chars(self.include_both_column, self.include_pgm),
    {
        let mut header = String::from_str("On,Off");
        if self.include_both_column {
            header.append(",Both");
        }
        if self.include_pgm {
            header.append(",PGM_String");
        }
        header.append("\n");
        proof {
            assert(header@ =~= time_window_header_chars(
                self.include_both_column,
                self.include_pgm,
            ));
        }
        header
    }
}

/// Settings of the video reconstruction.
pub struct VidConfig {
    pub filename: String,
    pub window_size: usize,
    pub max_frames: usize,
    pub exclude_on: bool,
    pub exclude_off: bool,
    pub keep_frames: bool,
    pub omit_video: bool,
}

} // verus!
