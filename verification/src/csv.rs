//! The flat CSV export: one data row per decoded event, with the columns the
//! configuration asks for.

use vstd::prelude::*;
use vstd::string::StringExecFns;

use crate::aedat_data::{CameraParameters, Event, polarity_of, timestamp_of, x_of, y_of};
use crate::cli_configs::{CoordMode, CsvConfig};
use crate::text::{dec_digits, dec_int, push_i64_decimal, push_u64_decimal};

verus! {

/// The polarity column of one row: `1,` for an ON event, `-1,` for OFF.
pub open spec fn polarity_chars(polarity: bool) -> Seq<char> {
    if polarity {
        "1,"@
    } else {
        "-1,"@
    }
}

/// The header line of the flat CSV under a configuration.
pub open spec fn csv_header_chars(include_polarity: bool, coords: CoordMode) -> Seq<char> {
    (if include_polarity {
        "On/Off,"@
    } else {
        Seq::<char>::empty()
    }) + (match coords {
        CoordMode::NoCoord => Seq::<char>::empty(),
        CoordMode::XY => "X,Y,"@,
        CoordMode::PixelNum => "Pixel Number,"@,
    }) + "Timestamp\n"@
}

/// The two coordinate columns of one row: `x,y,` in decimal.
pub open spec fn xy_chars(x: int, y: int) -> Seq<char> {
    dec_digits(x as nat) + ","@ + dec_digits(y as nat) + ","@
}

/// The single pixel number that stands for a coordinate pair: row-major over
/// the camera grid, counting from zero.
pub open spec fn pixel_number(x: int, y: int, cam_x: int) -> int {
    cam_x * (y - 1) + (x - 1)
}

/// The pixel-number column of one row.
pub open spec fn pn_chars(x: int, y: int, cam_x: int) -> Seq<char> {
    dec_digits(pixel_number(x, y, cam_x) as nat) + ","@
}

/// The coordinate columns of one row under a coordinate mode.
pub open spec fn coords_chars(e: Event, config: CsvConfig, cam: CameraParameters) -> Seq<char> {
    match config.coords {
        CoordMode::NoCoord => Seq::<char>::empty(),
        CoordMode::XY => xy_chars(x_of(e, cam.camera_type), y_of(e, cam.camera_type)),
        CoordMode::PixelNum => pn_chars(
            x_of(e, cam.camera_type),
            y_of(e, cam.camera_type),
            cam.camera_x as int,
        ),
    }
}

/// One whole data row for an event: polarity if asked for, then coordinates,
/// then the timestamp less the configured offset.
pub open spec fn csv_row_chars(
    e: Event,
    config: CsvConfig,
    cam: CameraParameters,
    time_offset: int,
) -> Seq<char> {
    (if config.include_polarity {
        polarity_chars(polarity_of(e, cam.camera_type))
    } else {
        Seq::<char>::empty()
    }) + coords_chars(e, config, cam) + dec_int(timestamp_of(e) - time_offset) + "\n"@
}

/// The offset subtracted from every timestamp: the first event's timestamp
/// when offsetting is on, so that the first row reads as zero.
pub open spec fn csv_time_offset(events: Seq<Event>, config: CsvConfig) -> int {
    if config.offset_time {
        timestamp_of(events[0])
    } else {
        0
    }
}

/// Rows are only defined where the pixel-number column cannot underflow: in
/// that mode every event has to decode inside the camera's grid.
pub open spec fn csv_rows_ok(events: Seq<Event>, config: CsvConfig, cam: CameraParameters) -> bool {
    config.coords is PixelNum ==> forall|k: int|
        0 <= k < events.len() ==> x_of(#[trigger] events[k], cam.camera_type) >= 1 && y_of(
            events[k],
            cam.camera_type,
        ) >= 1
}

/// The polarity column of one row.
pub fn format_polarity(polarity: bool) -> (s: String)
    ensures
        s@ == polarity_chars(polarity),
{
    if polarity {
        String::from_str("1,")
    } else {
        String::from_str("-1,")
    }
}

/// The header line of the flat CSV.
pub fn config_csv_header(config: &CsvConfig) -> (h: String)
    ensures
        h@ == csv_header_chars(config.include_polarity, config.coords),
{
    let mut header = String::new();
    if config.include_polarity {
        header.append("On/Off,");
    }
    match config.coords {
        CoordMode::NoCoord => {},
        CoordMode::XY => header.append("X,Y,"),
        CoordMode::PixelNum => header.append("Pixel Number,"),
    }
    header.append("Timestamp\n");
    proof {
        assert(header@ =~= csv_header_chars(config.include_polarity, config.coords));
    }
    header
}

/// The two coordinate columns for a decoded position.
pub fn format_coords_xy(x: u8, y: u8) -> (s: String)
    ensures
        s@ == xy_chars(x as int, y as int),
{
    let mut s = String::new();
    push_u64_decimal(&mut s, x as u64);
    s.append(",");
    push_u64_decimal(&mut s, y as u64);
    s.append(",");
    proof {
        assert(s@ =~= xy_chars(x as int, y as int));
    }
    s
}

/// The pixel-number column for a decoded position.
pub fn format_coords_pn(x: u8, y: u8, cam_x: u8) -> (s: String)
    requires
        x >= 1,
        y >= 1,
    ensures
        s@ == pn_chars(x as int, y as int, cam_x as int),
{
    proof {
        assert((cam_x as u32) * ((y - 1) as u32) <= 255 * 255) by (nonlinear_arith)
            requires
                cam_x as u32 <= 255 && (y - 1) as u32 <= 255,
        ;
    }
    let pn: u32 = (cam_x as u32) * ((y - 1) as u32) + ((x - 1) as u32);
    let mut s = String::new();
    push_u64_decimal(&mut s, pn as u64);
    s.append(",");
    proof {
        assert(s@ =~= pn_chars(x as int, y as int, cam_x as int));
    }
    s
}

/// Builds the data row of one event.
pub fn csv_row(event: &Event, config: &CsvConfig, cam: &CameraParameters, time_offset: i32) -> (s:
    String)
    requires
        cam.wf(),
        config.coords is PixelNum ==> x_of(*event, cam.camera_type) >= 1 && y_of(
            *event,
            cam.camera_type,
        ) >= 1,
    ensures
        s@ == csv_row_chars(*event, *config, *cam, time_offset as int),
{
    let mut s = String::new();
    if config.include_polarity {
        let polarity = event.get_polarity(&cam.camera_type);
        if polarity {
            s.append("1,");
        } else {
            s.append("-1,");
        }
    }
    let (x, y) = event.get_coords(&cam.camera_type);
    match config.coords {
        CoordMode::NoCoord => {},
        CoordMode::XY => {
            push_u64_decimal(&mut s, x as u64);
            s.append(",");
            push_u64_decimal(&mut s, y as u64);
            s.append(",");
        },
        CoordMode::PixelNum => {
            let pn: u32 = (cam.camera_x as u32) * ((y - 1) as u32) + ((x - 1) as u32);
            push_u64_decimal(&mut s, pn as u64);
            s.append(",");
        },
    }
    let t = event.get_timestamp();
    push_i64_decimal(&mut s, (t as i64) - (time_offset as i64));
    s.append("\n");
    proof {
        assert(s@ =~= csv_row_chars(*event, *config, *cam, time_offset as int));
    }
    s
}

/// Builds every data row of the flat CSV, in input order. When timestamps are
/// offset there must be a first event to take the offset from; the caller
/// rejects an empty recording in that case.
pub fn csv_rows(events: &Vec<Event>, config: &CsvConfig, cam: &CameraParameters) -> (rows: Vec<
    String,
>)
    requires
        cam.wf(),
        config.offset_time ==> events@.len() >= 1,
        csv_rows_ok(events@, *config, *cam),
    ensures
        rows.deep_view() == Seq::new(
            events@.len(),
            |k: int| csv_row_chars(events@[k], *config, *cam, csv_time_offset(events@, *config)),
        ),
{
    let time_offset: i32 = if config.offset_time {
        events[0].get_timestamp()
    } else {
        0
    };
    let mut rows: Vec<String> = Vec::new();
    let n = events.len();
    for k in 0..n
        invariant
            n == events@.len(),
            cam.wf(),
            csv_rows_ok(events@, *config, *cam),
            time_offset as int == csv_time_offset(events@, *config),
            rows.deep_view() =~= Seq::new(
                k as nat,
                |j: int| csv_row_chars(
                    events@[j],
                    *config,
                    *cam,
                    csv_time_offset(events@, *config),
                ),
            ),
    {
        let ghost prev = rows.deep_view();
        let row = csv_row(&events[k], config, cam, time_offset);
        rows.push(row);
        proof {
            assert(rows.deep_view() =~= prev.push(row@));
            assert(rows.deep_view() =~= Seq::new(
                (k + 1) as nat,
                |j: int| csv_row_chars(
                    events@[j],
                    *config,
                    *cam,
                    csv_time_offset(events@, *config),
                ),
            ));
        }
    }
    proof {
        assert(rows.deep_view() =~= Seq::new(
            events@.len(),
            |k: int| csv_row_chars(events@[k], *config, *cam, csv_time_offset(events@, *config)),
        ));
    }
    rows
}

} // verus!
