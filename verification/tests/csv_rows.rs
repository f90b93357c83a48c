use aedat_utilities::aedat_data::{CameraParameters, CameraType, Event};
use aedat_utilities::cli_configs::{CoordMode, CsvConfig, TimeWindowConfig};
use aedat_utilities::csv::{
    config_csv_header, csv_row, csv_rows, format_coords_pn, format_coords_xy, format_polarity,
};

fn csv_config(include_polarity: bool, coords: CoordMode, offset_time: bool) -> CsvConfig {
    CsvConfig {
        filename: String::from("out.csv"),
        include_polarity,
        coords,
        offset_time,
    }
}

#[test]
fn csv_headers() {
    assert_eq!(
        config_csv_header(&csv_config(true, CoordMode::XY, false)),
        "On/Off,X,Y,Timestamp\n"
    );
    assert_eq!(
        config_csv_header(&csv_config(false, CoordMode::PixelNum, false)),
        "Pixel Number,Timestamp\n"
    );
    assert_eq!(
        config_csv_header(&csv_config(true, CoordMode::NoCoord, false)),
        "On/Off,Timestamp\n"
    );
}

#[test]
fn window_csv_headers() {
    let mut config = TimeWindowConfig {
        filename: String::from("out.csv"),
        include_both_column: false,
        include_pgm: false,
        window_size: 100,
        max_windows: 10,
        pgm_scale: 1,
        pgm_threshold: 0,
    };
    assert_eq!(config.create_csv_header(), "On,Off\n");
    config.include_both_column = true;
    assert_eq!(config.create_csv_header(), "On,Off,Both\n");
    config.include_pgm = true;
    assert_eq!(config.create_csv_header(), "On,Off,Both,PGM_String\n");
    config.include_both_column = false;
    assert_eq!(config.create_csv_header(), "On,Off,PGM_String\n");
}

#[test]
fn csv_formatters() {
    assert_eq!(format_polarity(true), "1,");
    assert_eq!(format_polarity(false), "-1,");
    assert_eq!(format_coords_xy(13, 72), "13,72,");
    // Pixel number is width * (y - 1) + (x - 1).
    assert_eq!(format_coords_pn(13, 72, 128), "9100,");
    assert_eq!(format_coords_pn(1, 1, 240), "0,");
}

#[test]
fn csv_row_modes() {
    let cam = CameraParameters::new(CameraType::DVS128);
    let e = Event {
        bytes: [0, 0, 56, 231, 156, 86, 232, 205],
    };
    assert_eq!(
        csv_row(&e, &csv_config(true, CoordMode::XY, false), &cam, 0),
        "1,13,72,-1672025907\n"
    );
    assert_eq!(
        csv_row(&e, &csv_config(false, CoordMode::PixelNum, false), &cam, 0),
        "9100,-1672025907\n"
    );
    assert_eq!(
        csv_row(&e, &csv_config(true, CoordMode::NoCoord, false), &cam, 0),
        "1,-1672025907\n"
    );
}

#[test]
fn csv_rows_offset_time() {
    let cam = CameraParameters::new(CameraType::DVS128);
    // Two events, timestamps 1000 and 1500; offsetting makes the first read 0.
    let e1 = Event {
        bytes: [0, 0, 127, 2, 0, 0, 0x03, 0xe8],
    };
    let e2 = Event {
        bytes: [0, 0, 127, 3, 0, 0, 0x05, 0xdc],
    };
    let events = vec![e1, e2];
    let rows = csv_rows(&events, &csv_config(true, CoordMode::XY, true), &cam);
    assert_eq!(rows, vec!["-1,127,1,0\n".to_string(), "1,127,1,500\n".to_string()]);
}

#[test]
fn csv_rows_empty_without_offset() {
    let cam = CameraParameters::new(CameraType::DVS128);
    let events: Vec<Event> = Vec::new();
    let rows = csv_rows(&events, &csv_config(true, CoordMode::XY, false), &cam);
    assert_eq!(rows.len(), 0);
}
