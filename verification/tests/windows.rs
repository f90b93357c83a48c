use aedat_utilities::aedat_data::{CameraParameters, CameraType, Event};
use aedat_utilities::cli_configs::TimeWindowConfig;
use aedat_utilities::time_window_csv::aggregate_windows;
use aedat_utilities::AedatError;

/// A DVS128 record with the given 1-based coordinates, polarity and a small
/// non-negative timestamp.
fn dvs_event(x: u8, y: u8, polarity: bool, ts: u32) -> Event {
    let byte2 = 128 - y;
    let byte3 = ((128 - x) << 1) | (polarity as u8);
    Event {
        bytes: [
            0,
            0,
            byte2,
            byte3,
            (ts >> 24) as u8,
            (ts >> 16) as u8,
            (ts >> 8) as u8,
            ts as u8,
        ],
    }
}

fn window_config(window_size: u32, max_windows: u32, both: bool, pgm: bool) -> TimeWindowConfig {
    TimeWindowConfig {
        filename: String::from("out.csv"),
        include_both_column: both,
        include_pgm: pgm,
        window_size,
        max_windows,
        pgm_scale: 64,
        pgm_threshold: 1,
    }
}

#[test]
fn windows_counts_and_trailing_partial_dropped() {
    let cam = CameraParameters::new(CameraType::DVS128);
    // First window anchored at 0 + 100; events 0,10,20 fill it; 150 closes it
    // and lands in the next window (end 200); 250 closes that one; the final
    // event at 250 stays in a window that never closes.
    let events = vec![
        dvs_event(1, 1, true, 0),
        dvs_event(2, 2, false, 10),
        dvs_event(3, 3, true, 20),
        dvs_event(4, 4, true, 150),
        dvs_event(5, 5, false, 250),
    ];
    let config = window_config(100, u32::MAX, false, false);
    let rows = aggregate_windows(&events, &config, &cam).unwrap();
    assert_eq!(rows, vec!["2,1\n".to_string(), "1,0\n".to_string()]);
}

#[test]
fn windows_both_column() {
    let cam = CameraParameters::new(CameraType::DVS128);
    let events = vec![
        dvs_event(1, 1, true, 0),
        dvs_event(2, 2, false, 10),
        dvs_event(3, 3, true, 20),
        dvs_event(4, 4, true, 150),
    ];
    let config = window_config(100, u32::MAX, true, false);
    let rows = aggregate_windows(&events, &config, &cam).unwrap();
    assert_eq!(rows, vec!["2,1,3\n".to_string()]);
}

#[test]
fn windows_pgm_column_escaped() {
    let cam = CameraParameters::new(CameraType::DVS128);
    // Scale 64 gives a 2x2 raster. Both events of the first window land in
    // the top-left bucket; with threshold 1 it reads 1, the rest 0.
    let events = vec![
        dvs_event(1, 1, true, 0),
        dvs_event(64, 64, false, 10),
        dvs_event(100, 100, true, 150),
    ];
    let config = window_config(100, u32::MAX, false, true);
    let rows = aggregate_windows(&events, &config, &cam).unwrap();
    assert_eq!(rows, vec!["1,1,P2-2 2-1-1 0-0 0-\n".to_string()]);
}

#[test]
fn windows_empty_input() {
    let cam = CameraParameters::new(CameraType::DVS128);
    let events: Vec<Event> = Vec::new();
    let config = window_config(100, u32::MAX, false, false);
    assert_eq!(
        aggregate_windows(&events, &config, &cam),
        Err(AedatError::EmptyInput)
    );
}

#[test]
fn windows_max_cap_stops_early() {
    let cam = CameraParameters::new(CameraType::DVS128);
    let events = vec![
        dvs_event(1, 1, true, 0),
        dvs_event(1, 1, true, 150),
        dvs_event(1, 1, true, 300),
        dvs_event(1, 1, true, 450),
    ];
    // Every later event closes a window; the cap of 2 ends the run after the
    // second close, its row already emitted.
    let config = window_config(100, 2, false, false);
    let rows = aggregate_windows(&events, &config, &cam).unwrap();
    assert_eq!(rows, vec!["1,0\n".to_string(), "1,0\n".to_string()]);
}

#[test]
fn windows_rerun_is_identical() {
    let cam = CameraParameters::new(CameraType::DVS128);
    let events = vec![
        dvs_event(1, 1, true, 0),
        dvs_event(30, 40, false, 10),
        dvs_event(64, 64, true, 150),
        dvs_event(100, 2, false, 260),
        dvs_event(5, 5, true, 270),
    ];
    let config = window_config(100, u32::MAX, true, true);
    let first = aggregate_windows(&events, &config, &cam).unwrap();
    let second = aggregate_windows(&events, &config, &cam).unwrap();
    assert_eq!(first, second);
    assert_eq!(first.len(), 2);
}

#[test]
fn windows_boundary_is_strict() {
    let cam = CameraParameters::new(CameraType::DVS128);
    // An event exactly at the boundary does not close the window.
    let events = vec![dvs_event(1, 1, true, 0), dvs_event(1, 1, false, 100)];
    let config = window_config(100, u32::MAX, false, false);
    let rows = aggregate_windows(&events, &config, &cam).unwrap();
    assert_eq!(rows.len(), 0);
}

#[test]
fn windows_scale_ignored_without_pgm_column() {
    let cam = CameraParameters::new(CameraType::DVS128);
    let events = vec![dvs_event(1, 1, true, 0), dvs_event(2, 2, false, 150)];
    // A scale that divides neither dimension is fine while the raster column
    // is off.
    let mut config = window_config(100, u32::MAX, false, false);
    config.pgm_scale = 7;
    let rows = aggregate_windows(&events, &config, &cam).unwrap();
    assert_eq!(rows, vec!["1,0\n".to_string()]);
}
