use aedat_utilities::aedat_data::{CameraParameters, CameraType, Event};
use aedat_utilities::cli_configs::VidConfig;
use aedat_utilities::video::{
    all_painted_in_frame, place_pixel, reconstruct_event_based, reconstruct_time_based, Canvas,
    PixelColor,
};
use aedat_utilities::AedatError;

/// A DVS128 record with the given 1-based coordinates, polarity and a small
/// non-negative timestamp.
fn vid_event(x: u8, y: u8, polarity: bool, ts: u32) -> Event {
    let byte2 = 128 - y;
    let byte3 = ((128 - x) << 1) | (polarity as u8);
    Event {
        bytes: [
            0,
            0,
            byte2,
            byte3,
            (ts >> 24) as u8,
            (ts >> 16) as u8,
            (ts >> 8) as u8,
            ts as u8,
        ],
    }
}

fn vid_config(window_size: usize, max_frames: usize) -> VidConfig {
    VidConfig {
        filename: String::from("out"),
        window_size,
        max_frames,
        exclude_on: false,
        exclude_off: false,
        keep_frames: false,
        omit_video: false,
    }
}

fn pixel_at(pixels: &[PixelColor], x: usize, y: usize, width: usize) -> PixelColor {
    pixels[(y - 1) * width + (x - 1)]
}

#[test]
fn place_pixel_colors_and_exclusion() {
    let cam = CameraParameters::new(CameraType::DVS128);
    let mut canvas = Canvas::new(&cam);
    let config = vid_config(10, usize::MAX);
    place_pixel(&config, &cam, &mut canvas, &vid_event(3, 4, true, 0));
    place_pixel(&config, &cam, &mut canvas, &vid_event(5, 6, false, 0));
    assert_eq!(pixel_at(&canvas.pixels, 3, 4, 128), PixelColor::On);
    assert_eq!(pixel_at(&canvas.pixels, 5, 6, 128), PixelColor::Off);
    assert_eq!(pixel_at(&canvas.pixels, 1, 1, 128), PixelColor::Background);

    let mut excluded = Canvas::new(&cam);
    let mut config_no_on = vid_config(10, usize::MAX);
    config_no_on.exclude_on = true;
    place_pixel(&config_no_on, &cam, &mut excluded, &vid_event(3, 4, true, 0));
    assert_eq!(pixel_at(&excluded.pixels, 3, 4, 128), PixelColor::Background);
    // The last event at a coordinate wins.
    let mut overwritten = Canvas::new(&cam);
    place_pixel(&config, &cam, &mut overwritten, &vid_event(7, 7, true, 0));
    place_pixel(&config, &cam, &mut overwritten, &vid_event(7, 7, false, 0));
    assert_eq!(pixel_at(&overwritten.pixels, 7, 7, 128), PixelColor::Off);
}

#[test]
fn event_based_closes_after_exactly_n() {
    let cam = CameraParameters::new(CameraType::DVS128);
    let config = vid_config(3, usize::MAX);
    // 7 events at N = 3: frames close after events 3 and 6; one painted event
    // is left on the final canvas.
    let events: Vec<Event> = (1..=7).map(|i| vid_event(i, i, true, 0)).collect();
    let rec = reconstruct_event_based(&events, &config, &cam);
    assert_eq!(rec.frames.len(), 2);
    assert_eq!(rec.frames[0].count, 0);
    assert_eq!(rec.frames[1].count, 1);
    // Frame snapshots hold their three events each.
    assert_eq!(pixel_at(&rec.frames[0].pixels, 1, 1, 128), PixelColor::On);
    assert_eq!(pixel_at(&rec.frames[0].pixels, 3, 3, 128), PixelColor::On);
    assert_eq!(pixel_at(&rec.frames[0].pixels, 4, 4, 128), PixelColor::Background);
    assert_eq!(pixel_at(&rec.frames[1].pixels, 4, 4, 128), PixelColor::On);
    assert_eq!(pixel_at(&rec.frames[1].pixels, 1, 1, 128), PixelColor::Background);
    // The leftover canvas holds the seventh event.
    assert_eq!(pixel_at(&rec.leftover.pixels, 7, 7, 128), PixelColor::On);
    assert_eq!(pixel_at(&rec.leftover.pixels, 6, 6, 128), PixelColor::Background);
}

#[test]
fn event_based_empty_input_gives_blank_leftover() {
    let cam = CameraParameters::new(CameraType::DVS128);
    let config = vid_config(3, usize::MAX);
    let events: Vec<Event> = Vec::new();
    let rec = reconstruct_event_based(&events, &config, &cam);
    assert_eq!(rec.frames.len(), 0);
    assert!(rec.leftover.pixels.iter().all(|p| *p == PixelColor::Background));
}

#[test]
fn event_based_max_frames_keeps_final_canvas() {
    let cam = CameraParameters::new(CameraType::DVS128);
    let config = vid_config(2, 2);
    // N = 2, cap 2: the second close reaches the cap, so only one frame is
    // emitted; the canvas painted up to the stop is the leftover.
    let events: Vec<Event> = (1..=6).map(|i| vid_event(i, i, true, 0)).collect();
    let rec = reconstruct_event_based(&events, &config, &cam);
    assert_eq!(rec.frames.len(), 1);
    assert_eq!(rec.frames[0].count, 0);
    // The leftover still holds events 3 and 4, painted before the stop.
    assert_eq!(pixel_at(&rec.leftover.pixels, 3, 3, 128), PixelColor::On);
    assert_eq!(pixel_at(&rec.leftover.pixels, 4, 4, 128), PixelColor::On);
}

#[test]
fn time_based_closes_on_boundary_crossing() {
    let cam = CameraParameters::new(CameraType::DVS128);
    let config = vid_config(100, usize::MAX);
    let events = vec![
        vid_event(1, 1, true, 0),
        vid_event(2, 2, false, 50),
        vid_event(3, 3, true, 150),
        vid_event(4, 4, true, 250),
    ];
    let rec = reconstruct_time_based(&events, &config, &cam).unwrap();
    // 150 > 100 closes the first frame (snapshot taken after its paint);
    // 250 > 200 closes the second.
    assert_eq!(rec.frames.len(), 2);
    assert_eq!(rec.frames[0].count, 0);
    assert_eq!(rec.frames[1].count, 1);
    assert_eq!(pixel_at(&rec.frames[0].pixels, 1, 1, 128), PixelColor::On);
    assert_eq!(pixel_at(&rec.frames[0].pixels, 2, 2, 128), PixelColor::Off);
    assert_eq!(pixel_at(&rec.frames[0].pixels, 3, 3, 128), PixelColor::On);
    assert_eq!(pixel_at(&rec.frames[1].pixels, 4, 4, 128), PixelColor::On);
    assert_eq!(pixel_at(&rec.frames[1].pixels, 1, 1, 128), PixelColor::Background);
    // After the last close the canvas is blank again.
    assert!(rec.leftover.pixels.iter().all(|p| *p == PixelColor::Background));
}

#[test]
fn time_based_empty_input_fails() {
    let cam = CameraParameters::new(CameraType::DVS128);
    let config = vid_config(100, usize::MAX);
    let events: Vec<Event> = Vec::new();
    assert!(matches!(
        reconstruct_time_based(&events, &config, &cam),
        Err(AedatError::EmptyInput)
    ));
}

#[test]
fn time_based_partial_canvas_survives() {
    let cam = CameraParameters::new(CameraType::DVS128);
    let config = vid_config(100, usize::MAX);
    let events = vec![vid_event(9, 9, true, 0), vid_event(10, 10, false, 50)];
    let rec = reconstruct_time_based(&events, &config, &cam).unwrap();
    // No boundary is ever crossed: no frames, but the painted canvas remains.
    assert_eq!(rec.frames.len(), 0);
    assert_eq!(pixel_at(&rec.leftover.pixels, 9, 9, 128), PixelColor::On);
    assert_eq!(pixel_at(&rec.leftover.pixels, 10, 10, 128), PixelColor::Off);
}

#[test]
fn painted_events_in_frame_check() {
    let cam = CameraParameters::new(CameraType::DVS128);
    let config = vid_config(100, usize::MAX);
    let events = vec![vid_event(1, 1, true, 0), vid_event(128, 128, false, 10)];
    assert!(all_painted_in_frame(&events, &config, &cam));
}
