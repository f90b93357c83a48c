//! The frame reconstruction: events are painted onto a pixel canvas, and the
//! canvas is snapshotted into numbered frames at time-based or event-count
//! boundaries.

use vstd::prelude::*;

use crate::AedatError;
use crate::aedat_data::{CameraParameters, Event, polarity_of, timestamp_of, x_of, y_of};
use crate::cli_configs::VidConfig;

verus! {

/// One pixel of the reconstruction canvas: untouched background, or the color
/// of the last ON or OFF event painted there.
#[derive(Clone, Copy, Debug, PartialEq, Eq, Structural)]
pub enum PixelColor {
    Background,
    On,
    Off,
}

/// An all-background canvas of `n` pixels.
pub open spec fn blank_canvas(n: nat) -> Seq<PixelColor> {
    Seq::new(n, |i: int| PixelColor::Background)
}

/// A pixel grid matching the camera geometry, mutated in place as events are
/// painted and reset to background after each snapshot.
pub struct Canvas {
    pub pixels: Vec<PixelColor>,
    pub width: usize,
    pub height: usize,
}

/// The canvas position owning the 1-based coordinate pair `(x, y)`:
/// row-major, counting from zero.
pub open spec fn canvas_index(x: int, y: int, width: int) -> int {
    (y - 1) * width + (x - 1)
}

/// An event decodes inside the camera's pixel grid.
pub open spec fn coords_in_frame(e: Event, cam: CameraParameters) -> bool {
    &&& 1 <= x_of(e, cam.camera_type) <= cam.camera_x
    &&& 1 <= y_of(e, cam.camera_type) <= cam.camera_y
}

/// An event is painted at all: its polarity is not excluded by the
/// configuration.
pub open spec fn painted(e: Event, cfg: VidConfig, cam: CameraParameters) -> bool {
    ||| (!cfg.exclude_on && polarity_of(e, cam.camera_type))
    ||| (!cfg.exclude_off && !polarity_of(e, cam.camera_type))
}

/// What painting one event does to the canvas: the event's pixel takes the ON
/// or OFF color unless that polarity is excluded; the last paint at a
/// position wins.
pub open spec fn paint(
    pix: Seq<PixelColor>,
    e: Event,
    cfg: VidConfig,
    cam: CameraParameters,
) -> Seq<PixelColor> {
    let idx = canvas_index(x_of(e, cam.camera_type), y_of(e, cam.camera_type), cam.camera_x as int);
    if !cfg.exclude_on && polarity_of(e, cam.camera_type) {
        pix.update(idx, PixelColor::On)
    } else if !cfg.exclude_off && !polarity_of(e, cam.camera_type) {
        pix.update(idx, PixelColor::Off)
    } else {
        pix
    }
}

impl Canvas {
    /// The pixel buffer matches the stated dimensions.
    pub open spec fn wf(self) -> bool {
        self.pixels@.len() == self.width * self.height
    }

    /// A painted in-frame coordinate owns a position inside the buffer.
    pub proof fn lemma_canvas_index_in_range(self, x: int, y: int)
        requires
            self.wf(),
            1 <= x <= self.width,
            1 <= y <= self.height,
        ensures
            0 <= canvas_index(x, y, self.width as int) < self.pixels@.len(),
    {
        let w = self.width as int;
        let h = self.height as int;
        assert(0 <= (y - 1) * w + (x - 1) < w * h) by (nonlinear_arith)
            requires
                1 <= x <= w,
                1 <= y <= h,
        ;
    }

    /// Allocates an all-background canvas for the camera's pixel grid.
    pub fn new(cam: &CameraParameters) -> (c: Canvas)
        ensures
            c.wf(),
            c.width == cam.camera_x,
            c.height == cam.camera_y,
            c.pixels@ =~= blank_canvas((c.width * c.height) as nat),
    {
        let w = cam.camera_x as usize;
        let h = cam.camera_y as usize;
        proof {
            assert(w * h <= 255 * 255) by (nonlinear_arith)
                requires
                    w <= 255,
                    h <= 255,
            ;
        }
        let n: usize = w * h;
        let mut pixels: Vec<PixelColor> = Vec::new();
        let mut i: usize = 0;
        while i < n
            invariant
                i <= n,
                pixels@.len() == i,
                forall|j: int| 0 <= j < i ==> pixels@[j] == PixelColor::Background,
            decreases n - i,
        {
            pixels.push(PixelColor::Background);
            i += 1;
        }
        Canvas { pixels, width: w, height: h }
    }

    /// Resets every pixel to background in place.
    pub fn clear(&mut self)
        ensures
            final(self).width == old(self).width,
            final(self).height == old(self).height,
            final(self).pixels@ =~= blank_canvas(old(self).pixels@.len()),
            old(self).wf() ==> final(self).wf(),
    {
        let n = self.pixels.len();
        let mut i: usize = 0;
        while i < n
            invariant
                i <= n,
                n == self.pixels@.len(),
                self.width == old(self).width,
                self.height == old(self).height,
                forall|j: int| 0 <= j < i ==> self.pixels@[j] == PixelColor::Background,
            decreases n - i,
        {
            self.pixels.set(i, PixelColor::Background);
            i += 1;
        }
    }

    /// Copies the pixel buffer.
    fn snapshot_pixels(&self) -> (p: Vec<PixelColor>)
        ensures
            p@ =~= self.pixels@,
    {
        let n = self.pixels.len();
        let mut p: Vec<PixelColor> = Vec::new();
        let mut i: usize = 0;
        while i < n
            invariant
                i <= n,
                n == self.pixels@.len(),
                p@.len() == i,
                forall|j: int| 0 <= j < i ==> p@[j] == self.pixels@[j],
            decreases n - i,
        {
            p.push(self.pixels[i]);
            i += 1;
        }
        p
    }
}

/// Paints one event onto the canvas with the color of its polarity, leaving
/// the canvas untouched when that polarity is excluded.
pub fn place_pixel(config: &VidConfig, cam: &CameraParameters, canvas: &mut Canvas, event: &Event)
    requires
        old(canvas).wf(),
        old(canvas).width == cam.camera_x,
        old(canvas).height == cam.camera_y,
        painted(*event, *config, *cam) ==> coords_in_frame(*event, *cam),
    ensures
        final(canvas).wf(),
        final(canvas).width == old(canvas).width,
        final(canvas).height == old(canvas).height,
        final(canvas).pixels@ == paint(old(canvas).pixels@, *event, *config, *cam),
{
    let (x, y) = event.get_coords(&cam.camera_type);
    let event_polarity = event.get_polarity(&cam.camera_type);
    if !config.exclude_on && event_polarity {
        let n = canvas.pixels.len();
        let row = (y - 1) as usize;
        let col = (x - 1) as usize;
        proof {
            canvas.lemma_canvas_index_in_range(x as int, y as int);
            assert(row * canvas.width + col == canvas_index(x as int, y as int, canvas.width as int));
        }
        let idx = row * canvas.width + col;
        canvas.pixels.set(idx, PixelColor::On);
    } else if !config.exclude_off && !event_polarity {
        let n = canvas.pixels.len();
        let row = (y - 1) as usize;
        let col = (x - 1) as usize;
        proof {
            canvas.lemma_canvas_index_in_range(x as int, y as int);
            assert(row * canvas.width + col == canvas_index(x as int, y as int, canvas.width as int));
        }
        let idx = row * canvas.width + col;
        canvas.pixels.set(idx, PixelColor::Off);
    }
}

/// A snapshot of the canvas at a frame boundary, with its sequence index.
pub struct Frame {
    pub pixels: Vec<PixelColor>,
    pub count: usize,
}

/// What a reconstruction run delivers: the closed frames in order, and the
/// final, possibly partial canvas, which is always kept.
pub struct Reconstruction {
    pub frames: Vec<Frame>,
    pub leftover: Canvas,
}

/// The running state of a reconstruction: the canvas being painted, the
/// snapshots taken so far, the count of events painted into the open frame,
/// the open frame's time boundary, how many frames have closed, and whether
/// the frame cap has stopped the run.
pub ghost struct FrameRec {
    pub canvas: Seq<PixelColor>,
    pub frames: Seq<Seq<PixelColor>>,
    pub painted_in_frame: nat,
    pub end_time: int,
    pub frames_closed: nat,
    pub stopped: bool,
}

/// The state before any event of a time-based run.
pub open spec fn rec_time_init(first: Event, cfg: VidConfig, cam: CameraParameters) -> FrameRec {
    FrameRec {
        canvas: blank_canvas((cam.camera_x * cam.camera_y) as nat),
        frames: Seq::empty(),
        painted_in_frame: 0,
        end_time: timestamp_of(first) + cfg.window_size,
        frames_closed: 0,
        stopped: false,
    }
}

/// The state before any event of an event-count run.
pub open spec fn rec_event_init(cfg: VidConfig, cam: CameraParameters) -> FrameRec {
    FrameRec {
        canvas: blank_canvas((cam.camera_x * cam.camera_y) as nat),
        frames: Seq::empty(),
        painted_in_frame: 0,
        end_time: 0,
        frames_closed: 0,
        stopped: false,
    }
}

/// Closing a frame: when this close reaches the frame cap the run stops and
/// nothing more is emitted; otherwise the canvas is snapshotted into a new
/// frame and cleared, and a time-based boundary advances by one window.
pub open spec fn rec_close(st: FrameRec, time_based: bool, cfg: VidConfig) -> FrameRec {
    if st.frames_closed + 1 == cfg.max_frames {
        FrameRec { frames_closed: st.frames_closed + 1, painted_in_frame: 0, stopped: true, ..st }
    } else {
        FrameRec {
            canvas: blank_canvas(st.canvas.len()),
            frames: st.frames.push(st.canvas),
            painted_in_frame: 0,
            end_time: if time_based {
                st.end_time + cfg.window_size
            } else {
                st.end_time
            },
            frames_closed: st.frames_closed + 1,
            stopped: false,
        }
    }
}

/// One step of the time-based run: the event is painted, then a timestamp
/// past the boundary closes the frame (snapshot taken after the paint).
pub open spec fn rec_time_step(
    st: FrameRec,
    e: Event,
    cfg: VidConfig,
    cam: CameraParameters,
) -> FrameRec {
    if st.stopped {
        st
    } else {
        let st1 = FrameRec { canvas: paint(st.canvas, e, cfg, cam), ..st };
        if timestamp_of(e) > st1.end_time {
            rec_close(st1, true, cfg)
        } else {
            st1
        }
    }
}

/// One step of the event-count run: the event is painted and counted, and the
/// frame closes after exactly `window_size` painted events.
pub open spec fn rec_event_step(
    st: FrameRec,
    e: Event,
    cfg: VidConfig,
    cam: CameraParameters,
) -> FrameRec {
    if st.stopped {
        st
    } else {
        let st1 = FrameRec {
            canvas: paint(st.canvas, e, cfg, cam),
            painted_in_frame: st.painted_in_frame + 1,
            ..st
        };
        if st1.painted_in_frame == cfg.window_size {
            rec_close(st1, false, cfg)
        } else {
            st1
        }
    }
}

/// The state of a time-based run after folding a sequence of events.
pub open spec fn rec_time_from(
    st: FrameRec,
    events: Seq<Event>,
    cfg: VidConfig,
    cam: CameraParameters,
) -> FrameRec
    decreases events.len(),
{
    if events.len() == 0 {
        st
    } else {
        rec_time_step(rec_time_from(st, events.drop_last(), cfg, cam), events.last(), cfg, cam)
    }
}

/// The state of an event-count run after folding a sequence of events.
pub open spec fn rec_event_from(
    st: FrameRec,
    events: Seq<Event>,
    cfg: VidConfig,
    cam: CameraParameters,
) -> FrameRec
    decreases events.len(),
{
    if events.len() == 0 {
        st
    } else {
        rec_event_step(rec_event_from(st, events.drop_last(), cfg, cam), events.last(), cfg, cam)
    }
}

/// The state of the whole time-based run, anchored at the first event's
/// timestamp.
pub open spec fn rec_time_state(events: Seq<Event>, cfg: VidConfig, cam: CameraParameters) -> FrameRec
    recommends
        events.len() >= 1,
{
    rec_time_from(rec_time_init(events[0], cfg, cam), events, cfg, cam)
}

/// The state of the whole event-count run.
pub open spec fn rec_event_state(events: Seq<Event>, cfg: VidConfig, cam: CameraParameters) -> FrameRec {
    rec_event_from(rec_event_init(cfg, cam), events, cfg, cam)
}

/// A stopped run absorbs every further event.
proof fn lemma_rec_time_absorbing(
    st: FrameRec,
    events: Seq<Event>,
    cfg: VidConfig,
    cam: CameraParameters,
)
    requires
        st.stopped,
    ensures
        rec_time_from(st, events, cfg, cam) == st,
    decreases events.len(),
{
    if events.len() > 0 {
        lemma_rec_time_absorbing(st, events.drop_last(), cfg, cam);
    }
}

/// A stopped run absorbs every further event.
proof fn lemma_rec_event_absorbing(
    st: FrameRec,
    events: Seq<Event>,
    cfg: VidConfig,
    cam: CameraParameters,
)
    requires
        st.stopped,
    ensures
        rec_event_from(st, events, cfg, cam) == st,
    decreases events.len(),
{
    if events.len() > 0 {
        lemma_rec_event_absorbing(st, events.drop_last(), cfg, cam);
    }
}

/// Folding a sequence equals folding its prefix, then the rest.
proof fn lemma_rec_time_split(
    st: FrameRec,
    events: Seq<Event>,
    i: int,
    cfg: VidConfig,
    cam: CameraParameters,
)
    requires
        0 <= i <= events.len(),
    ensures
        rec_time_from(st, events, cfg, cam) == rec_time_from(
            rec_time_from(st, events.take(i), cfg, cam),
            events.skip(i),
            cfg,
            cam,
        ),
    decreases events.len(),
{
    if i == events.len() {
        assert(events.take(i) =~= events);
        assert(events.skip(i) =~= Seq::<Event>::empty());
    } else {
        let dl = events.drop_last();
        lemma_rec_time_split(st, dl, i, cfg, cam);
        assert(dl.take(i) =~= events.take(i));
        assert(events.skip(i).drop_last() =~= dl.skip(i));
        assert(events.skip(i).last() == events.last());
    }
}

/// Folding a sequence equals folding its prefix, then the rest.
proof fn lemma_rec_event_split(
    st: FrameRec,
    events: Seq<Event>,
    i: int,
    cfg: VidConfig,
    cam: CameraParameters,
)
    requires
        0 <= i <= events.len(),
    ensures
        rec_event_from(st, events, cfg, cam) == rec_event_from(
            rec_event_from(st, events.take(i), cfg, cam),
            events.skip(i),
            cfg,
            cam,
        ),
    decreases events.len(),
{
    if i == events.len() {
        assert(events.take(i) =~= events);
        assert(events.skip(i) =~= Seq::<Event>::empty());
    } else {
        let dl = events.drop_last();
        lemma_rec_event_split(st, dl, i, cfg, cam);
        assert(dl.take(i) =~= events.take(i));
        assert(events.skip(i).drop_last() =~= dl.skip(i));
        assert(events.skip(i).last() == events.last());
    }
}

/// The reconstruction output matches a run's final state: the snapshots in
/// order, numbered from zero, and the final canvas as the leftover.
pub open spec fn matches_state(r: Reconstruction, st: FrameRec, cam: CameraParameters) -> bool {
    &&& r.frames@.len() == st.frames.len()
    &&& forall|k: int|
        0 <= k < st.frames.len() ==> (#[trigger] r.frames@[k]).pixels@ == st.frames[k]
            && r.frames@[k].count == k
    &&& r.leftover.wf()
    &&& r.leftover.width == cam.camera_x
    &&& r.leftover.height == cam.camera_y
    &&& r.leftover.pixels@ == st.canvas
}


/// Reconstructs frames over fixed time windows: each event is painted, and an
/// event whose timestamp exceeds the running boundary closes the frame, the
/// snapshot taken after that paint. Once `max_frames` frames have closed the
/// run stops emitting; the final, possibly partial canvas is always returned.
/// Fails with `EmptyInput` when there is no first event to anchor the
/// boundary.
pub fn reconstruct_time_based(
    events: &Vec<Event>,
    config: &VidConfig,
    cam: &CameraParameters,
) -> (r: Result<Reconstruction, AedatError>)
    requires
        cam.wf(),
        forall|k: int|
            0 <= k < events@.len() ==> painted(#[trigger] events@[k], *config, *cam)
                ==> coords_in_frame(events@[k], *cam),
    ensures
        match r {
            Ok(rec) => {
                &&& events@.len() >= 1
                &&& matches_state(rec, rec_time_state(events@, *config, *cam), *cam)
            },
            Err(e) => {
                &&& e == AedatError::EmptyInput
                &&& events@.len() == 0
            },
        },
{
    let n = events.len();
    if n == 0 {
        return Err(AedatError::EmptyInput);
    }
    let ghost cfg = *config;
    let ghost c = *cam;
    let ghost g_init = rec_time_init(events@[0], cfg, c);
    let first_ts = events[0].get_timestamp();
    let mut end_time: i128 = first_ts as i128 + config.window_size as i128;
    let mut frames_created: u64 = 0;
    let mut frames: Vec<Frame> = Vec::new();
    let mut canvas = Canvas::new(cam);
    let mut i: usize = 0;
    while i < n
        invariant
            cam.wf(),
            cfg == *config,
            c == *cam,
            n == events@.len() >= 1,
            i <= n,
            g_init == rec_time_init(events@[0], cfg, c),
            forall|k: int|
                0 <= k < events@.len() ==> painted(#[trigger] events@[k], cfg, c)
                    ==> coords_in_frame(events@[k], c),
            canvas.wf(),
            canvas.width == cam.camera_x,
            canvas.height == cam.camera_y,
            !rec_time_from(g_init, events@.take(i as int), cfg, c).stopped,
            canvas.pixels@ == rec_time_from(g_init, events@.take(i as int), cfg, c).canvas,
            frames@.len() == rec_time_from(g_init, events@.take(i as int), cfg, c).frames.len(),
            forall|k: int|
                0 <= k < frames@.len() ==> (#[trigger] frames@[k]).pixels@ == rec_time_from(
                    g_init,
                    events@.take(i as int),
                    cfg,
                    c,
                ).frames[k] && frames@[k].count == k,
            end_time as int == rec_time_from(g_init, events@.take(i as int), cfg, c).end_time,
            frames_created as nat == rec_time_from(
                g_init,
                events@.take(i as int),
                cfg,
                c,
            ).frames_closed,
            frames_created <= i,
            end_time as int <= i32::MAX + config.window_size,
            end_time as int >= i32::MIN,
        decreases n - i,
    {
        let ghost st = rec_time_from(g_init, events@.take(i as int), cfg, c);
        proof {
            assert(events@.take(i + 1).drop_last() =~= events@.take(i as int));
            assert(events@.take(i + 1).last() == events@[i as int]);
        }
        let e = &events[i];
        place_pixel(config, cam, &mut canvas, e);
        let ghost st1 = FrameRec { canvas: paint(st.canvas, events@[i as int], cfg, c), ..st };
        let ts = e.get_timestamp();
        if (ts as i128) > end_time {
            frames_created = frames_created + 1;
            if frames_created == config.max_frames as u64 {
                proof {
                    let st2 = rec_time_from(g_init, events@.take(i + 1), cfg, c);
                    assert(st2 == rec_close(st1, true, cfg));
                    assert(st2.stopped);
                    lemma_rec_time_split(g_init, events@, i + 1, cfg, c);
                    lemma_rec_time_absorbing(st2, events@.skip(i + 1), cfg, c);
                    assert(rec_time_state(events@, cfg, c) == st2);
                }
                return Ok(Reconstruction { frames, leftover: canvas });
            }
            end_time = end_time + config.window_size as i128;
            let snapshot = Frame { pixels: canvas.snapshot_pixels(), count: frames.len() };
            frames.push(snapshot);
            canvas.clear();
            proof {
                let st2 = rec_time_from(g_init, events@.take(i + 1), cfg, c);
                assert(st2 == rec_close(st1, true, cfg));
                assert(canvas.pixels@ =~= st2.canvas);
                assert(frames@.len() == st2.frames.len());
            }
        }
        i += 1;
    }
    proof {
        assert(events@.take(n as int) =~= events@);
    }
    Ok(Reconstruction { frames, leftover: canvas })
}

/// Reconstructs frames over fixed event counts: each event is painted and
/// counted, and the frame closes after exactly `window_size` events, the
/// snapshot taken after the closing paint. Once `max_frames` frames have
/// closed the run stops emitting; the final, possibly partial canvas is
/// always returned.
pub fn reconstruct_event_based(
    events: &Vec<Event>,
    config: &VidConfig,
    cam: &CameraParameters,
) -> (rec: Reconstruction)
    requires
        cam.wf(),
        forall|k: int|
            0 <= k < events@.len() ==> painted(#[trigger] events@[k], *config, *cam)
                ==> coords_in_frame(events@[k], *cam),
    ensures
        matches_state(rec, rec_event_state(events@, *config, *cam), *cam),
{
    let n = events.len();
    let ghost cfg = *config;
    let ghost c = *cam;
    let ghost g_init = rec_event_init(cfg, c);
    let mut events_in_current_frame: usize = 0;
    let mut frames_created: u64 = 0;
    let mut frames: Vec<Frame> = Vec::new();
    let mut canvas = Canvas::new(cam);
    let mut i: usize = 0;
    while i < n
        invariant
            cam.wf(),
            cfg == *config,
            c == *cam,
            n == events@.len(),
            i <= n,
            g_init == rec_event_init(cfg, c),
            forall|k: int|
                0 <= k < events@.len() ==> painted(#[trigger] events@[k], cfg, c)
                    ==> coords_in_frame(events@[k], c),
            canvas.wf(),
            canvas.width == cam.camera_x,
            canvas.height == cam.camera_y,
            !rec_event_from(g_init, events@.take(i as int), cfg, c).stopped,
            canvas.pixels@ == rec_event_from(g_init, events@.take(i as int), cfg, c).canvas,
            frames@.len() == rec_event_from(g_init, events@.take(i as int), cfg, c).frames.len(),
            forall|k: int|
                0 <= k < frames@.len() ==> (#[trigger] frames@[k]).pixels@ == rec_event_from(
                    g_init,
                    events@.take(i as int),
                    cfg,
                    c,
                ).frames[k] && frames@[k].count == k,
            events_in_current_frame as nat == rec_event_from(
                g_init,
                events@.take(i as int),
                cfg,
                c,
            ).painted_in_frame,
            frames_created as nat == rec_event_from(
                g_init,
                events@.take(i as int),
                cfg,
                c,
            ).frames_closed,
            frames_created <= i,
            events_in_current_frame <= i,
        decreases n - i,
    {
        let ghost st = rec_event_from(g_init, events@.take(i as int), cfg, c);
        proof {
            assert(events@.take(i + 1).drop_last() =~= events@.take(i as int));
            assert(events@.take(i + 1).last() == events@[i as int]);
        }
        let e = &events[i];
        place_pixel(config, cam, &mut canvas, e);
        let ghost st1 = FrameRec {
            canvas: paint(st.canvas, events@[i as int], cfg, c),
            painted_in_frame: st.painted_in_frame + 1,
            ..st
        };
        events_in_current_frame = events_in_current_frame + 1;
        if events_in_current_frame == config.window_size {
            frames_created = frames_created + 1;
            events_in_current_frame = 0;
            if frames_created == config.max_frames as u64 {
                proof {
                    let st2 = rec_event_from(g_init, events@.take(i + 1), cfg, c);
                    assert(st2 == rec_close(st1, false, cfg));
                    assert(st2.stopped);
                    lemma_rec_event_split(g_init, events@, i + 1, cfg, c);
                    lemma_rec_event_absorbing(st2, events@.skip(i + 1), cfg, c);
                    assert(rec_event_state(events@, cfg, c) == st2);
                }
                return Reconstruction { frames, leftover: canvas };
            }
            let snapshot = Frame { pixels: canvas.snapshot_pixels(), count: frames.len() };
            frames.push(snapshot);
            canvas.clear();
            proof {
                let st2 = rec_event_from(g_init, events@.take(i + 1), cfg, c);
                assert(st2 == rec_close(st1, false, cfg));
                assert(canvas.pixels@ =~= st2.canvas);
            }
        }
        i += 1;
    }
    proof {
        assert(events@.take(n as int) =~= events@);
    }
    Reconstruction { frames, leftover: canvas }
}

/// Tests that every event the configuration would paint decodes inside the
/// camera's pixel grid, which frame reconstruction demands of its input.
pub fn all_painted_in_frame(events: &Vec<Event>, config: &VidConfig, cam: &CameraParameters) -> (b:
    bool)
    ensures
        b == forall|k: int|
            0 <= k < events@.len() ==> painted(#[trigger] events@[k], *config, *cam)
                ==> coords_in_frame(events@[k], *cam),
{
    let n = events.len();
    let mut i: usize = 0;
    while i < n
        invariant
            n == events@.len(),
            i <= n,
            forall|k: int|
                0 <= k < i ==> painted(#[trigger] events@[k], *config, *cam) ==> coords_in_frame(
                    events@[k],
                    *cam,
                ),
        decreases n - i,
    {
        let e = &events[i];
        let polarity = e.get_polarity(&cam.camera_type);
        let is_painted = (!config.exclude_on && polarity) || (!config.exclude_off && !polarity);
        if is_painted {
            let (x, y) = e.get_coords(&cam.camera_type);
            if x == 0 || x > cam.camera_x || y == 0 || y > cam.camera_y {
                return false;
            }
        }
        i += 1;
    }
    true
}


/// The event-count run closes a frame after exactly `window_size` painted
/// events, for any positive `window_size`: short of the frame cap, a sequence
/// of `n` events closes exactly `n / window_size` frames and leaves
/// `n % window_size` events painted into the open frame; at the cap, the run
/// has stopped with `max_frames` closed and `max_frames - 1` snapshots
/// emitted.
pub proof fn lemma_event_count_boundaries(events: Seq<Event>, cfg: VidConfig, cam: CameraParameters)
    requires
        cfg.window_size >= 1,
    ensures
        ({
            let st = rec_event_state(events, cfg, cam);
            let closes = events.len() as int / cfg.window_size as int;
            if cfg.max_frames == 0 || closes < cfg.max_frames {
                &&& !st.stopped
                &&& st.frames_closed == closes
                &&& st.frames.len() == closes
                &&& st.painted_in_frame == events.len() as int % cfg.window_size as int
            } else {
                &&& st.stopped
                &&& st.frames_closed == cfg.max_frames
                &&& st.frames.len() == cfg.max_frames - 1
                &&& st.painted_in_frame == 0
            }
        }),
    decreases events.len(),
{
    let st = rec_event_state(events, cfg, cam);
    let n = events.len() as int;
    let w = cfg.window_size as int;
    if events.len() == 0 {
        assert(0int / w == 0 && 0int % w == 0) by (nonlinear_arith)
            requires
                w >= 1,
        ;
    } else {
        let p = events.drop_last();
        lemma_event_count_boundaries(p, cfg, cam);
        let stp = rec_event_state(p, cfg, cam);
        assert(st == rec_event_step(stp, events.last(), cfg, cam));
        let m = n - 1;
        if m % w == w - 1 {
            assert(n / w == m / w + 1 && n % w == 0) by (nonlinear_arith)
                requires
                    w >= 1,
                    n == m + 1,
                    m >= 0,
                    m % w == w - 1,
            ;
        } else {
            assert(n / w == m / w && n % w == m % w + 1) by (nonlinear_arith)
                requires
                    w >= 1,
                    n == m + 1,
                    m >= 0,
                    m % w != w - 1,
            ;
        }
        assert(0 <= m % w < w) by (nonlinear_arith)
            requires
                w >= 1,
                m >= 0,
        ;
    }
}


/// The time-based run closes a frame exactly when an event's timestamp
/// exceeds the running boundary: an appended event past the boundary closes
/// one more frame, and one at or before it closes nothing.
pub proof fn lemma_time_boundary_close(
    events: Seq<Event>,
    e: Event,
    cfg: VidConfig,
    cam: CameraParameters,
)
    requires
        events.len() >= 1,
        !rec_time_state(events, cfg, cam).stopped,
    ensures
        timestamp_of(e) > rec_time_state(events, cfg, cam).end_time ==> rec_time_state(
            events.push(e),
            cfg,
            cam,
        ).frames_closed == rec_time_state(events, cfg, cam).frames_closed + 1,
        timestamp_of(e) <= rec_time_state(events, cfg, cam).end_time ==> rec_time_state(
            events.push(e),
            cfg,
            cam,
        ).frames == rec_time_state(events, cfg, cam).frames && rec_time_state(
            events.push(e),
            cfg,
            cam,
        ).frames_closed == rec_time_state(events, cfg, cam).frames_closed,
{
    assert(events.push(e).drop_last() =~= events);
    assert(events.push(e).last() == e);
    assert(events.push(e)[0] == events[0]);
}

} // verus!
