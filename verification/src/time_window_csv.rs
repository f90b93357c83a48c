//! The time-windowed aggregation: the downsampled counter grid with its
//! plain-text raster serialization, and the windowing of an event sequence
//! into `On,Off` rows.

use vstd::prelude::*;
use vstd::string::StringExecFns;

use crate::AedatError;
use crate::text::{dec_digits, push_u64_decimal};
use crate::aedat_data::{CameraParameters, Event, polarity_of, timestamp_of, x_of, y_of};
use crate::cli_configs::TimeWindowConfig;

verus! {

/// The coarse bucket owning the fine pixel `(x, y)`, in a grid of `gw`
/// buckets per row at downsampling factor `scale`.
pub open spec fn bucket_of(x: int, y: int, scale: int, gw: int) -> int {
    ((y - 1) / scale) * gw + (x - 1) / scale
}

/// An all-zero grid of `n` buckets.
pub open spec fn zero_grid(n: nat) -> Seq<int> {
    Seq::new(n, |i: int| 0)
}

/// A mutable accumulator of per-bucket event counts over a downsampled copy
/// of the camera's pixel grid, with the downsampling factor and the raster
/// threshold fixed at construction.
pub struct Downres {
    pub pixels: Vec<usize>,
    pub size_x: usize,
    pub size_y: usize,
    pub size_x_downscaled: usize,
    pub size_y_downscaled: usize,
    pub scale: usize,
    pub threshold: usize,
}

impl Downres {
    /// The grid is consistently sized. The downsampling factor has to divide
    /// both dimensions, so that every in-range pixel owns a bucket.
    pub open spec fn wf(self) -> bool {
        &&& self.scale >= 1
        &&& self.size_x as int % self.scale as int == 0
        &&& self.size_y as int % self.scale as int == 0
        &&& self.size_x_downscaled == self.size_x as int / self.scale as int
        &&& self.size_y_downscaled == self.size_y as int / self.scale as int
        &&& self.pixels@.len() == self.size_x_downscaled * self.size_y_downscaled
    }

    /// A fine coordinate pair the grid accepts: 1-based and within the
    /// configured dimensions.
    pub open spec fn in_bounds(self, x: int, y: int) -> bool {
        1 <= x <= self.size_x && 1 <= y <= self.size_y
    }

    /// The bucket owning the fine pixel `(x, y)`.
    pub open spec fn bucket_index(self, x: int, y: int) -> int {
        bucket_of(x, y, self.scale as int, self.size_x_downscaled as int)
    }

    /// The per-bucket counts as mathematical integers.
    pub open spec fn grid(self) -> Seq<int> {
        self.pixels@.map_values(|v: usize| v as int)
    }

    /// Every in-range pixel owns a bucket inside the counter buffer.
    pub proof fn lemma_bucket_in_range(self, x: int, y: int)
        requires
            self.wf(),
            self.in_bounds(x, y),
        ensures
            0 <= self.bucket_index(x, y) < self.pixels@.len(),
    {
        let s = self.scale as int;
        let gw = self.size_x_downscaled as int;
        let gh = self.size_y_downscaled as int;
        let xq = (x - 1) / s;
        let yq = (y - 1) / s;
        assert(self.size_x == s * gw && self.size_y == s * gh) by (nonlinear_arith)
            requires
                s >= 1,
                self.size_x as int % s == 0,
                self.size_y as int % s == 0,
                gw == self.size_x as int / s,
                gh == self.size_y as int / s,
        ;
        assert(0 <= xq < gw) by (nonlinear_arith)
            requires
                s >= 1,
                0 <= x - 1,
                x - 1 < s * gw,
                xq == (x - 1) / s,
        ;
        assert(0 <= yq < gh) by (nonlinear_arith)
            requires
                s >= 1,
                0 <= y - 1,
                y - 1 < s * gh,
                yq == (y - 1) / s,
        ;
        assert(0 <= yq * gw + xq < gw * gh) by (nonlinear_arith)
            requires
                0 <= xq < gw,
                0 <= yq < gh,
        ;
    }

    /// Allocates the zeroed counter grid for a `size_x` by `size_y` pixel
    /// area downsampled by `scale`.
    pub fn new(size_x: usize, size_y: usize, scale: usize, threshold: usize) -> (d: Downres)
        requires
            scale >= 1,
            size_x as int % scale as int == 0,
            size_y as int % scale as int == 0,
            (size_x as int / scale as int) * (size_y as int / scale as int) <= usize::MAX,
        ensures
            d.wf(),
            d.size_x == size_x,
            d.size_y == size_y,
            d.scale == scale,
            d.threshold == threshold,
            d.grid() =~= zero_grid((d.size_x_downscaled * d.size_y_downscaled) as nat),
    {
        let gw = size_x / scale;
        let gh = size_y / scale;
        proof {
            assert(gw * gh <= usize::MAX);
        }
        let n: usize = gw * gh;
        let mut pixels: Vec<usize> = Vec::new();
        let mut i: usize = 0;
        while i < n
            invariant
                i <= n,
                pixels@.len() == i,
                forall|j: int| 0 <= j < i ==> pixels@[j] == 0usize,
            decreases n - i,
        {
            pixels.push(0);
            i += 1;
        }
        Downres { pixels, size_x, size_y, size_x_downscaled: gw, size_y_downscaled: gh, scale, threshold }
    }

    /// Zeroes every bucket in place; the geometry stays as it was.
    pub fn reset(&mut self)
        ensures
            final(self).size_x == old(self).size_x,
            final(self).size_y == old(self).size_y,
            final(self).size_x_downscaled == old(self).size_x_downscaled,
            final(self).size_y_downscaled == old(self).size_y_downscaled,
            final(self).scale == old(self).scale,
            final(self).threshold == old(self).threshold,
            final(self).pixels@.len() == old(self).pixels@.len(),
            final(self).grid() =~= zero_grid(old(self).pixels@.len()),
            old(self).wf() ==> final(self).wf(),
    {
        let n = self.pixels.len();
        let mut i: usize = 0;
        while i < n
            invariant
                i <= n,
                n == self.pixels@.len(),
                self.size_x == old(self).size_x,
                self.size_y == old(self).size_y,
                self.size_x_downscaled == old(self).size_x_downscaled,
                self.size_y_downscaled == old(self).size_y_downscaled,
                self.scale == old(self).scale,
                self.threshold == old(self).threshold,
                forall|j: int| 0 <= j < i ==> self.pixels@[j] == 0usize,
            decreases n - i,
        {
            self.pixels.set(i, 0);
            i += 1;
        }
    }

    /// Reads the count of the bucket owning `(x, y)`, or nothing when the
    /// coordinate is out of range.
    pub fn get_pixel(&self, x: usize, y: usize) -> (r: Option<usize>)
        requires
            self.wf(),
        ensures
            r == if self.in_bounds(x as int, y as int) {
                Some(self.pixels@[self.bucket_index(x as int, y as int)] as usize)
            } else {
                None::<usize>
            },
    {
        if x > 0 && x <= self.size_x && y > 0 && y <= self.size_y {
            let n = self.pixels.len();
            let row = (y - 1) / self.scale;
            let col = (x - 1) / self.scale;
            proof {
                self.lemma_bucket_in_range(x as int, y as int);
                assert(row * self.size_x_downscaled + col == self.bucket_index(x as int, y as int));
            }
            Some(self.pixels[row * self.size_x_downscaled + col])
        } else {
            None
        }
    }

    /// Adds one to the bucket owning `(x, y)`; an out-of-range coordinate is
    /// rejected with `OutOfRange` and the grid is left untouched.
    pub fn increment_pixel(&mut self, x: usize, y: usize) -> (r: Result<(), AedatError>)
        requires
            old(self).wf(),
            old(self).in_bounds(x as int, y as int) ==> old(self).pixels@[old(self).bucket_index(
                x as int,
                y as int,
            )] < usize::MAX,
        ensures
            final(self).wf(),
            final(self).size_x == old(self).size_x,
            final(self).size_y == old(self).size_y,
            final(self).size_x_downscaled == old(self).size_x_downscaled,
            final(self).size_y_downscaled == old(self).size_y_downscaled,
            final(self).scale == old(self).scale,
            final(self).threshold == old(self).threshold,
            match r {
                Ok(()) => {
                    &&& old(self).in_bounds(x as int, y as int)
                    &&& final(self).grid() =~= old(self).grid().update(
                        old(self).bucket_index(x as int, y as int),
                        old(self).grid()[old(self).bucket_index(x as int, y as int)] + 1,
                    )
                },
                Err(e) => {
                    &&& e == AedatError::OutOfRange
                    &&& !old(self).in_bounds(x as int, y as int)
                    &&& *final(self) == *old(self)
                },
            },
    {
        if x > 0 && x <= self.size_x && y > 0 && y <= self.size_y {
            let n = self.pixels.len();
            let row = (y - 1) / self.scale;
            let col = (x - 1) / self.scale;
            proof {
                self.lemma_bucket_in_range(x as int, y as int);
                assert(row * self.size_x_downscaled + col == self.bucket_index(x as int, y as int));
            }
            let b = row * self.size_x_downscaled + col;
            let v = self.pixels[b];
            self.pixels.set(b, v + 1);
            proof {
                assert(final(self).grid() =~= old(self).grid().update(
                    old(self).bucket_index(x as int, y as int),
                    old(self).grid()[old(self).bucket_index(x as int, y as int)] + 1,
                ));
            }
            Ok(())
        } else {
            Err(AedatError::OutOfRange)
        }
    }
}


/// The cell characters of the raster body: for each bucket a `1` or `0`
/// (count at or above the threshold, or below it), followed by a space, or by
/// the line separator `nl` at the end of each row of `width` buckets.
pub open spec fn pgm_body(grid: Seq<int>, width: int, threshold: int, nl: char) -> Seq<char> {
    Seq::new(
        2 * grid.len(),
        |j: int|
            if j % 2 == 0 {
                if grid[j / 2] >= threshold {
                    '1'
                } else {
                    '0'
                }
            } else {
                if (j / 2) % width == width - 1 {
                    nl
                } else {
                    ' '
                }
            },
    )
}

/// The whole plain-text raster: the `P2` magic token, the grid dimensions,
/// the maximum value 1, and the thresholded cells, with `nl` as the line
/// separator throughout.
pub open spec fn pgm_chars_with(
    grid: Seq<int>,
    width: int,
    height: int,
    threshold: int,
    nl: char,
) -> Seq<char> {
    "P2"@ + seq![nl] + dec_digits(width as nat) + " "@ + dec_digits(height as nat) + seq![nl]
        + "1"@ + seq![nl] + pgm_body(grid, width, threshold, nl)
}

/// The raster of a grid accumulator, with `nl` as the line separator.
pub open spec fn downres_pgm(d: Downres, nl: char) -> Seq<char> {
    pgm_chars_with(
        d.grid(),
        d.size_x_downscaled as int,
        d.size_y_downscaled as int,
        d.threshold as int,
        nl,
    )
}

/// One character of the single-line encoding: a newline becomes the
/// placeholder `-`, anything else stands.
pub open spec fn esc_char(c: char) -> char {
    if c == '\n' {
        '-'
    } else {
        c
    }
}

/// The single-line encoding of a raster: every newline replaced by `-`.
pub open spec fn escape_newlines(s: Seq<char>) -> Seq<char> {
    s.map_values(|c: char| esc_char(c))
}

/// One character of the decoding: the placeholder `-` becomes a newline.
pub open spec fn unesc_char(c: char) -> char {
    if c == '-' {
        '\n'
    } else {
        c
    }
}

/// The decoding of a single-line raster back to its original form.
pub open spec fn restore_newlines(s: Seq<char>) -> Seq<char> {
    s.map_values(|c: char| unesc_char(c))
}

/// Escaping the newline-separated raster gives exactly the raster with `-`
/// as its line separator: no other character of a raster is a newline.
pub proof fn lemma_pgm_escape(grid: Seq<int>, width: int, height: int, threshold: int)
    requires
        width >= 0,
        height >= 0,
    ensures
        escape_newlines(pgm_chars_with(grid, width, height, threshold, '\n')) =~= pgm_chars_with(
            grid,
            width,
            height,
            threshold,
            '-',
        ),
{
    reveal_strlit("P2");
    reveal_strlit(" ");
    reveal_strlit("1");
    crate::text::lemma_dec_digits_chars(width as nat);
    crate::text::lemma_dec_digits_chars(height as nat);
}

/// Restoring the single-line raster gives back exactly the newline-separated
/// raster: no other character of a raster is the placeholder, so the
/// substitution is lossless.
pub proof fn lemma_pgm_escape_reversible(grid: Seq<int>, width: int, height: int, threshold: int)
    requires
        width >= 0,
        height >= 0,
    ensures
        restore_newlines(pgm_chars_with(grid, width, height, threshold, '-')) =~= pgm_chars_with(
            grid,
            width,
            height,
            threshold,
            '\n',
        ),
{
    reveal_strlit("P2");
    reveal_strlit(" ");
    reveal_strlit("1");
    crate::text::lemma_dec_digits_chars(width as nat);
    crate::text::lemma_dec_digits_chars(height as nat);
}

impl Downres {
    /// Serializes the raster with `nl` as its line separator.
    fn pgm_with(&self, nl: char) -> (s: String)
        requires
            self.wf(),
        ensures
            s@ == downres_pgm(*self, nl),
    {
        let mut s = String::from_str("P2");
        crate::text::push_char(&mut s, nl);
        push_u64_decimal(&mut s, self.size_x_downscaled as u64);
        s.append(" ");
        push_u64_decimal(&mut s, self.size_y_downscaled as u64);
        crate::text::push_char(&mut s, nl);
        s.append("1");
        crate::text::push_char(&mut s, nl);
        let ghost header = s@;
        let n = self.pixels.len();
        let gw = self.size_x_downscaled;
        let mut i: usize = 0;
        while i < n
            invariant
                self.wf(),
                i <= n,
                n == self.pixels@.len(),
                gw == self.size_x_downscaled,
                s@ =~= header + pgm_body(self.grid().take(i as int), gw as int, self.threshold as int, nl),
            decreases n - i,
        {
            proof {
                if gw == 0 {
                    assert(self.pixels@.len() == 0);
                }
            }
            let cell = if self.pixels[i] >= self.threshold {
                '1'
            } else {
                '0'
            };
            crate::text::push_char(&mut s, cell);
            let sep = if i % gw == gw - 1 {
                nl
            } else {
                ' '
            };
            crate::text::push_char(&mut s, sep);
            i += 1;
            proof {
                assert(s@ =~= header + pgm_body(
                    self.grid().take(i as int),
                    gw as int,
                    self.threshold as int,
                    nl,
                ));
            }
        }
        proof {
            assert(self.grid().take(n as int) =~= self.grid());
            assert(s@ =~= downres_pgm(*self, nl));
        }
        s
    }

    /// Serializes the raster in its plain, newline-separated form.
    pub fn to_pgm(&self) -> (s: String)
        requires
            self.wf(),
        ensures
            s@ == downres_pgm(*self, '\n'),
    {
        self.pgm_with('\n')
    }
}


/// One emitted row of the windowed CSV: the ON and OFF counts, their sum when
/// the `Both` column is on, and the raster in its single-line form when the
/// raster column is on.
pub open spec fn window_row_chars(on: nat, off: nat, both: bool, pgm: Option<Seq<char>>) -> Seq<
    char,
> {
    dec_digits(on) + ","@ + dec_digits(off) + (if both {
        ","@ + dec_digits((on + off) as nat)
    } else {
        Seq::<char>::empty()
    }) + (match pgm {
        Some(p) => ","@ + p,
        None => Seq::<char>::empty(),
    }) + "\n"@
}

/// Buckets per raster row under a configuration.
pub open spec fn agg_grid_w(cfg: TimeWindowConfig, cam: CameraParameters) -> int {
    cam.camera_x as int / cfg.pgm_scale as int
}

/// Raster rows under a configuration.
pub open spec fn agg_grid_h(cfg: TimeWindowConfig, cam: CameraParameters) -> int {
    cam.camera_y as int / cfg.pgm_scale as int
}

/// The running state of the window aggregation: the boundary of the open
/// window, its counters and raster buckets, the rows already emitted, how
/// many windows have closed, and whether the run has stopped early (window
/// cap reached) or failed (an event fell outside the grid).
pub ghost struct WindowAgg {
    pub end_time: int,
    pub on: nat,
    pub off: nat,
    pub grid: Seq<int>,
    pub rows: Seq<Seq<char>>,
    pub windows: nat,
    pub stopped: bool,
    pub failed: bool,
}

/// The state before any event: the boundary one window past the first
/// timestamp, everything else empty.
pub open spec fn agg_init(first: Event, cfg: TimeWindowConfig, cam: CameraParameters) -> WindowAgg {
    WindowAgg {
        end_time: timestamp_of(first) + cfg.window_size,
        on: 0,
        off: 0,
        grid: zero_grid((agg_grid_w(cfg, cam) * agg_grid_h(cfg, cam)) as nat),
        rows: Seq::empty(),
        windows: 0,
        stopped: false,
        failed: false,
    }
}

/// The row that closing the open window emits.
pub open spec fn agg_row(st: WindowAgg, cfg: TimeWindowConfig, cam: CameraParameters) -> Seq<
    char,
> {
    window_row_chars(
        st.on,
        st.off,
        cfg.include_both_column,
        if cfg.include_pgm {
            Some(
                pgm_chars_with(
                    st.grid,
                    agg_grid_w(cfg, cam),
                    agg_grid_h(cfg, cam),
                    cfg.pgm_threshold as int,
                    '-',
                ),
            )
        } else {
            None
        },
    )
}

/// Closing the open window: its row is emitted, the counters and the raster
/// are cleared, the boundary advances by exactly one window, and the run
/// stops when this close reaches the window cap.
pub open spec fn agg_close(st: WindowAgg, cfg: TimeWindowConfig, cam: CameraParameters) -> WindowAgg {
    WindowAgg {
        end_time: st.end_time + cfg.window_size,
        on: 0,
        off: 0,
        grid: zero_grid(st.grid.len()),
        rows: st.rows.push(agg_row(st, cfg, cam)),
        windows: st.windows + 1,
        stopped: st.windows + 1 == cfg.max_windows,
        failed: false,
    }
}

/// Accumulating one event into the open window: its polarity counter grows,
/// and with the raster column on its bucket grows too; an event outside the
/// camera grid fails the run.
pub open spec fn agg_accumulate(
    st: WindowAgg,
    e: Event,
    cfg: TimeWindowConfig,
    cam: CameraParameters,
) -> WindowAgg {
    let st1 = if polarity_of(e, cam.camera_type) {
        WindowAgg { on: st.on + 1, ..st }
    } else {
        WindowAgg { off: st.off + 1, ..st }
    };
    if cfg.include_pgm {
        let x = x_of(e, cam.camera_type);
        let y = y_of(e, cam.camera_type);
        if 1 <= x <= cam.camera_x && 1 <= y <= cam.camera_y {
            let b = bucket_of(x, y, cfg.pgm_scale as int, agg_grid_w(cfg, cam));
            WindowAgg { grid: st1.grid.update(b, st1.grid[b] + 1), ..st1 }
        } else {
            WindowAgg { failed: true, ..st1 }
        }
    } else {
        st1
    }
}

/// One step of the aggregation: an event past the boundary closes the window
/// first; the event is then accumulated into the (possibly fresh) window,
/// unless the close just reached the window cap. A stopped or failed run
/// absorbs every further event.
pub open spec fn agg_step(
    st: WindowAgg,
    e: Event,
    cfg: TimeWindowConfig,
    cam: CameraParameters,
) -> WindowAgg {
    if st.stopped || st.failed {
        st
    } else {
        let st1 = if timestamp_of(e) > st.end_time {
            agg_close(st, cfg, cam)
        } else {
            st
        };
        if st1.stopped {
            st1
        } else {
            agg_accumulate(st1, e, cfg, cam)
        }
    }
}

/// The aggregation state after folding a sequence of events over `st`.
pub open spec fn agg_from(
    st: WindowAgg,
    events: Seq<Event>,
    cfg: TimeWindowConfig,
    cam: CameraParameters,
) -> WindowAgg
    decreases events.len(),
{
    if events.len() == 0 {
        st
    } else {
        agg_step(agg_from(st, events.drop_last(), cfg, cam), events.last(), cfg, cam)
    }
}

/// The aggregation state after a whole event sequence, anchored at the first
/// event's timestamp.
pub open spec fn agg_state(events: Seq<Event>, cfg: TimeWindowConfig, cam: CameraParameters) -> WindowAgg
    recommends
        events.len() >= 1,
{
    agg_from(agg_init(events[0], cfg, cam), events, cfg, cam)
}

/// The aggregation state after the first `i` events.
pub open spec fn agg_prefix(
    events: Seq<Event>,
    i: int,
    cfg: TimeWindowConfig,
    cam: CameraParameters,
) -> WindowAgg {
    agg_from(agg_init(events[0], cfg, cam), events.take(i), cfg, cam)
}

/// A stopped or failed state absorbs every further event.
proof fn lemma_agg_from_absorbing(
    st: WindowAgg,
    events: Seq<Event>,
    cfg: TimeWindowConfig,
    cam: CameraParameters,
)
    requires
        st.stopped || st.failed,
    ensures
        agg_from(st, events, cfg, cam) == st,
    decreases events.len(),
{
    if events.len() > 0 {
        lemma_agg_from_absorbing(st, events.drop_last(), cfg, cam);
    }
}

/// Folding a sequence equals folding its prefix, then folding the rest over
/// the state the prefix reached.
proof fn lemma_agg_from_split(
    st: WindowAgg,
    events: Seq<Event>,
    i: int,
    cfg: TimeWindowConfig,
    cam: CameraParameters,
)
    requires
        0 <= i <= events.len(),
    ensures
        agg_from(st, events, cfg, cam) == agg_from(
            agg_from(st, events.take(i), cfg, cam),
            events.skip(i),
            cfg,
            cam,
        ),
    decreases events.len(),
{
    if i == events.len() {
        assert(events.take(i) =~= events);
        assert(events.skip(i) =~= Seq::<Event>::empty());
    } else {
        let dl = events.drop_last();
        lemma_agg_from_split(st, dl, i, cfg, cam);
        assert(dl.take(i) =~= events.take(i));
        assert(events.skip(i).drop_last() =~= dl.skip(i));
        assert(events.skip(i).last() == events.last());
    }
}


/// Builds one row of the windowed CSV from the finished window's counters and
/// raster.
fn build_window_row(on: usize, off: usize, downres: &Downres, config: &TimeWindowConfig) -> (s:
    String)
    requires
        downres.wf(),
        on + off <= usize::MAX,
    ensures
        s@ == window_row_chars(
            on as nat,
            off as nat,
            config.include_both_column,
            if config.include_pgm {
                Some(downres_pgm(*downres, '-'))
            } else {
                None
            },
        ),
{
    let mut s = String::new();
    push_u64_decimal(&mut s, on as u64);
    s.append(",");
    push_u64_decimal(&mut s, off as u64);
    if config.include_both_column {
        s.append(",");
        push_u64_decimal(&mut s, (on + off) as u64);
    }
    if config.include_pgm {
        s.append(",");
        let p = downres.pgm_with('-');
        s.append(p.as_str());
    }
    s.append("\n");
    proof {
        assert(s@ =~= window_row_chars(
            on as nat,
            off as nat,
            config.include_both_column,
            if config.include_pgm {
                Some(downres_pgm(*downres, '-'))
            } else {
                None
            },
        ));
    }
    s
}

/// Partitions a time-ordered event sequence into fixed-duration windows and
/// builds the CSV data row of every window that closes. Only closed windows
/// are returned: trailing events short of the next boundary are dropped, and
/// the run ends early once `max_windows` windows have closed. Fails with
/// `EmptyInput` when there is no first event to anchor the boundary, and with
/// `OutOfRange` when the raster column is on and an accumulated event decodes
/// outside the camera grid.
pub fn aggregate_windows(
    events: &Vec<Event>,
    config: &TimeWindowConfig,
    cam: &CameraParameters,
) -> (r: Result<Vec<String>, AedatError>)
    requires
        cam.wf(),
        config.pgm_scale >= 1,
        config.include_pgm ==> cam.camera_x as int % config.pgm_scale as int == 0,
        config.include_pgm ==> cam.camera_y as int % config.pgm_scale as int == 0,
    ensures
        match r {
            Ok(rows) => {
                &&& events@.len() >= 1
                &&& !agg_state(events@, *config, *cam).failed
                &&& rows.deep_view() == agg_state(events@, *config, *cam).rows
            },
            Err(e) => {
                ||| (e == AedatError::EmptyInput && events@.len() == 0)
                ||| (e == AedatError::OutOfRange && events@.len() >= 1 && agg_state(
                    events@,
                    *config,
                    *cam,
                ).failed)
            },
        },
{
    let n = events.len();
    if n == 0 {
        return Err(AedatError::EmptyInput);
    }
    proof {
        assert((cam.camera_x as int / config.pgm_scale as int) * (cam.camera_y as int
            / config.pgm_scale as int) <= 65025) by (nonlinear_arith)
            requires
                config.pgm_scale >= 1,
                0 <= cam.camera_x as int <= 255,
                0 <= cam.camera_y as int <= 255,
        ;
    }
    let first_ts = events[0].get_timestamp();
    let mut end_time: i128 = first_ts as i128 + config.window_size as i128;
    let mut on_count: usize = 0;
    let mut off_count: usize = 0;
    let mut windows_created: u64 = 0;
    let mut rows: Vec<String> = Vec::new();
    // Without the raster column the grid is never read; a unit scale then
    // satisfies the grid's divisibility demand for any geometry.
    let raster_scale: usize = if config.include_pgm {
        config.pgm_scale
    } else {
        1
    };
    proof {
        assert(cam.camera_x as int % 1int == 0 && cam.camera_y as int % 1int == 0);
    }
    let mut downres = Downres::new(
        cam.camera_x as usize,
        cam.camera_y as usize,
        raster_scale,
        config.pgm_threshold,
    );
    let ghost cfg = *config;
    let ghost c = *cam;
    let mut i: usize = 0;
    while i < n
        invariant
            cam.wf(),
            cfg == *config,
            c == *cam,
            config.pgm_scale >= 1,
            n == events@.len() >= 1,
            i <= n,
            downres.wf(),
            downres.size_x == cam.camera_x as usize,
            downres.size_y == cam.camera_y as usize,
            cfg.include_pgm ==> downres.size_x_downscaled as int == agg_grid_w(cfg, c),
            cfg.include_pgm ==> downres.size_y_downscaled as int == agg_grid_h(cfg, c),
            cfg.include_pgm ==> downres.scale == config.pgm_scale,
            downres.threshold == config.pgm_threshold,
            !agg_prefix(events@, i as int, cfg, c).stopped,
            !agg_prefix(events@, i as int, cfg, c).failed,
            on_count as nat == agg_prefix(events@, i as int, cfg, c).on,
            off_count as nat == agg_prefix(events@, i as int, cfg, c).off,
            windows_created as nat == agg_prefix(events@, i as int, cfg, c).windows,
            end_time as int == agg_prefix(events@, i as int, cfg, c).end_time,
            cfg.include_pgm ==> downres.grid() =~= agg_prefix(events@, i as int, cfg, c).grid,
            rows.deep_view() == agg_prefix(events@, i as int, cfg, c).rows,
            cfg.include_pgm ==> agg_prefix(events@, i as int, cfg, c).grid.len()
                == downres.pixels@.len(),
            on_count <= i,
            off_count <= i,
            on_count + off_count <= i,
            windows_created <= i,
            forall|b: int|
                0 <= b < agg_prefix(events@, i as int, cfg, c).grid.len() ==> agg_prefix(
                    events@,
                    i as int,
                    cfg,
                    c,
                ).grid[b] <= i,
            end_time as int <= i32::MAX + (i + 1) * 0x1_0000_0000,
            end_time as int >= i32::MIN,
        decreases n - i,
    {
        let ghost st = agg_prefix(events@, i as int, cfg, c);
        proof {
            assert(events@.take(i + 1).drop_last() =~= events@.take(i as int));
            assert(events@.take(i + 1).last() == events@[i as int]);
        }
        let e = &events[i];
        let ts = e.get_timestamp();
        if (ts as i128) > end_time {
            let row = build_window_row(on_count, off_count, &downres, config);
            let ghost prev = rows.deep_view();
            rows.push(row);
            proof {
                assert(rows.deep_view() =~= prev.push(row@));
                assert(row@ == agg_row(st, cfg, c));
            }
            downres.reset();
            end_time = end_time + config.window_size as i128;
            on_count = 0;
            off_count = 0;
            windows_created = windows_created + 1;
            if windows_created == config.max_windows as u64 {
                proof {
                    let ghost st1 = agg_prefix(events@, i + 1, cfg, c);
                    assert(st1 == agg_close(st, cfg, c));
                    assert(st1.stopped);
                    lemma_agg_from_split(agg_init(events@[0], cfg, c), events@, i + 1, cfg, c);
                    lemma_agg_from_absorbing(st1, events@.skip(i + 1), cfg, c);
                    assert(agg_state(events@, cfg, c) == st1);
                    assert(rows.deep_view() =~= st1.rows);
                }
                return Ok(rows);
            }
        }
        let ghost st1 = if timestamp_of(events@[i as int]) > st.end_time {
            agg_close(st, cfg, c)
        } else {
            st
        };
        proof {
            assert(!st1.stopped);
            if cfg.include_pgm {
                assert(downres.grid() =~= st1.grid);
            }
            assert forall|b: int| 0 <= b < st1.grid.len() implies st1.grid[b] <= i by {
                if timestamp_of(events@[i as int]) > st.end_time {
                    assert(st1.grid[b] == 0);
                }
            }
        }
        if e.get_polarity(&cam.camera_type) {
            on_count = on_count + 1;
        } else {
            off_count = off_count + 1;
        }
        if config.include_pgm {
            let (x, y) = e.get_coords(&cam.camera_type);
            proof {
                if downres.in_bounds(x as int, y as int) {
                    downres.lemma_bucket_in_range(x as int, y as int);
                    assert(downres.pixels@[downres.bucket_index(x as int, y as int)] == st1.grid[downres.bucket_index(x as int, y as int)]);
                }
            }
            match downres.increment_pixel(x as usize, y as usize) {
                Ok(()) => {
                    proof {
                        assert(agg_prefix(events@, i + 1, cfg, c) == agg_accumulate(
                            st1,
                            events@[i as int],
                            cfg,
                            c,
                        ));
                        assert(downres.grid() =~= agg_prefix(events@, i + 1, cfg, c).grid);
                    }
                },
                Err(err) => {
                    proof {
                        let ghost st2 = agg_prefix(events@, i + 1, cfg, c);
                        assert(st2 == agg_accumulate(st1, events@[i as int], cfg, c));
                        assert(st2.failed);
                        lemma_agg_from_split(agg_init(events@[0], cfg, c), events@, i + 1, cfg, c);
                        lemma_agg_from_absorbing(st2, events@.skip(i + 1), cfg, c);
                        assert(agg_state(events@, cfg, c).failed);
                    }
                    return Err(err);
                },
            }
        }
        proof {
            let st2 = agg_prefix(events@, i + 1, cfg, c);
            assert(st2 == agg_step(st, events@[i as int], cfg, c));
            assert forall|b: int| 0 <= b < st2.grid.len() implies st2.grid[b] <= i + 1 by {
                assert(st2.grid.len() == st1.grid.len());
                if cfg.include_pgm {
                    let x = x_of(events@[i as int], c.camera_type);
                    let y = y_of(events@[i as int], c.camera_type);
                    if 1 <= x <= c.camera_x && 1 <= y <= c.camera_y {
                        let bk = bucket_of(x, y, cfg.pgm_scale as int, agg_grid_w(cfg, c));
                        if b == bk {
                            assert(st2.grid[b] == st1.grid[b] + 1);
                        } else {
                            assert(st2.grid[b] == st1.grid[b]);
                        }
                    }
                }
            }
        }
        i += 1;
    }
    proof {
        assert(events@.take(n as int) =~= events@);
        assert(rows.deep_view() =~= agg_state(events@, cfg, c).rows);
    }
    Ok(rows)
}


/// Window aggregation is deterministic: two results of the aggregation over
/// the same event sequence and the same settings are identical.
pub proof fn lemma_aggregation_deterministic(
    r1: Seq<Seq<char>>,
    r2: Seq<Seq<char>>,
    events: Seq<Event>,
    cfg: TimeWindowConfig,
    cam: CameraParameters,
)
    requires
        r1 == agg_state(events, cfg, cam).rows,
        r2 == agg_state(events, cfg, cam).rows,
    ensures
        r1 == r2,
{
}

/// Data after the last boundary crossing is dropped: an appended event at or
/// before the open window's boundary closes nothing, so the emitted rows are
/// exactly those of the sequence without it.
pub proof fn lemma_trailing_event_adds_no_row(
    events: Seq<Event>,
    e: Event,
    cfg: TimeWindowConfig,
    cam: CameraParameters,
)
    requires
        events.len() >= 1,
        !agg_state(events, cfg, cam).stopped,
        !agg_state(events, cfg, cam).failed,
        timestamp_of(e) <= agg_state(events, cfg, cam).end_time,
    ensures
        agg_state(events.push(e), cfg, cam).rows == agg_state(events, cfg, cam).rows,
{
    assert(events.push(e).drop_last() =~= events);
    assert(events.push(e).last() == e);
    assert(events.push(e)[0] == events[0]);
}

} // verus!
