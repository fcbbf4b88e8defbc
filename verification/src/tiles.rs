//! Slippy-map tiles: choice of the zoom, retries, and the composite image.
use crate::map::RgbaImage;
use crate::redact::{redact_secrets, redact_url};
use crate::text::decimal;
use vstd::prelude::*;
use vstd::string::StringExecFns;

verus! {

/// Most tiles that one fetch may ask for.
pub const MAX_TILES_PER_FETCH: usize = 64;

/// Per-tile retry budget for transient transport failures. A single flaky tile must not discard an
/// otherwise-complete multi-tile fetch.
pub const MAX_TILE_RETRIES: u32 = 3;

/// Width and height of a tile.
pub const TILE_SIZE_PX: u32 = 256;

/// Upper bound on cropped cells (pixels) that [`pick_zoom`] will select. An area larger than this
/// is served at a coarser resolution (a lower zoom) instead of running out of memory in the mesher.
pub const MAX_DEM_CELLS: u64 = 800_000;

pub const MIN_ZOOM: u32 = 1;

pub const MAX_ZOOM: u32 = 18;

/// A tile of the slippy map.
#[derive(Debug, Clone, Copy, PartialEq, Eq, Structural)]
pub struct TileCoord {
    pub z: u32,
    pub x: u32,
    pub y: u32,
}

/// Why a fetch failed. URLs in it are redacted.
#[derive(Debug)]
pub enum TileFetchError {
    BboxTooLarge { tiles: usize, max: usize, zoom: u32 },
    Http { url: String, status: u16 },
    Network { url: String, source: String },
    Decode { url: String, source: String },
    Cancelled,
}

impl TileFetchError {
    /// The error as a line of text.
    pub open spec fn text(&self) -> Seq<char> {
        match self {
            TileFetchError::BboxTooLarge { tiles, max, zoom } => "bbox covers "@
                + crate::text::decimal_chars(*tiles as nat) + " tiles at zoom "@
                + crate::text::decimal_chars(*zoom as nat) + " (max "@
                + crate::text::decimal_chars(*max as nat)
                + " per request) — zoom out, shrink the bbox, or pick a lower-resolution source"@,
            TileFetchError::Http { url, status } => "HTTP "@ + crate::text::decimal_chars(
                *status as nat,
            ) + " fetching "@ + url@,
            TileFetchError::Network { url, source } => "network error fetching "@ + url@ + ": "@
                + source@,
            TileFetchError::Decode { url, source } => "could not decode tile from "@ + url@ + ": "@
                + source@,
            TileFetchError::Cancelled => "cancelled by user"@,
        }
    }

    pub fn message(&self) -> (text: String)
        ensures
            text@ == self.text(),
    {
        match self {
            TileFetchError::BboxTooLarge { tiles, max, zoom } => {
                let mut s: String = "bbox covers ".to_owned();
                s.append(decimal(*tiles as u64).as_str());
                s.append(" tiles at zoom ");
                s.append(decimal(*zoom as u64).as_str());
                s.append(" (max ");
                s.append(decimal(*max as u64).as_str());
                s.append(
                    " per request) — zoom out, shrink the bbox, or pick a lower-resolution source",
                );
                s
            },
            TileFetchError::Http { url, status } => {
                let mut s: String = "HTTP ".to_owned();
                s.append(decimal(*status as u64).as_str());
                s.append(" fetching ");
                s.append(url.as_str());
                s
            },
            TileFetchError::Network { url, source } => {
                let mut s: String = "network error fetching ".to_owned();
                s.append(url.as_str());
                s.append(": ");
                s.append(source.as_str());
                s
            },
            TileFetchError::Decode { url, source } => {
                let mut s: String = "could not decode tile from ".to_owned();
                s.append(url.as_str());
                s.append(": ");
                s.append(source.as_str());
                s
            },
            TileFetchError::Cancelled => "cancelled by user".to_owned(),
        }
    }

    /// The error of a transport failure. The failure's own text repeats the request's URL, so both
    /// are redacted.
    pub fn transport(url: &str, failure: &str) -> (e: Self)
        ensures
            e matches TileFetchError::Network { url: u, source: s } && u@
                == crate::redact::redacted_url(url@) && s@ == crate::redact::redacted_text(failure@),
    {
        TileFetchError::Network { url: redact_url(url), source: redact_secrets(failure) }
    }

    /// Whether another try may succeed: only for a transport failure.
    pub fn is_transient(&self) -> (b: bool)
        ensures
            b == self is Network,
    {
        matches!(self, TileFetchError::Network { .. })
    }
}

/// Accept a response with status 200 and no other.
pub fn check_status(url: &str, status: u16) -> (r: Result<(), TileFetchError>)
    ensures
        r is Ok <==> status == 200,
        r matches Err(e) ==> e matches TileFetchError::Http { url: u, status: s } && u@
            == crate::redact::redacted_url(url@) && s == status,
{
    if status == 200 {
        Ok(())
    } else {
        Err(TileFetchError::Http { url: redact_url(url), status })
    }
}

/// What a zoom level costs: the tiles that cover the area and the cells it crops to.
#[derive(Debug, Clone, Copy, PartialEq, Eq, Structural)]
pub struct ZoomCost {
    pub tiles: usize,
    pub cells: u64,
}

impl ZoomCost {
    /// The level keeps within the fetch cap and the cell budget.
    pub open spec fn fits(self) -> bool {
        self.tiles <= MAX_TILES_PER_FETCH && self.cells <= MAX_DEM_CELLS
    }
}

/// A provider's highest zoom, kept within the global limits.
pub open spec fn zoom_ceiling(source_max_zoom: u32) -> u32 {
    if source_max_zoom < MIN_ZOOM {
        MIN_ZOOM
    } else if source_max_zoom > MAX_ZOOM {
        MAX_ZOOM
    } else {
        source_max_zoom
    }
}

/// Pick the HIGHEST zoom (≤ `source_max_zoom`) that stays within BOTH the per-fetch tile cap and
/// the [`MAX_DEM_CELLS`] budget: the most detail the selected area can carry without blowing the
/// fetch size or the mesh memory. `costs[z]` is what zoom `z` costs. A tiny area pins to the
/// provider ceiling; one for which nothing fits falls through to [`MIN_ZOOM`].
pub fn pick_zoom(costs: &Vec<ZoomCost>, source_max_zoom: u32) -> (zoom: u32)
    requires
        costs@.len() > MAX_ZOOM,
    ensures
        MIN_ZOOM <= zoom <= zoom_ceiling(source_max_zoom),
        zoom > MIN_ZOOM ==> costs@[zoom as int].fits(),
        forall|z: int|
            zoom < z <= zoom_ceiling(source_max_zoom) ==> !(#[trigger] costs@[z]).fits(),
{
    let mut z: u32 = if source_max_zoom < MIN_ZOOM {
        MIN_ZOOM
    } else if source_max_zoom > MAX_ZOOM {
        MAX_ZOOM
    } else {
        source_max_zoom
    };
    while z > MIN_ZOOM
        invariant
            MIN_ZOOM <= z <= zoom_ceiling(source_max_zoom),
            costs@.len() > MAX_ZOOM,
            forall|y: int|
                z < y <= zoom_ceiling(source_max_zoom) ==> !(#[trigger] costs@[y]).fits(),
        decreases z,
    {
        let cost: ZoomCost = costs[z as usize];
        if cost.tiles <= MAX_TILES_PER_FETCH && cost.cells <= MAX_DEM_CELLS {
            return z;
        }
        z = z - 1;
    }
    z
}

/// Number of tiles from the north-west to the south-east one, both included.
pub open spec fn tiles_between(nw: TileCoord, se: TileCoord) -> int {
    (se.x - nw.x + 1) * (se.y - nw.y + 1)
}

pub fn tile_count(nw: TileCoord, se: TileCoord) -> (count: usize)
    requires
        nw.x <= se.x < u32::MAX,
        nw.y <= se.y < u32::MAX,
        tiles_between(nw, se) <= usize::MAX,
    ensures
        count == tiles_between(nw, se),
{
    let dx: usize = (se.x - nw.x + 1) as usize;
    let dy: usize = (se.y - nw.y + 1) as usize;
    dx * dy
}

/// Index of a tile on an axis that has `2^zoom` of them, from its position on that axis.
pub fn clamp_tile(at: i64, zoom: u32) -> (tile: u32)
    requires
        zoom <= 32,
    ensures
        tile == if at < 0 {
            0
        } else if at >= vstd::arithmetic::power2::pow2(zoom as nat) {
            vstd::arithmetic::power2::pow2(zoom as nat) - 1
        } else {
            at as int
        },
{
    let mut n: i64 = 1;
    let mut i: u32 = 0;
    proof {
        vstd::arithmetic::power2::lemma2_to64();
        vstd::arithmetic::power2::lemma2_to64_rest();
    }
    while i < zoom
        invariant
            i <= zoom <= 32,
            n == vstd::arithmetic::power2::pow2(i as nat),
            n <= 0x1_0000_0000,
            vstd::arithmetic::power2::pow2(32) == 0x1_0000_0000,
        decreases zoom - i,
    {
        proof {
            vstd::arithmetic::power2::lemma_pow2_unfold((i + 1) as nat);
            if i + 1 < 32 {
                vstd::arithmetic::power2::lemma_pow2_strictly_increases((i + 1) as nat, 32);
            }
        }
        n = n * 2;
        i = i + 1;
    }
    proof {
        vstd::arithmetic::power2::lemma_pow2_pos(zoom as nat);
    }
    let max: i64 = n - 1;
    if at < 0 {
        0
    } else if at > max {
        max as u32
    } else {
        at as u32
    }
}

/// Accept the zoom when its tiles keep within the fetch cap.
pub fn gate_zoom(zoom: u32, tiles: usize) -> (r: Result<u32, TileFetchError>)
    ensures
        r matches Ok(z) ==> tiles <= MAX_TILES_PER_FETCH && z == zoom,
        r matches Err(e) ==> tiles > MAX_TILES_PER_FETCH && e == (TileFetchError::BboxTooLarge {
            tiles,
            max: MAX_TILES_PER_FETCH,
            zoom,
        }),
{
    if tiles > MAX_TILES_PER_FETCH {
        return Err(TileFetchError::BboxTooLarge { tiles, max: MAX_TILES_PER_FETCH, zoom });
    }
    Ok(zoom)
}

/// The zoom that a fetch uses: a forced one as it is, otherwise the one that [`pick_zoom`] picks.
pub fn choose_zoom(costs: &Vec<ZoomCost>, source_max_zoom: u32, forced_zoom: Option<u32>) -> (zoom:
    u32)
    requires
        costs@.len() > MAX_ZOOM,
    ensures
        forced_zoom matches Some(z) ==> zoom == z,
        forced_zoom is None ==> {
            &&& MIN_ZOOM <= zoom <= zoom_ceiling(source_max_zoom)
            &&& zoom > MIN_ZOOM ==> costs@[zoom as int].fits()
            &&& forall|z: int|
                zoom < z <= zoom_ceiling(source_max_zoom) ==> !(#[trigger] costs@[z]).fits()
        },
{
    match forced_zoom {
        Some(z) => z,
        None => pick_zoom(costs, source_max_zoom),
    }
}

/// The outcomes of the tries of [`with_retry`], in order: each but the last is an error worth
/// another try, and the last is a success, an error that is not worth another try, or the one that
/// used the retry budget up. There is a wait before each try but the first.
pub open spec fn is_retry_run<T, E, W: Fn(u32), F: Fn() -> Result<T, E>, G: Fn(&E) -> bool>(
    wait: W,
    op: F,
    should_retry: G,
    tries: Seq<Result<T, E>>,
) -> bool {
    &&& 1 <= tries.len() <= MAX_TILE_RETRIES + 1
    &&& forall|i: int|
        0 <= i < tries.len() ==> call_ensures(op, (), #[trigger] tries[i])
    &&& forall|i: int|
        0 <= i < tries.len() - 1 ==> (#[trigger] tries[i] matches Err(e) && call_ensures(
            should_retry,
            (&e,),
            true,
        ))
    &&& forall|n: u32| 1 <= n < tries.len() ==> #[trigger] call_ensures(wait, (n,), ())
    &&& tries.last() is Ok || tries.len() == MAX_TILE_RETRIES + 1 || call_ensures(
        should_retry,
        (&tries.last()->Err_0,),
        false,
    )
}

/// Run `op`, retrying up to [`MAX_TILE_RETRIES`] times on errors `should_retry`
/// accepts (transient transport blips, not HTTP status codes). Before try `n + 1` it calls
/// `wait(n)`. Bounded by the retry budget: never loops forever.
pub fn with_retry<T, E, W: Fn(u32), F: Fn() -> Result<T, E>, G: Fn(&E) -> bool>(
    wait: W,
    op: F,
    should_retry: G,
) -> (result: Result<T, E>)
    requires
        forall|n: u32| 1 <= n <= MAX_TILE_RETRIES ==> #[trigger] call_requires(wait, (n,)),
        call_requires(op, ()),
        forall|e: &E| #[trigger] call_requires(should_retry, (e,)),
    ensures
        exists|tries: Seq<Result<T, E>>| #[trigger]
            is_retry_run(wait, op, should_retry, tries) && tries.last() == result,
{
    let ghost mut tries: Seq<Result<T, E>> = Seq::empty();
    let mut attempt: u32 = 0;
    loop
        invariant
            forall|n: u32| 1 <= n <= MAX_TILE_RETRIES ==> #[trigger] call_requires(wait, (n,)),
            call_requires(op, ()),
            forall|e: &E| #[trigger] call_requires(should_retry, (e,)),
            attempt <= MAX_TILE_RETRIES,
            tries.len() == attempt,
            forall|i: int|
                0 <= i < tries.len() ==> call_ensures(op, (), #[trigger] tries[i]),
            forall|i: int|
                0 <= i < tries.len() ==> (#[trigger] tries[i] matches Err(e) && call_ensures(
                    should_retry,
                    (&e,),
                    true,
                )),
            forall|n: u32| 1 <= n <= attempt ==> #[trigger] call_ensures(wait, (n,), ()),
        decreases MAX_TILE_RETRIES - attempt,
    {
        let outcome: Result<T, E> = op();
        let ghost grown: Seq<Result<T, E>> = tries.push(outcome);
        match outcome {
            Ok(value) => {
                assert(is_retry_run(wait, op, should_retry, grown));
                return Ok(value);
            },
            Err(e) => {
                if attempt == MAX_TILE_RETRIES || !should_retry(&e) {
                    assert(is_retry_run(wait, op, should_retry, grown));
                    return Err(e);
                }
                proof {
                    tries = grown;
                }
                attempt = attempt + 1;
                wait(attempt);
            },
        }
    }
}

/// The pixel `(x, y)` lies under a tile of the given size that is pasted at `(ox, oy)`.
pub open spec fn under_tile(tile: RgbaImage, ox: int, oy: int, x: int, y: int) -> bool {
    ox <= x < ox + tile.width && oy <= y < oy + tile.height
}

/// Copy a tile into the canvas at `(ox, oy)`.
pub fn paste_tile(canvas: &mut RgbaImage, tile: &RgbaImage, ox: u32, oy: u32)
    requires
        old(canvas).wf(),
        tile.wf(),
        ox + tile.width <= old(canvas).width,
        oy + tile.height <= old(canvas).height,
    ensures
        final(canvas).wf(),
        final(canvas).width == old(canvas).width,
        final(canvas).height == old(canvas).height,
        forall|x: int, y: int|
            0 <= x < old(canvas).width && 0 <= y < old(canvas).height
                ==> #[trigger] final(canvas).pixel(x, y) == if under_tile(
                *tile,
                ox as int,
                oy as int,
                x,
                y,
            ) {
                tile.pixel(x - ox, y - oy)
            } else {
                old(canvas).pixel(x, y)
            },
{
    let ghost was: RgbaImage = *canvas;
    let mut y: u32 = 0;
    while y < tile.height
        invariant
            y <= tile.height,
            was.wf(),
            canvas.wf(),
            canvas.width == was.width,
            canvas.height == was.height,
            tile.wf(),
            ox + tile.width <= was.width,
            oy + tile.height <= was.height,
            forall|a: int, b: int|
                0 <= a < was.width && 0 <= b < was.height ==> #[trigger] canvas.pixel(a, b)
                    == if under_tile(*tile, ox as int, oy as int, a, b) && b < oy + y {
                    tile.pixel(a - ox, b - oy)
                } else {
                    was.pixel(a, b)
                },
        decreases tile.height - y,
    {
        let mut x: u32 = 0;
        while x < tile.width
            invariant
                x <= tile.width,
                y < tile.height,
                was.wf(),
                canvas.wf(),
                canvas.width == was.width,
                canvas.height == was.height,
                tile.wf(),
                ox + tile.width <= was.width,
                oy + tile.height <= was.height,
                forall|a: int, b: int|
                    0 <= a < was.width && 0 <= b < was.height ==> #[trigger] canvas.pixel(a, b)
                        == if under_tile(*tile, ox as int, oy as int, a, b) && (b < oy + y || b
                        == oy + y && a < ox + x) {
                        tile.pixel(a - ox, b - oy)
                    } else {
                        was.pixel(a, b)
                    },
            decreases tile.width - x,
        {
            let ghost before: RgbaImage = *canvas;
            canvas.put_pixel(ox + x, oy + y, tile.get_pixel(x, y));
            proof {
                assert forall|a: int, b: int|
                    0 <= a < was.width && 0 <= b < was.height implies #[trigger] canvas.pixel(a, b)
                    == if under_tile(*tile, ox as int, oy as int, a, b) && (b < oy + y || b == oy
                    + y && a < ox + x + 1) {
                    tile.pixel(a - ox, b - oy)
                } else {
                    was.pixel(a, b)
                } by {
                    let w = was.width as int;
                    crate::map::lemma_cell_index(a, b, w, was.height as int);
                    crate::map::lemma_cell_index(ox + x, oy + y, w, was.height as int);
                    assert(before.pixel(a, b) == before.pixels@[b * w + a]);
                    if b * w + a == (oy + y) * w + (ox + x) {
                        crate::map::lemma_cell_index_unique(a, b, ox + x, oy + y, w);
                    }
                }
            }
            x = x + 1;
        }
        y = y + 1;
    }
}

/// Pixel edges `(x0, y0, x1, y1)` of the requested area within the canvas.
///
/// The arguments are the area's north-west and south-east corners relative to the canvas, rounded
/// to pixels. A thin area whose edges round to the same pixel still gets one pixel, so the window
/// is never empty.
pub fn crop_window(nw: (i64, i64), se: (i64, i64), canvas_w: u32, canvas_h: u32) -> (window: (
    u32,
    u32,
    u32,
    u32,
))
    requires
        canvas_w > 0,
        canvas_h > 0,
    ensures
        (window.0 as int, window.2 as int) == crop_axis(nw.0 as int, se.0 as int, canvas_w as int),
        (window.1 as int, window.3 as int) == crop_axis(nw.1 as int, se.1 as int, canvas_h as int),
        window.0 < window.2 <= canvas_w,
        window.1 < window.3 <= canvas_h,
{
    let (x0, x1) = crop_edges(nw.0, se.0, canvas_w);
    let (y0, y1) = crop_edges(nw.1, se.1, canvas_h);
    (x0, y0, x1, y1)
}

/// A value kept within two bounds.
pub open spec fn clamped(v: int, low: int, high: int) -> int {
    if v < low {
        low
    } else if v > high {
        high
    } else {
        v
    }
}

/// First pixel and end of the window on one axis: both edges are kept on the canvas, and the
/// window is at least one pixel wide.
pub open spec fn crop_axis(from: int, to: int, extent: int) -> (int, int) {
    let start = clamped(from, 0, extent - 1);
    let end = clamped(to, 1, extent);
    (
        start,
        if end > start {
            end
        } else {
            start + 1
        },
    )
}

fn crop_edges(from: i64, to: i64, extent: u32) -> (edges: (u32, u32))
    requires
        extent > 0,
    ensures
        (edges.0 as int, edges.1 as int) == crop_axis(from as int, to as int, extent as int),
        edges.0 < edges.1 <= extent,
{
    let start: u32 = if from < 0 {
        0
    } else if from > extent as i64 - 1 {
        extent - 1
    } else {
        from as u32
    };
    let end: u32 = if to < 1 {
        1
    } else if to > extent as i64 {
        extent
    } else {
        to as u32
    };
    let end: u32 = if end > start {
        end
    } else {
        start + 1
    };
    (start, end)
}

/// A composite image stitched from N×M tiles plus the crop region within it
/// that corresponds to the requested area.
pub struct StitchedTiles {
    pub image: RgbaImage,
    pub zoom: u32,
    pub nw_tile: TileCoord,
    pub crop_x0: u32,
    pub crop_y0: u32,
    pub crop_x1: u32,
    pub crop_y1: u32,
}

impl StitchedTiles {
    /// The crop region is a window of the image.
    pub open spec fn wf(&self) -> bool {
        &&& self.image.wf()
        &&& self.crop_x0 < self.crop_x1 <= self.image.width
        &&& self.crop_y0 < self.crop_y1 <= self.image.height
    }

    /// The part of the image in the crop region.
    pub fn cropped(&self) -> (part: RgbaImage)
        requires
            self.wf(),
        ensures
            part.wf(),
            part.width == self.crop_x1 - self.crop_x0,
            part.height == self.crop_y1 - self.crop_y0,
            forall|x: int, y: int|
                0 <= x < part.width && 0 <= y < part.height ==> #[trigger] part.pixel(x, y)
                    == self.image.pixel(self.crop_x0 + x, self.crop_y0 + y),
    {
        let w: u32 = self.crop_x1 - self.crop_x0;
        let h: u32 = self.crop_y1 - self.crop_y0;
        let mut pixels: Vec<[u8; 4]> = Vec::new();
        let mut y: u32 = 0;
        assert(0 * w == 0) by (nonlinear_arith);
        while y < h
            invariant
                self.wf(),
                w == self.crop_x1 - self.crop_x0,
                h == self.crop_y1 - self.crop_y0,
                y <= h,
                pixels@.len() == y * w,
                forall|a: int, b: int|
                    0 <= a < w && 0 <= b < y ==> pixels@[#[trigger] pixel_index(w as int, a, b)]
                        == self.image.pixel(self.crop_x0 + a, self.crop_y0 + b),
            decreases h - y,
        {
            let mut x: u32 = 0;
            while x < w
                invariant
                    self.wf(),
                    w == self.crop_x1 - self.crop_x0,
                    h == self.crop_y1 - self.crop_y0,
                    y < h,
                    x <= w,
                    pixels@.len() == y * w + x,
                    forall|a: int, b: int|
                        0 <= a < w && 0 <= b < y || 0 <= a < x && b == y
                            ==> pixels@[#[trigger] pixel_index(w as int, a, b)]
                            == self.image.pixel(self.crop_x0 + a, self.crop_y0 + b),
                decreases w - x,
            {
                pixels.push(self.image.get_pixel(self.crop_x0 + x, self.crop_y0 + y));
                proof {
                    assert forall|a: int, b: int|
                        0 <= a < w && 0 <= b < y || 0 <= a < x + 1 && b == y
                            implies pixels@[#[trigger] pixel_index(w as int, a, b)]
                        == self.image.pixel(self.crop_x0 + a, self.crop_y0 + b) by {
                        if b < y {
                            crate::map::lemma_cell_index(a, b, w as int, y as int);
                            vstd::arithmetic::mul::lemma_mul_is_commutative(w as int, y as int);
                        }
                    }
                }
                x = x + 1;
            }
            assert((y + 1) * w == y * w + w) by (nonlinear_arith);
            y = y + 1;
        }
        let part: RgbaImage = RgbaImage { width: w, height: h, pixels };
        proof {
            vstd::arithmetic::mul::lemma_mul_is_commutative(w as int, h as int);
            assert forall|a: int, b: int|
                0 <= a < part.width && 0 <= b < part.height implies #[trigger] part.pixel(a, b)
                == self.image.pixel(self.crop_x0 + a, self.crop_y0 + b) by {
                assert(pixel_index(w as int, a, b) == b * w + a);
            }
        }
        part
    }
}

spec fn pixel_index(w: int, x: int, y: int) -> int {
    y * w + x
}

/// A zoom level fits where it keeps to both limits, 64 tiles and 800 000 cells.
pub proof fn fitting_zooms_keep_both_limits(cost: ZoomCost)
    ensures
        cost.fits() <==> cost.tiles <= 64 && cost.cells <= 800_000,
{
}

/// A provider's highest zoom counts as it is where it lies between 1 and 18, and as the nearest of the
/// two otherwise.
pub proof fn zoom_ceiling_keeps_the_limits(source_max_zoom: u32)
    ensures
        1 <= zoom_ceiling(source_max_zoom) <= 18,
        1 <= source_max_zoom <= 18 ==> zoom_ceiling(source_max_zoom) == source_max_zoom,
        source_max_zoom == 0 ==> zoom_ceiling(source_max_zoom) == 1,
        source_max_zoom > 18 ==> zoom_ceiling(source_max_zoom) == 18,
{
}

/// The crop window is the part of the requested range that lies on the canvas: it holds each requested
/// pixel that there is and no other, unless there is none, when it is a single pixel.
pub proof fn crop_keeps_the_requested_pixels(from: int, to: int, extent: int, at: int)
    requires
        extent > 0,
        0 <= at < extent,
    ensures
        ({
            let (start, end) = crop_axis(from, to, extent);
            &&& 0 <= start < end <= extent
            &&& from <= at < to ==> start <= at < end
            &&& start <= at < end ==> from <= at < to || end == start + 1
        }),
{
}

} // verus!
