//! Fetching the tiles of an area and stitching them into one image.
use crate::files::decode_bytes;
use crate::map::RgbaImage;
use crate::redact::redact_url;
use crate::text::decimal;
use crate::tiles::{
    check_status, crop_window, gate_zoom, paste_tile, tile_count, with_retry, StitchedTiles,
    TileCoord, TileFetchError, MAX_TILES_PER_FETCH, MAX_TILE_RETRIES, TILE_SIZE_PX,
};
use vstd::prelude::*;
use vstd::string::StringExecFns;

verus! {

/// What came of a request for a tile.
pub enum TileReply {
    /// A response, with its body as far as it could be read.
    Response { status: u16, body: Result<Vec<u8>, String> },
    /// No response: the transport failed.
    Failed(String),
}

/// What is wrong with a tile of another size.
pub open spec fn size_text(width: u32, height: u32) -> Seq<char> {
    "expected 256x256 tile, got "@ + crate::text::decimal_chars(width as nat) + "x"@
        + crate::text::decimal_chars(height as nat)
}

/// The tile that a decoded picture gives: a picture of the tile size is one, anything else is a
/// decoding error that names the redacted URL.
pub open spec fn is_checked_tile(
    url: Seq<char>,
    decoded: Result<RgbaImage, String>,
    tile: Result<RgbaImage, TileFetchError>,
) -> bool {
    let fits = decoded matches Ok(p) && p.width == TILE_SIZE_PX && p.height == TILE_SIZE_PX;
    match tile {
        Ok(t) => fits && decoded == Ok::<RgbaImage, String>(t),
        Err(TileFetchError::Decode { url: u, source }) => {
            &&& !fits
            &&& u@ == crate::redact::redacted_url(url)
            &&& source@ == match decoded {
                Ok(p) => size_text(p.width, p.height),
                Err(e) => e@,
            }
        },
        Err(_) => false,
    }
}

/// Accept a decoded picture as a tile. Every tile has to be exactly [`TILE_SIZE_PX`] square, because
/// the place of a tile in the composite image rests on it.
pub fn check_tile(url: &str, decoded: Result<RgbaImage, String>) -> (tile: Result<
    RgbaImage,
    TileFetchError,
>)
    ensures
        is_checked_tile(url@, decoded, tile),
{
    match decoded {
        Ok(picture) => {
            if picture.width != TILE_SIZE_PX || picture.height != TILE_SIZE_PX {
                let mut source: String = "expected 256x256 tile, got ".to_owned();
                source.append(decimal(picture.width as u64).as_str());
                source.append("x");
                source.append(decimal(picture.height as u64).as_str());
                return Err(TileFetchError::Decode { url: redact_url(url), source });
            }
            Ok(picture)
        },
        Err(source) => Err(TileFetchError::Decode { url: redact_url(url), source }),
    }
}

/// The tile that a reply gives. Only a response with status 200 has one.
pub open spec fn is_tile_of_reply(
    url: Seq<char>,
    reply: TileReply,
    tile: Result<RgbaImage, TileFetchError>,
) -> bool {
    match reply {
        TileReply::Failed(failure) => tile matches Err(
            TileFetchError::Network { url: u, source },
        ) && u@ == crate::redact::redacted_url(url) && source@ == crate::redact::redacted_text(
            failure@,
        ),
        TileReply::Response { status, body } => if status != 200 {
            tile matches Err(TileFetchError::Http { url: u, status: s }) && u@
                == crate::redact::redacted_url(url) && s == status
        } else {
            match body {
                Err(e) => tile matches Err(TileFetchError::Network { url: u, source }) && u@
                    == crate::redact::redacted_url(url) && source == e,
                Ok(bytes) => exists|decoded: Result<RgbaImage, String>|
                    #[trigger] is_checked_tile(url, decoded, tile) && crate::files::may_decode_as(
                        bytes@,
                        decoded,
                    ),
            }
        },
    }
}

/// Turn a reply into a tile.
pub fn tile_of_reply(url: &str, reply: TileReply) -> (tile: Result<RgbaImage, TileFetchError>)
    ensures
        is_tile_of_reply(url@, reply, tile),
        tile matches Ok(t) ==> t.wf() && t.width == TILE_SIZE_PX && t.height == TILE_SIZE_PX,
{
    match reply {
        TileReply::Failed(failure) => Err(TileFetchError::transport(url, failure.as_str())),
        TileReply::Response { status, body } => {
            if let Err(e) = check_status(url, status) {
                return Err(e);
            }
            match body {
                Err(source) => Err(TileFetchError::Network { url: redact_url(url), source }),
                Ok(bytes) => {
                    let decoded: Result<RgbaImage, String> = decode_bytes(&bytes);
                    let ghost picture: Result<RgbaImage, String> = decoded;
                    let tile: Result<RgbaImage, TileFetchError> = check_tile(url, decoded);
                    assert(is_checked_tile(url@, picture, tile));
                    tile
                },
            }
        },
    }
}

/// A try at fetching a tile can come to this.
pub open spec fn is_try<U: Fn(TileCoord) -> String, R: Fn(&str) -> TileReply>(
    url_of: U,
    request: R,
    coord: TileCoord,
    tile: Result<RgbaImage, TileFetchError>,
) -> bool {
    &&& tile matches Ok(t) ==> t.wf() && t.width == TILE_SIZE_PX && t.height == TILE_SIZE_PX
    &&& exists|url: String, sent: &str, reply: TileReply|
        #[trigger] call_ensures(url_of, (coord,), url) && sent@ == url@ && #[trigger] call_ensures(
            request,
            (sent,),
            reply,
        ) && is_tile_of_reply(url@, reply, tile)
}

/// Fetch one tile, without another try.
pub fn fetch_one_tile<U: Fn(TileCoord) -> String, R: Fn(&str) -> TileReply>(
    url_of: &U,
    request: &R,
    coord: TileCoord,
) -> (tile: Result<RgbaImage, TileFetchError>)
    requires
        call_requires(*url_of, (coord,)),
        forall|url: &str| #[trigger] call_requires(*request, (url,)),
    ensures
        is_try(*url_of, *request, coord, tile),
{
    let url: String = url_of(coord);
    let sent: &str = url.as_str();
    let reply: TileReply = request(sent);
    let ghost replied: TileReply = reply;
    let tile: Result<RgbaImage, TileFetchError> = tile_of_reply(sent, reply);
    assert(call_ensures(*url_of, (coord,), url) && call_ensures(*request, (sent,), replied));
    tile
}

/// The tries at a tile, in order: each but the last failed in the transport, and the last is a tile,
/// an error of another kind, or the one that used the retry budget up. There is a wait before each
/// try but the first.
pub open spec fn are_tries<
    W: Fn(u32),
    U: Fn(TileCoord) -> String,
    R: Fn(&str) -> TileReply,
>(
    wait: W,
    url_of: U,
    request: R,
    coord: TileCoord,
    tries: Seq<Result<RgbaImage, TileFetchError>>,
) -> bool {
    &&& 1 <= tries.len() <= MAX_TILE_RETRIES + 1
    &&& forall|i: int|
        0 <= i < tries.len() ==> #[trigger] is_try(url_of, request, coord, tries[i])
    &&& forall|i: int|
        0 <= i < tries.len() - 1 ==> (#[trigger] tries[i] matches Err(e) && e is Network)
    &&& forall|n: u32| 1 <= n < tries.len() ==> #[trigger] call_ensures(wait, (n,), ())
    &&& tries.last() matches Err(e) ==> tries.len() == MAX_TILE_RETRIES + 1 || !(e is Network)
}

/// Fetching a tile, with retries, can come to this.
pub open spec fn is_fetched<
    W: Fn(u32),
    U: Fn(TileCoord) -> String,
    R: Fn(&str) -> TileReply,
>(
    wait: W,
    url_of: U,
    request: R,
    coord: TileCoord,
    tile: Result<RgbaImage, TileFetchError>,
) -> bool {
    exists|tries: Seq<Result<RgbaImage, TileFetchError>>| #[trigger]
        are_tries(wait, url_of, request, coord, tries) && tries.last() == tile
}

spec fn can_try<U: Fn(TileCoord) -> String, R: Fn(&str) -> TileReply>(
    url_of: &U,
    request: &R,
    coord: TileCoord,
) -> bool {
    call_requires(*url_of, (coord,)) && forall|url: &str| #[trigger]
        call_requires(*request, (url,))
}

spec fn tries_to<U: Fn(TileCoord) -> String, R: Fn(&str) -> TileReply>(
    url_of: &U,
    request: &R,
    coord: TileCoord,
    tile: Result<RgbaImage, TileFetchError>,
) -> bool {
    is_try(*url_of, *request, coord, tile)
}

/// Fetch one tile, trying again after a transport failure.
fn fetch_tile<W: Fn(u32), U: Fn(TileCoord) -> String, R: Fn(&str) -> TileReply>(
    wait: W,
    url_of: &U,
    request: &R,
    coord: TileCoord,
) -> (tile: Result<RgbaImage, TileFetchError>)
    requires
        forall|n: u32| 1 <= n <= MAX_TILE_RETRIES ==> #[trigger] call_requires(wait, (n,)),
        call_requires(*url_of, (coord,)),
        forall|url: &str| #[trigger] call_requires(*request, (url,)),
    ensures
        is_fetched(wait, *url_of, *request, coord, tile),
        tile matches Ok(t) ==> t.wf() && t.width == TILE_SIZE_PX && t.height == TILE_SIZE_PX,
{
    let once = || -> (tile: Result<RgbaImage, TileFetchError>)
        requires
            can_try(url_of, request, coord),
        ensures
            tries_to(url_of, request, coord, tile),
        { fetch_one_tile(url_of, request, coord) };
    let again = |e: &TileFetchError| -> (b: bool)
        ensures
            b == e is Network,
        { e.is_transient() };
    let tile: Result<RgbaImage, TileFetchError> = with_retry(wait, once, again);
    proof {
        let tries = choose|tries: Seq<Result<RgbaImage, TileFetchError>>| #[trigger]
            crate::tiles::is_retry_run(wait, once, again, tries) && tries.last() == tile;
        assert forall|i: int| 0 <= i < tries.len() implies #[trigger] is_try(
            *url_of,
            *request,
            coord,
            tries[i],
        ) by {
            assert(call_ensures(once, (), tries[i]));
        }
        assert(are_tries(wait, *url_of, *request, coord, tries));
        assert(is_try(*url_of, *request, coord, tries[tries.len() - 1]));
    }
    tile
}

/// Number of columns of tiles between two corners.
pub open spec fn columns(nw: TileCoord, se: TileCoord) -> int {
    se.x - nw.x + 1
}

/// The tile with number `k` of an area, row by row from its north-west corner.
pub open spec fn nth_tile(nw: TileCoord, se: TileCoord, k: int) -> TileCoord {
    TileCoord {
        z: nw.z,
        x: (nw.x + k % columns(nw, se)) as u32,
        y: (nw.y + k / columns(nw, se)) as u32,
    }
}

/// The first tiles of the area, each as it was fetched.
pub open spec fn are_fetched<
    W: Fn(u32),
    U: Fn(TileCoord) -> String,
    R: Fn(&str) -> TileReply,
>(
    wait: W,
    url_of: U,
    request: R,
    nw: TileCoord,
    se: TileCoord,
    tiles: Seq<RgbaImage>,
) -> bool {
    forall|k: int|
        0 <= k < tiles.len() ==> #[trigger] is_fetched(
            wait,
            url_of,
            request,
            nth_tile(nw, se, k),
            Ok(tiles[k]),
        )
}

/// Number of the tile that a pixel of the composite image lies in.
pub open spec fn tile_under(x: int, y: int, columns: int) -> int {
    y / 256 * columns + x / 256
}

/// The image shows the tiles in their places, `columns` to a row.
pub open spec fn shows_tiles(image: RgbaImage, tiles: Seq<RgbaImage>, columns: int) -> bool {
    forall|x: int, y: int|
        0 <= x < image.width && 0 <= y < image.height && tile_under(x, y, columns) < tiles.len()
            ==> #[trigger] image.pixel(x, y) == tiles[tile_under(x, y, columns)].pixel(
            x % 256,
            y % 256,
        )
}

/// What fetching an area comes to, once it is within the tile cap: the composite image of all its
/// tiles with the crop window of the area, or the reason why the next tile is missing.
pub open spec fn is_area_outcome<
    W: Fn(u32),
    U: Fn(TileCoord) -> String,
    R: Fn(&str) -> TileReply,
    P: Fn(usize, usize),
    C: Fn() -> bool,
>(
    wait: W,
    url_of: U,
    request: R,
    progress: P,
    cancelled: C,
    nw: TileCoord,
    se: TileCoord,
    corners: ((i64, i64), (i64, i64)),
    tiles: Seq<RgbaImage>,
    outcome: Result<StitchedTiles, TileFetchError>,
) -> bool {
    &&& are_fetched(wait, url_of, request, nw, se, tiles)
    &&& forall|n: usize|
        1 <= n <= tiles.len() ==> #[trigger] call_ensures(
            progress,
            (n, crate::tiles::tiles_between(nw, se) as usize),
            (),
        )
    &&& tiles.len() > 0 ==> call_ensures(cancelled, (), false)
    &&& match outcome {
        Ok(area) => {
            &&& tiles.len() == crate::tiles::tiles_between(nw, se)
            &&& area.wf()
            &&& area.image.width == columns(nw, se) * 256
            &&& area.image.height == (se.y - nw.y + 1) * 256
            &&& shows_tiles(area.image, tiles, columns(nw, se))
            &&& area.zoom == nw.z
            &&& area.nw_tile == nw
            &&& (area.crop_x0 as int, area.crop_x1 as int) == crate::tiles::crop_axis(
                corners.0.0 as int,
                corners.1.0 as int,
                area.image.width as int,
            )
            &&& (area.crop_y0 as int, area.crop_y1 as int) == crate::tiles::crop_axis(
                corners.0.1 as int,
                corners.1.1 as int,
                area.image.height as int,
            )
        },
        Err(e) => {
            &&& tiles.len() < crate::tiles::tiles_between(nw, se)
            &&& (e is Cancelled && call_ensures(cancelled, (), true)) || (call_ensures(
                cancelled,
                (),
                false,
            ) && is_fetched(
                wait,
                url_of,
                request,
                nth_tile(nw, se, tiles.len() as int),
                Err(e),
            ))
        },
    }
}

proof fn lemma_tile_under(x: int, y: int, gx: int, gy: int, columns: int)
    requires
        0 <= gx < columns,
        0 <= gy,
        0 <= x < columns * 256,
        0 <= y,
    ensures
        tile_under(x, y, columns) == gy * columns + gx <==> gx * 256 <= x < gx * 256 + 256 && gy
            * 256 <= y < gy * 256 + 256,
{
    let (tx, ty) = (x / 256, y / 256);
    assert(0 <= tx < columns);
    if tile_under(x, y, columns) == gy * columns + gx {
        crate::map::lemma_cell_index_unique(tx, ty, gx, gy, columns);
    }
}

/// Fetch every tile between two corners, composite them into a single image, and compute the crop
/// window of the area, whose corners are given in pixels of that image.
///
/// `progress` is told how many tiles of how many are there. Cancellation is checked between tiles;
/// partial fetches are discarded.
pub fn fetch_bbox<
    W: Fn(u32) + Copy,
    U: Fn(TileCoord) -> String,
    R: Fn(&str) -> TileReply,
    P: Fn(usize, usize),
    C: Fn() -> bool,
>(
    nw: TileCoord,
    se: TileCoord,
    corners: ((i64, i64), (i64, i64)),
    wait: W,
    url_of: U,
    request: R,
    progress: P,
    cancelled: C,
) -> (outcome: Result<StitchedTiles, TileFetchError>)
    requires
        nw.x <= se.x < u32::MAX,
        nw.y <= se.y < u32::MAX,
        crate::tiles::tiles_between(nw, se) <= usize::MAX,
        forall|n: u32| 1 <= n <= MAX_TILE_RETRIES ==> #[trigger] call_requires(wait, (n,)),
        forall|c: TileCoord| #[trigger] call_requires(url_of, (c,)),
        forall|url: &str| #[trigger] call_requires(request, (url,)),
        forall|n: usize, of: usize| #[trigger] call_requires(progress, (n, of)),
        call_requires(cancelled, ()),
    ensures
        crate::tiles::tiles_between(nw, se) > MAX_TILES_PER_FETCH ==> outcome == Err::<
            StitchedTiles,
            TileFetchError,
        >(
            TileFetchError::BboxTooLarge {
                tiles: crate::tiles::tiles_between(nw, se) as usize,
                max: MAX_TILES_PER_FETCH,
                zoom: nw.z,
            },
        ),
        crate::tiles::tiles_between(nw, se) <= MAX_TILES_PER_FETCH ==> exists|
            tiles: Seq<RgbaImage>,
        | #[trigger]
            is_area_outcome(
                wait,
                url_of,
                request,
                progress,
                cancelled,
                nw,
                se,
                corners,
                tiles,
                outcome,
            ),
{
    let count: usize = tile_count(nw, se);
    if let Err(e) = gate_zoom(nw.z, count) {
        return Err(e);
    }
    let grid_w: u32 = se.x - nw.x + 1;
    let grid_h: u32 = se.y - nw.y + 1;
    let ghost cols: int = columns(nw, se);
    let ghost rows: int = se.y - nw.y + 1;
    proof {
        assert(cols <= 64 && rows <= 64) by (nonlinear_arith)
            requires
                cols * rows <= 64,
                cols >= 1,
                rows >= 1,
        ;
        assert((cols * 256) * (rows * 256) == (cols * rows) * 65536) by (nonlinear_arith);
    }
    let mut canvas: RgbaImage = RgbaImage::new(grid_w * TILE_SIZE_PX, grid_h * TILE_SIZE_PX);
    let ghost mut tiles: Seq<RgbaImage> = Seq::empty();
    let mut k: usize = 0;
    while k < count
        invariant
            k <= count,
            count == cols * rows,
            count <= 64,
            cols == columns(nw, se) == grid_w,
            rows == grid_h == se.y - nw.y + 1,
            1 <= cols <= 64,
            1 <= rows <= 64,
            canvas.wf(),
            canvas.width == cols * 256,
            canvas.height == rows * 256,
            tiles.len() == k,
            are_fetched(wait, url_of, request, nw, se, tiles),
            shows_tiles(canvas, tiles, cols),
            forall|n: u32| 1 <= n <= MAX_TILE_RETRIES ==> #[trigger] call_requires(wait, (n,)),
            forall|c: TileCoord| #[trigger] call_requires(url_of, (c,)),
            forall|url: &str| #[trigger] call_requires(request, (url,)),
            forall|n: usize, of: usize| #[trigger] call_requires(progress, (n, of)),
            call_requires(cancelled, ()),
            crate::tiles::tiles_between(nw, se) == count,
            forall|n: usize| 1 <= n <= k ==> #[trigger] call_ensures(progress, (n, count), ()),
            k > 0 ==> call_ensures(cancelled, (), false),
        decreases count - k,
    {
        if cancelled() {
            let stopped: Result<StitchedTiles, TileFetchError> = Err(TileFetchError::Cancelled);
            assert(is_area_outcome(
                wait,
                url_of,
                request,
                progress,
                cancelled,
                nw,
                se,
                corners,
                tiles,
                stopped,
            ));
            return stopped;
        }
        proof {
            crate::map::lemma_cell_of_index(k as int, cols, rows);
        }
        let gx: u32 = (k % grid_w as usize) as u32;
        let gy: u32 = (k / grid_w as usize) as u32;
        let coord: TileCoord = TileCoord { z: nw.z, x: nw.x + gx, y: nw.y + gy };
        assert(coord == nth_tile(nw, se, k as int));
        match fetch_tile(wait, &url_of, &request, coord) {
            Ok(tile) => {
                let ghost before: RgbaImage = canvas;
                let ghost was: Seq<RgbaImage> = tiles;
                paste_tile(&mut canvas, &tile, gx * TILE_SIZE_PX, gy * TILE_SIZE_PX);
                proof {
                    tiles = tiles.push(tile);
                    assert forall|i: int| 0 <= i < tiles.len() implies #[trigger] is_fetched(
                        wait,
                        url_of,
                        request,
                        nth_tile(nw, se, i),
                        Ok(tiles[i]),
                    ) by {
                        if i < was.len() {
                            assert(is_fetched(
                                wait,
                                url_of,
                                request,
                                nth_tile(nw, se, i),
                                Ok(was[i]),
                            ));
                        }
                    }
                    assert forall|x: int, y: int|
                        0 <= x < canvas.width && 0 <= y < canvas.height && tile_under(x, y, cols)
                            < tiles.len() implies #[trigger] canvas.pixel(x, y)
                        == tiles[tile_under(x, y, cols)].pixel(x % 256, y % 256) by {
                        lemma_tile_under(x, y, gx as int, gy as int, cols);
                        assert(before.pixel(x, y) == before.pixel(x, y));
                        if tile_under(x, y, cols) < k {
                            assert(tile_under(x, y, cols) >= 0) by (nonlinear_arith)
                                requires
                                    0 <= x,
                                    0 <= y,
                                    cols >= 1,
                                    tile_under(x, y, cols) == y / 256 * cols + x / 256,
                            ;
                            assert(tiles[tile_under(x, y, cols)] == was[tile_under(x, y, cols)]);
                            assert(!crate::tiles::under_tile(
                                tile,
                                gx as int * 256,
                                gy as int * 256,
                                x,
                                y,
                            ));
                            assert(canvas.pixel(x, y) == before.pixel(x, y));
                        } else {
                            assert(tile_under(x, y, cols) == gy * cols + gx);
                            assert(x - gx * 256 == x % 256 && y - gy * 256 == y % 256);
                            assert(crate::tiles::under_tile(
                                tile,
                                gx as int * 256,
                                gy as int * 256,
                                x,
                                y,
                            ));
                            assert(tiles[tile_under(x, y, cols)] == tile);
                        }
                    }
                }
                k = k + 1;
                progress(k, count);
            },
            Err(e) => {
                let failed: Result<StitchedTiles, TileFetchError> = Err(e);
                assert(is_area_outcome(
                    wait,
                    url_of,
                    request,
                    progress,
                    cancelled,
                    nw,
                    se,
                    corners,
                    tiles,
                    failed,
                ));
                return failed;
            },
        }
    }
    let (x0, y0, x1, y1) = crop_window(corners.0, corners.1, canvas.width, canvas.height);
    let area: StitchedTiles = StitchedTiles {
        image: canvas,
        zoom: nw.z,
        nw_tile: nw,
        crop_x0: x0,
        crop_y0: y0,
        crop_x1: x1,
        crop_y1: y1,
    };
    let done: Result<StitchedTiles, TileFetchError> = Ok(area);
    assert(is_area_outcome(
        wait,
        url_of,
        request,
        progress,
        cancelled,
        nw,
        se,
        corners,
        tiles,
        done,
    ));
    done
}

/// An area's tiles are those between its corners, each once: tile `k` lies between them, it is another
/// one for each number, and the tile of any column and row between them has a number.
pub proof fn every_tile_of_an_area_is_fetched_once(
    nw: TileCoord,
    se: TileCoord,
    k: int,
    other: int,
    x: u32,
    y: u32,
) -> (number: int)
    requires
        nw.x <= x <= se.x,
        nw.y <= y <= se.y,
        0 <= k < crate::tiles::tiles_between(nw, se),
        0 <= other < crate::tiles::tiles_between(nw, se),
    ensures
        nth_tile(nw, se, k).z == nw.z,
        nw.x <= nth_tile(nw, se, k).x <= se.x,
        nw.y <= nth_tile(nw, se, k).y <= se.y,
        k != other ==> nth_tile(nw, se, k) != nth_tile(nw, se, other),
        0 <= number < (se.x - nw.x + 1) * (se.y - nw.y + 1),
        number < crate::tiles::tiles_between(nw, se),
        nth_tile(nw, se, number) == (TileCoord { z: nw.z, x, y }),
{
    let (w, h) = (columns(nw, se), se.y - nw.y + 1);
    crate::map::lemma_cell_of_index(k, w, h);
    crate::map::lemma_cell_of_index(other, w, h);
    let (cx, cy) = (x - nw.x, y - nw.y);
    crate::map::lemma_cell_index(cx, cy, w, h);
    vstd::arithmetic::div_mod::lemma_fundamental_div_mod_converse(cy * w + cx, w, cy, cx);
    cy * w + cx
}

/// The composite image shows each tile where it lies in the area, 256 pixels to a column and to a row.
pub proof fn tiles_lie_where_they_belong(
    image: RgbaImage,
    tiles: Seq<RgbaImage>,
    width: int,
    column: int,
    row: int,
    x: int,
    y: int,
)
    requires
        shows_tiles(image, tiles, width),
        0 <= column < width,
        0 <= row,
        row * width + column < tiles.len(),
        0 <= x < 256,
        0 <= y < 256,
        column * 256 + x < image.width,
        row * 256 + y < image.height,
    ensures
        image.pixels@[(row * 256 + y) * image.width + (column * 256 + x)]
            == tiles[row * width + column].pixels@[y * tiles[row * width + column].width + x],
{
    let (px, py) = (column * 256 + x, row * 256 + y);
    assert(px / 256 == column && px % 256 == x);
    assert(py / 256 == row && py % 256 == y);
    assert(tile_under(px, py, width) == row * width + column);
    assert(image.pixel(px, py) == tiles[row * width + column].pixel(x, y));
}

/// A tile is 256 pixels wide and high: a picture of that size is one as it is, and no other picture nor a
/// failed decoding gives a tile.
pub proof fn tiles_have_their_size(
    url: Seq<char>,
    decoded: Result<RgbaImage, String>,
    tile: Result<RgbaImage, TileFetchError>,
)
    requires
        is_checked_tile(url, decoded, tile),
    ensures
        decoded is Err ==> tile is Err,
        decoded matches Ok(p) ==> (p.width == 256 && p.height == 256 ==> tile
            == Ok::<RgbaImage, TileFetchError>(p)) && (!(p.width == 256 && p.height == 256)
            ==> tile is Err),
        tile matches Err(e) ==> e is Decode,
{
}

/// Only a response with status 200 gives a tile; any other status is an HTTP error, and a failure of the
/// transport a network error.
pub proof fn only_good_responses_give_tiles(
    url: Seq<char>,
    reply: TileReply,
    tile: Result<RgbaImage, TileFetchError>,
)
    requires
        is_tile_of_reply(url, reply, tile),
    ensures
        tile is Ok ==> (reply matches TileReply::Response { status, body } && status == 200 && body is Ok),
        reply is Failed ==> (tile matches Err(e) && e is Network),
        reply matches TileReply::Response { status, body } ==> (status != 200 ==> (tile matches Err(
            TileFetchError::Http { status: s, .. },
        ) && s == status)),
{
}

/// A tile is tried at most four times, and again only after a failure of the transport; it is given up for
/// such a failure only after the fourth try.
pub proof fn tiles_are_tried_four_times<
    W: Fn(u32),
    U: Fn(TileCoord) -> String,
    R: Fn(&str) -> TileReply,
>(
    wait: W,
    url_of: U,
    request: R,
    coord: TileCoord,
    tries: Seq<Result<RgbaImage, TileFetchError>>,
    i: int,
)
    requires
        are_tries(wait, url_of, request, coord, tries),
        0 <= i < tries.len(),
    ensures
        tries.len() <= 4,
        i < tries.len() - 1 ==> (tries[i] matches Err(e) && e is Network),
        (tries.last() matches Err(e) && e is Network) ==> tries.len() == 4,
{
}

} // verus!
