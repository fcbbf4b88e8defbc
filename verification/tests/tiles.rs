use heightmap::fetch::{check_tile, fetch_bbox, tile_of_reply, TileReply};
use heightmap::map::RgbaImage;
use heightmap::tiles::{
    choose_zoom, clamp_tile, crop_window, gate_zoom, pick_zoom, tile_count, with_retry, TileCoord,
    TileFetchError, ZoomCost, MAX_DEM_CELLS, MAX_TILES_PER_FETCH, MAX_TILE_RETRIES, MAX_ZOOM,
    MIN_ZOOM, TILE_SIZE_PX,
};
use std::cell::{Cell, RefCell};
use std::io::Cursor;

/// A transient tile failure must NOT discard the whole fetch: `with_retry` retries and recovers.
#[test]
fn with_retry_recovers_from_transient_failures() {
    let attempts = Cell::new(0u32);
    let result: Result<u32, &str> = with_retry(
        |_| (),
        || {
            let n = attempts.get() + 1;
            attempts.set(n);
            if n < 3 {
                Err("transient")
            } else {
                Ok(n)
            }
        },
        |_e| true,
    );
    assert_eq!(result, Ok(3), "must succeed once the transient failures clear");
    assert_eq!(attempts.get(), 3, "two retries then success");
}

/// A non-retryable error (e.g. an HTTP 404) must fail immediately.
#[test]
fn with_retry_does_not_retry_non_retryable_errors() {
    let attempts = Cell::new(0u32);
    let result: Result<u32, &str> = with_retry(
        |_| (),
        || {
            attempts.set(attempts.get() + 1);
            Err("fatal")
        },
        |_e| false,
    );
    assert_eq!(result, Err("fatal"));
    assert_eq!(attempts.get(), 1, "a non-retryable error must not retry");
}

/// A persistently-failing tile gives up after the bounded retry budget.
#[test]
fn with_retry_gives_up_after_max_attempts() {
    let attempts = Cell::new(0u32);
    let waits = RefCell::new(Vec::new());
    let result: Result<u32, &str> = with_retry(
        |n| waits.borrow_mut().push(n),
        || {
            attempts.set(attempts.get() + 1);
            Err("always")
        },
        |_e| true,
    );
    assert_eq!(result, Err("always"));
    assert_eq!(
        attempts.get(),
        MAX_TILE_RETRIES + 1,
        "one initial try plus MAX_TILE_RETRIES retries",
    );
    assert_eq!(*waits.borrow(), vec![1, 2, 3], "the waits grow");
}

#[derive(Clone, Copy)]
struct Area {
    north: f64,
    south: f64,
    east: f64,
    west: f64,
}

fn horsetooth() -> Area {
    Area { north: 40.560, south: 40.523, east: -105.131, west: -105.183 }
}

/// Web Mercator position in world pixels.
fn world_px(lat: f64, lon: f64, zoom: u32) -> (f64, f64) {
    let total = TILE_SIZE_PX as f64 * 2.0_f64.powi(zoom as i32);
    let lat = lat.clamp(-85.0511, 85.0511).to_radians();
    let x = (lon + 180.0) / 360.0 * total;
    let y = (1.0 - (lat.tan() + 1.0 / lat.cos()).ln() / std::f64::consts::PI) / 2.0 * total;
    (x, y)
}

fn tile_at(lat: f64, lon: f64, zoom: u32) -> TileCoord {
    let (x, y) = world_px(lat, lon, zoom);
    let tile = |v: f64| clamp_tile((v / TILE_SIZE_PX as f64).floor() as i64, zoom);
    TileCoord { z: zoom, x: tile(x), y: tile(y) }
}

fn corners(area: Area, zoom: u32) -> (TileCoord, TileCoord) {
    (tile_at(area.north, area.west, zoom), tile_at(area.south, area.east, zoom))
}

fn cost(area: Area, zoom: u32) -> ZoomCost {
    let (nw, se) = corners(area, zoom);
    let (x0, y0) = world_px(area.north, area.west, zoom);
    let (x1, y1) = world_px(area.south, area.east, zoom);
    ZoomCost {
        tiles: tile_count(nw, se),
        cells: ((x1 - x0).abs() * (y1 - y0).abs()).round() as u64,
    }
}

fn costs(area: Area) -> Vec<ZoomCost> {
    (0..=MAX_ZOOM).map(|z| cost(area, z)).collect()
}

fn crop(area: Area, zoom: u32) -> ((u32, u32, u32, u32), u32, u32) {
    let (nw, se) = corners(area, zoom);
    let canvas_w = (se.x - nw.x + 1) * TILE_SIZE_PX;
    let canvas_h = (se.y - nw.y + 1) * TILE_SIZE_PX;
    let rel = |lat: f64, lon: f64| {
        let (x, y) = world_px(lat, lon, zoom);
        let left = (nw.x * TILE_SIZE_PX) as f64;
        let top = (nw.y * TILE_SIZE_PX) as f64;
        ((x - left).round() as i64, (y - top).round() as i64)
    };
    let window =
        crop_window(rel(area.north, area.west), rel(area.south, area.east), canvas_w, canvas_h);
    (window, canvas_w, canvas_h)
}

#[test]
fn pick_zoom_maximizes_detail_within_budget() {
    let area = horsetooth();
    let z = pick_zoom(&costs(area), MAX_ZOOM);
    let c = cost(area, z);
    assert!(
        c.cells <= MAX_DEM_CELLS && c.tiles <= MAX_TILES_PER_FETCH,
        "chosen z{z} must fit the budget: {} cells, {} tiles",
        c.cells,
        c.tiles,
    );
    if z < MAX_ZOOM {
        let next = cost(area, z + 1);
        assert!(
            next.cells > MAX_DEM_CELLS || next.tiles > MAX_TILES_PER_FETCH,
            "z{} would still fit the budget — pick_zoom left detail on the table",
            z + 1
        );
    }
}

#[test]
fn pick_zoom_two_km_box_beats_the_old_tile_window() {
    let center_lat: f64 = 40.5417;
    let center_lon: f64 = -105.1556;
    let dlat = 2.0 / 111.0 / 2.0;
    let dlon = 2.0 / (111.0 * center_lat.to_radians().cos()) / 2.0;
    let two_km = Area {
        north: center_lat + dlat,
        south: center_lat - dlat,
        east: center_lon + dlon,
        west: center_lon - dlon,
    };
    // The smallest zoom with a tile count in [4,16].
    let old_zoom =
        (MIN_ZOOM..=15).find(|&z| (4..=16).contains(&cost(two_km, z).tiles)).unwrap_or(15);
    let new_zoom = pick_zoom(&costs(two_km), 15);
    let old_cells = cost(two_km, old_zoom).cells;
    let new_cells = cost(two_km, new_zoom).cells;
    assert!(
        new_cells >= old_cells * 3,
        "2 km box: {new_cells} cells (z{new_zoom}) vs {old_cells} (z{old_zoom}) — \
         expected a large improvement (≥3×), not marginal",
    );
    assert!(new_cells <= MAX_DEM_CELLS, "new pick must stay within budget, got {new_cells}");
}

#[test]
fn pick_zoom_keeps_cells_within_memory_budget() {
    let big = Area { north: 41.0, south: 40.0, east: -105.0, west: -106.0 }; // ~100 km
    let z = pick_zoom(&costs(big), MAX_ZOOM);
    assert!(
        cost(big, z).cells <= MAX_DEM_CELLS,
        "pick_zoom chose z{z} with {} cells, over the {MAX_DEM_CELLS}-cell budget",
        cost(big, z).cells,
    );
}

#[test]
fn pick_zoom_respects_low_provider_cap_on_tiny_bbox() {
    let tiny = Area { north: 40.5001, south: 40.5000, east: -105.0000, west: -105.0001 };
    assert_eq!(
        pick_zoom(&costs(tiny), MAX_ZOOM),
        MAX_ZOOM,
        "control: an uncapped tiny bbox saturates at the global ceiling",
    );
    assert_eq!(pick_zoom(&costs(tiny), 15), 15, "must clamp to the provider z15 ceiling");
    assert!(pick_zoom(&costs(tiny), 12) <= 12, "must respect an even lower cap");
}

#[test]
fn crop_window_within_canvas() {
    let area = horsetooth();
    let zoom = pick_zoom(&costs(area), MAX_ZOOM);
    let ((x0, y0, x1, y1), canvas_w, canvas_h) = crop(area, zoom);
    assert!(x0 < x1 && y0 < y1, "crop must be non-degenerate");
    assert!(x1 <= canvas_w && y1 <= canvas_h, "crop must fit within canvas");
}

#[test]
fn pick_zoom_keeps_tile_count_within_fetch_cap() {
    let huge = Area { north: 70.0, south: -70.0, east: 180.0, west: -180.0 };
    let chosen = pick_zoom(&costs(huge), MAX_ZOOM);
    let n = cost(huge, chosen).tiles;
    assert!(
        n <= MAX_TILES_PER_FETCH,
        "pick_zoom chose zoom {chosen} with {n} tiles, exceeding the {MAX_TILES_PER_FETCH} cap",
    );
}

#[test]
fn fetch_cap_is_meaningfully_sized() {
    let huge = Area { north: 70.0, south: -70.0, east: 180.0, west: -180.0 };
    assert!(
        cost(huge, 8).tiles > MAX_TILES_PER_FETCH,
        "expected a continent at zoom 8 to exceed the {MAX_TILES_PER_FETCH}-tile cap",
    );
}

fn select_and_gate_zoom(
    area: Area,
    source_max_zoom: u32,
    forced_zoom: Option<u32>,
) -> Result<u32, TileFetchError> {
    let zoom = choose_zoom(&costs(area), source_max_zoom, forced_zoom);
    gate_zoom(zoom, cost(area, zoom).tiles)
}

#[test]
fn forced_zoom_overrides_pick_zoom_and_round_trips() {
    let area = horsetooth();
    let picked = pick_zoom(&costs(area), MAX_ZOOM);
    assert_eq!(
        select_and_gate_zoom(area, MAX_ZOOM, None).unwrap(),
        picked,
        "forced_zoom=None must reproduce pick_zoom",
    );

    // Forcing a distinct, in-budget zoom round-trips that exact value.
    let forced = picked.saturating_sub(2).max(MIN_ZOOM);
    assert_ne!(forced, picked, "test fixture must force a different zoom");
    assert!(
        cost(area, forced).tiles <= MAX_TILES_PER_FETCH,
        "fixture's forced zoom must be in-budget so it round-trips",
    );
    assert_eq!(
        select_and_gate_zoom(area, MAX_ZOOM, Some(forced)).unwrap(),
        forced,
        "Some(z) must override pick_zoom and use z verbatim",
    );
}

#[test]
fn forced_zoom_over_tile_cap_is_rejected() {
    let big = Area { north: 41.0, south: 40.0, east: -105.0, west: -106.0 };
    // A high zoom over a ~100 km box is far past the 64-tile cap.
    let forced = 14;
    assert!(
        cost(big, forced).tiles > MAX_TILES_PER_FETCH,
        "fixture precondition: forced zoom must exceed the tile cap",
    );
    match select_and_gate_zoom(big, MAX_ZOOM, Some(forced)) {
        Err(TileFetchError::BboxTooLarge { zoom, max, .. }) => {
            assert_eq!(zoom, forced, "error must report the forced zoom");
            assert_eq!(max, MAX_TILES_PER_FETCH);
        }
        other => panic!("expected BboxTooLarge for an over-cap forced zoom, got {other:?}"),
    }
}

#[test]
fn crop_window_never_zero_width_for_thin_bbox() {
    let thin = Area { north: 40.5, south: 40.0, east: -105.0, west: -105.0001 };
    let zoom = pick_zoom(&costs(thin), MAX_ZOOM);
    let ((x0, y0, x1, y1), _, _) = crop(thin, zoom);
    assert!(x1 > x0, "thin-bbox crop must have positive width, got x0={x0} x1={x1}");
    assert!(y1 > y0, "crop must have positive height, got y0={y0} y1={y1}");
}

#[test]
fn tiles_are_clamped_to_the_map() {
    assert_eq!(clamp_tile(-1, 3), 0);
    assert_eq!(clamp_tile(8, 3), 7);
    assert_eq!(clamp_tile(5, 3), 5);
}

/// A tile of one color as a PNG file.
fn tile_png(side: u32, color: [u8; 4]) -> Vec<u8> {
    let img = image::RgbaImage::from_pixel(side, side, image::Rgba(color));
    let mut bytes = Cursor::new(Vec::new());
    img.write_to(&mut bytes, image::ImageFormat::Png).expect("test PNG must encode");
    bytes.into_inner()
}

fn at(z: u32, x: u32, y: u32) -> TileCoord {
    TileCoord { z, x, y }
}

#[test]
fn an_area_is_stitched_from_its_tiles() {
    let fetches = Cell::new(0);
    let seen = RefCell::new(Vec::new());
    let area = fetch_bbox(
        at(5, 10, 20),
        at(5, 11, 21),
        ((100, 200), (300, 401)),
        |_| (),
        |c| format!("https://tiles/{}/{}/{}", c.z, c.x, c.y),
        |url| {
            fetches.set(fetches.get() + 1);
            // The first request of all fails in the transport.
            if fetches.get() == 1 {
                return TileReply::Failed("reset".to_string());
            }
            let n: Vec<u8> = url.rsplit('/').take(2).map(|p| p.parse().unwrap()).collect();
            TileReply::Response { status: 200, body: Ok(tile_png(256, [n[1], n[0], 7, 255])) }
        },
        |done, of| seen.borrow_mut().push((done, of)),
        || false,
    )
    .expect("the area must be fetched");
    assert_eq!(fetches.get(), 5);
    assert_eq!(*seen.borrow(), vec![(1, 4), (2, 4), (3, 4), (4, 4)]);
    assert_eq!((area.image.width, area.image.height), (512, 512));
    assert_eq!(area.image.get_pixel(255, 255), [10, 20, 7, 255]);
    assert_eq!(area.image.get_pixel(256, 255), [11, 20, 7, 255]);
    assert_eq!(area.image.get_pixel(255, 256), [10, 21, 7, 255]);
    let part = area.cropped();
    assert_eq!((part.width, part.height), (200, 201));
    assert_eq!(part.get_pixel(155, 55), [10, 20, 7, 255]);
    assert_eq!(part.get_pixel(156, 56), [11, 21, 7, 255]);
}

fn fetch_one(reply: fn() -> TileReply, cancelled: bool) -> Result<(), TileFetchError> {
    fetch_bbox(
        at(3, 1, 1),
        at(3, 1, 1),
        ((0, 0), (9, 9)),
        |_| (),
        |_| "https://t/1.png?key=hush".to_string(),
        |_| reply(),
        |_, _| (),
        || cancelled,
    )
    .map(|_| ())
}

#[test]
fn fetch_errors_are_told_apart_and_redacted() {
    let cancelled = fetch_one(|| TileReply::Failed(String::new()), true).unwrap_err();
    assert_eq!(cancelled.message(), "cancelled by user");
    let failed = fetch_one(|| TileReply::Failed("https://t?key=hush down".to_string()), false);
    let text = failed.unwrap_err().message();
    assert!(text.starts_with("network error fetching https://t/1.png?key=***: "), "{text}");
    assert!(!text.contains("hush"), "{text}");
    let missing = || TileReply::Response { status: 404, body: Ok(Vec::new()) };
    assert_eq!(
        fetch_one(missing, false).unwrap_err().message(),
        "HTTP 404 fetching https://t/1.png?key=***"
    );
    let cut = || TileReply::Response { status: 200, body: Err("cut off".to_string()) };
    assert_eq!(
        fetch_one(cut, false).unwrap_err().message(),
        "network error fetching https://t/1.png?key=***: cut off"
    );
    let small = || TileReply::Response { status: 200, body: Ok(tile_png(128, [1; 4])) };
    assert_eq!(
        fetch_one(small, false).unwrap_err().message(),
        "could not decode tile from https://t/1.png?key=***: expected 256x256 tile, got 128x128"
    );
    let junk = || TileReply::Response { status: 200, body: Ok(vec![1, 2, 3]) };
    assert!(matches!(fetch_one(junk, false), Err(TileFetchError::Decode { .. })));
}

#[test]
fn too_large_an_area_is_refused() {
    let err = fetch_bbox(
        at(9, 0, 0),
        at(9, 8, 7),
        ((0, 0), (9, 9)),
        |_| (),
        |_| String::new(),
        |_| TileReply::Failed(String::new()),
        |_, _| (),
        || false,
    )
    .map(|_| ())
    .unwrap_err();
    assert!(matches!(err, TileFetchError::BboxTooLarge { tiles: 72, max: 64, zoom: 9 }));
    assert!(err.message().starts_with("bbox covers 72 tiles at zoom 9 (max 64 per request)"));
}

#[test]
fn only_pictures_of_tile_size_are_tiles() {
    assert!(check_tile("u", Ok(RgbaImage::new(256, 256))).is_ok());
    assert!(check_tile("u", Ok(RgbaImage::new(256, 255))).is_err());
    assert!(check_tile("u", Err("bad".to_string())).is_err());
    let ok = TileReply::Response { status: 200, body: Ok(tile_png(256, [3, 4, 5, 6])) };
    let tile = tile_of_reply("u", ok).expect("a tile");
    assert_eq!(tile.get_pixel(255, 0), [3, 4, 5, 6]);
}
