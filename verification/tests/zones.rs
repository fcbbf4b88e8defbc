use heightmap::zones::{is_convex, point_in_polygon, rasterize, Zone, ZoneMode, SUBCELLS};

fn point(x: f32, y: f32) -> (i32, i32) {
    ((x * SUBCELLS as f32) as i32, (y * SUBCELLS as f32) as i32)
}

fn zone(mode: ZoneMode, points: &[(f32, f32)]) -> Zone {
    Zone { mode, polygon: points.iter().map(|p| point(p.0, p.1)).collect() }
}

/// Axis-aligned rectangle covering cell-centre columns `[x0, x1)` and rows
/// `[y0, y1)` (the polygon spans integer cell coords, centres sit at +0.5).
fn rect(mode: ZoneMode, x0: f32, y0: f32, x1: f32, y1: f32) -> Zone {
    zone(mode, &[(x0, y0), (x1, y0), (x1, y1), (x0, y1)])
}

fn at(mask: &[bool], w: u32, x: u32, y: u32) -> bool {
    mask[(y * w + x) as usize]
}

#[test]
fn omit_zone_drops_inside_keeps_outside() {
    // Omit cells x∈{2,3,4,5}, y∈{2,3,4,5}.
    let z = rect(ZoneMode::Omit, 2.0, 2.0, 6.0, 6.0);
    let mask = rasterize(&vec![z], 10, 10);
    for y in 0..10 {
        for x in 0..10 {
            let inside = (2..6).contains(&x) && (2..6).contains(&y);
            assert_eq!(at(&mask, 10, x, y), !inside, "cell ({x},{y})");
        }
    }
}

#[test]
fn include_zone_keeps_only_inside() {
    let z = rect(ZoneMode::Include, 2.0, 2.0, 6.0, 6.0);
    let mask = rasterize(&vec![z], 10, 10);
    for y in 0..10 {
        for x in 0..10 {
            let inside = (2..6).contains(&x) && (2..6).contains(&y);
            assert_eq!(at(&mask, 10, x, y), inside, "cell ({x},{y})");
        }
    }
}

#[test]
fn omit_wins_over_overlapping_include() {
    let inc = rect(ZoneMode::Include, 1.0, 1.0, 8.0, 8.0); // cells 1..=7
    let omt = rect(ZoneMode::Omit, 3.0, 3.0, 5.0, 5.0); // cells 3..=4
    let mask = rasterize(&vec![inc, omt], 10, 10);
    assert!(!at(&mask, 10, 4, 4), "overlap cell omitted (omit wins)");
    assert!(at(&mask, 10, 1, 1), "include-only cell kept");
    assert!(!at(&mask, 10, 0, 0), "outside include dropped");
}

#[test]
fn concave_polygon_excludes_the_notch() {
    // Square (2,2)-(8,8) with a rectangular notch cut from the top
    // (y≈8 side) between x=4 and x=6 down to y=5 — a genuinely concave loop.
    let z = zone(
        ZoneMode::Omit,
        &[
            (2.0, 2.0),
            (8.0, 2.0),
            (8.0, 8.0),
            (6.0, 8.0),
            (6.0, 5.0),
            (4.0, 5.0),
            (4.0, 8.0),
            (2.0, 8.0),
        ],
    );
    let mask = rasterize(&vec![z], 10, 10);
    // Notch interior is OUTSIDE the polygon → not omitted → kept.
    assert!(at(&mask, 10, 5, 6), "notch cell kept (concave handled)");
    // Solid body below the notch and to the side → omitted.
    assert!(!at(&mask, 10, 5, 3), "body-below-notch cell omitted");
    assert!(!at(&mask, 10, 3, 6), "body-beside-notch cell omitted");
}

#[test]
fn no_zones_keeps_everything() {
    let mask = rasterize(&vec![], 8, 6);
    assert_eq!(mask.len(), 48);
    assert!(mask.iter().all(|&k| k), "empty zone set keeps all cells");
}

#[test]
fn degenerate_omit_has_no_effect() {
    let z = zone(ZoneMode::Omit, &[(2.0, 2.0), (5.0, 5.0)]); // 2 points
    let mask = rasterize(&vec![z], 6, 6);
    assert!(mask.iter().all(|&k| k), "degenerate omit drops nothing");
}

#[test]
fn degenerate_include_alone_keeps_nothing() {
    // There is an include zone, but it contains no cell → every cell fails
    // the include test.
    let z = zone(ZoneMode::Include, &[(2.0, 2.0), (5.0, 5.0)]);
    let mask = rasterize(&vec![z], 6, 6);
    assert!(mask.iter().all(|&k| !k), "lone degenerate include keeps nothing");
}

#[test]
fn abutting_zones_tile_the_shared_edge_exactly_once() {
    // Two rectangles sharing the horizontal edge y = 5.5, which is exactly
    // the centre line of cell row 5. The half-open convention must assign
    // every cell on that edge to exactly one polygon — no gap, no double.
    let a = zone(ZoneMode::Omit, &[(0.0, 1.5), (10.0, 1.5), (10.0, 5.5), (0.0, 5.5)]);
    let b = zone(ZoneMode::Omit, &[(0.0, 5.5), (10.0, 5.5), (10.0, 9.5), (0.0, 9.5)]);
    for cx in 0u32..10 {
        let (px, py) = point(cx as f32 + 0.5, 5.5);
        let n = point_in_polygon(px as i64, py as i64, &a.polygon) as u8
            + point_in_polygon(px as i64, py as i64, &b.polygon) as u8;
        assert_eq!(n, 1, "shared-edge cell {cx} claimed exactly once, got {n}");
    }
}

/// A slanted edge cuts cells by their centers.
#[test]
fn triangle_keeps_the_cells_under_its_slope() {
    let z = zone(ZoneMode::Include, &[(0.0, 0.0), (4.0, 0.0), (0.0, 4.0)]);
    let mask = rasterize(&vec![z], 4, 4);
    for y in 0..4 {
        for x in 0..4 {
            assert_eq!(at(&mask, 4, x, y), x + y + 1 < 4, "cell ({x},{y})");
        }
    }
}

#[test]
fn convex_loops_turn_one_way() {
    let square = vec![(0, 0), (512, 0), (512, 512), (0, 512)];
    assert!(is_convex(&square));
    let backwards: Vec<(i32, i32)> = square.iter().rev().copied().collect();
    assert!(is_convex(&backwards));
    // A vertex in the middle of an edge turns neither way.
    assert!(is_convex(&vec![(0, 0), (256, 0), (512, 0), (512, 512), (0, 512)]));
    // A notch turns the other way.
    assert!(!is_convex(&vec![(0, 0), (512, 0), (256, 256), (512, 512), (0, 512)]));
    assert!(!is_convex(&vec![(0, 0), (512, 0)]));
    let far = vec![(i32::MIN, i32::MIN), (i32::MAX, i32::MIN), (i32::MAX, i32::MAX)];
    assert!(is_convex(&far));
}
