use heightmap::map::{Colormap, RgbaImage};
use heightmap::sculpt::paint::{
    default_palette, gradient_palette, splatmap_to_indices, PaintColormap, PaintGrid,
    DEFAULT_BRICK_COLOR, GRADIENT_BANDS,
};

/// An all-unpainted grid resolves every cell to the palette's slot-0 color,
/// which equals `DEFAULT_BRICK_COLOR` — the byte-identity guard: a no-paint
/// build colors exactly as the flat colormap.
#[test]
fn blank_grid_is_default_color() {
    let g = PaintGrid::blank(3, 2);
    assert!(g.is_blank());
    let pal = default_palette();
    let cm = PaintColormap::new(&g.cells, &pal, g.width, g.height);
    for y in 0..2 {
        for x in 0..3 {
            assert_eq!(cm.at(x, y), DEFAULT_BRICK_COLOR, "unpainted cell must be the flat color");
        }
    }
}

/// A painted cell resolves to its swatch; a stale out-of-range index falls
/// back to slot 0 instead of panicking.
#[test]
fn painted_cell_uses_swatch_and_clamps() {
    let mut g = PaintGrid::blank(2, 1);
    g.set_block(0, 0, 1, 2);
    g.set_block(1, 0, 1, 99); // out of range
    let pal = default_palette();
    let cm = PaintColormap::new(&g.cells, &pal, g.width, g.height);
    assert_eq!(cm.at(0, 0), pal[2], "painted cell resolves to its swatch");
    assert_eq!(cm.at(1, 0), pal[0], "out-of-range index falls back to unpainted");
    assert!(!g.is_blank());
}

/// RGBA splatmap decode: each pixel's dominant channel selects layer 1..=4;
/// an all-zero pixel maps to unpainted (0).
#[test]
fn splatmap_argmax_per_pixel() {
    // 2×2: red-dominant, green-dominant, blue-dominant, transparent-black.
    let mut img = RgbaImage::new(2, 2);
    img.put_pixel(0, 0, [200, 10, 10, 0]);
    img.put_pixel(1, 0, [10, 200, 10, 0]);
    img.put_pixel(0, 1, [10, 10, 200, 0]);
    img.put_pixel(1, 1, [0, 0, 0, 0]);
    let idx = splatmap_to_indices(&img, 2, 2);
    assert_eq!(idx, vec![1, 2, 3, 0], "R→1, G→2, B→3, zero→0");
}

/// Decode resamples to the destination dimensions (nearest), so a small
/// splatmap aligns with a larger field.
#[test]
fn splatmap_resamples_to_field() {
    let mut img = RgbaImage::new(1, 1);
    img.put_pixel(0, 0, [0, 0, 255, 255]);
    let idx = splatmap_to_indices(&img, 4, 4);
    assert_eq!(idx.len(), 16, "decode fills the destination grid");
    assert!(idx.iter().all(|&i| i == idx[0]), "a 1×1 source paints uniformly");
    assert_eq!(idx[0], 3, "the first of two equal channels wins");
}

/// Gradient palette: slot 0 stays the unpainted default, and the palette has one color per band.
#[test]
fn gradient_palette_keeps_slot_zero() {
    // A simple black→white ramp.
    let mut ramp = [[0u8; 3]; 8];
    for (i, c) in ramp.iter_mut().enumerate() {
        let v = (i as f32 / 7.0 * 255.0) as u8;
        *c = [v, v, v];
    }
    let pal = gradient_palette(&ramp);
    assert_eq!(pal.len(), GRADIENT_BANDS + 1, "slot 0 + one per band");
    assert_eq!(pal[0], DEFAULT_BRICK_COLOR, "slot 0 stays unpainted default");
    assert_eq!(pal[1], [0, 0, 0, 0xFF], "band 1 = ramp(0)");
    assert_eq!(pal[GRADIENT_BANDS], [255, 255, 255, 0xFF], "top band = ramp(1)");
}

/// Resolution blocks: `set_block` fills the whole R×R cell containing a point,
/// and a gradient fill leaves every cell painted with a low→high band ramp.
#[test]
fn block_paint_and_gradient_fill() {
    let mut g = PaintGrid::blank(4, 4);
    g.set_block(1, 1, 2, 7); // block (0..2, 0..2) → the top-left 2×2
    assert_eq!(g.at(0, 0), 7);
    assert_eq!(g.at(1, 1), 7);
    assert_eq!(g.at(2, 0), 0, "neighboring block untouched");

    // A height ramp increasing with y: low rows → low bands, high rows → high.
    let mut grid = PaintGrid::blank(4, 4);
    let bands: Vec<u8> =
        (0..16).map(|i| 1 + ((i / 4) as f32 / 3.0 * (GRADIENT_BANDS - 1) as f32).round() as u8).collect();
    grid.fill_from_gradient(1, &bands);
    assert!(!grid.is_blank(), "gradient fill paints every cell");
    assert_eq!(grid.at(0, 0), 1, "lowest row → band 1");
    assert_eq!(grid.at(0, 3), GRADIENT_BANDS as u8, "highest row → top band");
    assert!(grid.cells.iter().all(|&i| i >= 1), "no cell left unpainted");
}

/// Each block of a coarser gradient fill takes the band of its top-left cell.
#[test]
fn gradient_blocks_take_their_corner_band() {
    let mut grid = PaintGrid::blank(3, 2);
    grid.fill_from_gradient(2, &vec![1, 2, 3, 4, 5, 6]);
    assert_eq!(grid.cells, vec![1, 1, 3, 1, 1, 3]);
}

/// Bucket fill: contiguous flood fills only the touched region within
/// tolerance; global fills every matching cell. A wall of different height
/// stops the contiguous flood but not the global one.
#[test]
fn flood_fill_contiguous_vs_global() {
    // Heights: two 2-wide low strips (h=0) split by a tall wall column (h=100).
    // Layout per row (x=0..5): 0 0 100 0 0  → left region, wall, right region.
    let w = 5u32;
    let hgt = |x: u32, _y: u32| if x == 2 { 100.0f32 } else { 0.0 };
    let within: Vec<bool> =
        (0..15).map(|i: u32| (hgt(i % w, i / w) - hgt(0, 0)).abs() <= 1.0).collect();

    // Contiguous from the left region (x=0): fills only x=0,1 across all rows,
    // never crossing the wall to x=3,4.
    let mut g = PaintGrid::blank(w, 3);
    let n = g.flood_fill(0, 0, 5, &within, true, 1);
    assert_eq!(n, 6, "contiguous fill covers the 2×3 left region only");
    assert_eq!(g.at(0, 0), 5);
    assert_eq!(g.at(1, 2), 5);
    assert_eq!(g.at(2, 0), 0, "wall not filled");
    assert_eq!(g.at(3, 0), 0, "right region not reached across the wall");

    // Global from the same start: every low cell (both regions) fills.
    let mut gg = PaintGrid::blank(w, 3);
    let ng = gg.flood_fill(0, 0, 7, &within, false, 1);
    assert_eq!(ng, 12, "global fill covers all 4 low columns × 3 rows");
    assert_eq!(gg.at(3, 1), 7, "right region filled globally");
    assert_eq!(gg.at(2, 0), 0, "wall (out of tolerance) still excluded");
}

#[test]
fn flood_fill_outside_the_grid_does_nothing() {
    let mut g = PaintGrid::blank(2, 2);
    assert_eq!(g.flood_fill(2, 0, 5, &vec![true; 4], true, 1), 0);
    assert!(g.is_blank());
}

/// A flood goes around corners and snaps its writes to blocks.
#[test]
fn flood_fill_winds_and_snaps() {
    let rows = ["1101", "0101", "0111"];
    let marks: Vec<bool> = rows.iter().flat_map(|r| r.chars()).map(|c| c == '1').collect();
    let mut g = PaintGrid::blank(4, 3);
    assert_eq!(g.flood_fill(0, 0, 3, &marks, true, 1), 8);
    assert_eq!(g.cells, vec![3, 3, 0, 3, 0, 3, 0, 3, 0, 3, 3, 3]);
    let mut coarse = PaintGrid::blank(4, 3);
    coarse.flood_fill(0, 0, 3, &marks, true, 2);
    assert_eq!(coarse.cells, vec![3; 12]);
}

/// `sub_window` extracts the row-major tile slice the tiled convert needs.
#[test]
fn sub_window_slices_rowmajor() {
    let mut g = PaintGrid::blank(4, 3);
    g.set_block(1, 1, 1, 5);
    g.set_block(2, 1, 1, 6);
    // Window [1,3) × [1,2) → the two painted cells, row-major.
    assert_eq!(g.sub_window(1, 1, 3, 2), vec![5, 6]);
}
