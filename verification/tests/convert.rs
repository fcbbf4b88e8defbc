use heightmap::brick::{Brick, BrickSize, BrickType, Position};
use heightmap::map::Heightmap;
use heightmap::opt::generate::Progress;
use heightmap::opt::MAX_BRICK_UNITS;
use heightmap::sculpt::convert::{
    build_outcome, cell_size_units, convert_grid, convert_grid_tiled, enforce_cell_budget,
    is_field_fitting, BuildError, MeshSettings, OutputOptions,
};
use heightmap::sculpt::export::{build_part_bricks, export_layer_parts, sanitize_name};
use heightmap::sculpt::grid::HeightGrid;
use heightmap::sculpt::layers::LayerStack;
use heightmap::sculpt::paint::{default_palette, PaintGrid, PaintLayer, DEFAULT_BRICK_COLOR};
use heightmap::sculpt::parts::{plan_layer_parts, PartPlan};
use heightmap::sculpt::tiling::{
    offset_fits_chunk_index, part_axis_offset, tile_bounds, tile_world_offset,
};
use heightmap::sculpt::world::convert_world;
use heightmap::sculpt::written::installed_name;
use heightmap::zones::{rasterize, Zone, ZoneMode};
use std::cell::RefCell;
use std::collections::{BTreeMap, BTreeSet};

/// Terrain in meters, meshed at 20 brick units per meter and 300 world units per cell: 30 m cells
/// at 4 studs per meter.
struct Terrain {
    w: u32,
    h: u32,
    m: Vec<f32>,
}

const UNITS_PER_METER: f32 = 20.0;

impl Terrain {
    fn flat(w: u32, h: u32) -> Self {
        Terrain { w, h, m: vec![0.0; (w * h) as usize] }
    }

    fn set(&mut self, x: u32, y: u32, meters: f32) {
        self.m[(y * self.w + x) as usize] = meters;
    }

    fn grid(&self) -> HeightGrid {
        let cells = self.m.iter().map(|m| (m * UNITS_PER_METER).round() as u32).collect();
        HeightGrid::new(self.w, self.h, cells)
    }
}

fn settings() -> MeshSettings {
    MeshSettings {
        size: cell_size_units(60, false),
        micro: false,
        base_h: 0,
        omit_h: 0,
        max_brick_units: MAX_BRICK_UNITS,
    }
}

fn brz_only() -> OutputOptions {
    OutputOptions {
        brdb: false,
        brz: true,
        install_to_brickadia: false,
        overwrite: true,
        skip_floor: true,
    }
}

fn go_on(_: Progress) -> bool {
    true
}

fn tell_nobody(_: usize, _: usize) {}

/// Geometry of a brick: position and procedural size.
fn brick_geom(b: &Brick) -> (Position, BrickSize) {
    match &b.asset {
        BrickType::Procedural { size, .. } => (b.position, *size),
        other => panic!("expected procedural brick, got {other:?}"),
    }
}

fn mesh_with(t: &Terrain, skip_floor: bool, base_h: u32, omit_h: u32, mask: Option<&[bool]>) -> Vec<Brick> {
    let out = OutputOptions { skip_floor, ..brz_only() };
    let settings = MeshSettings { base_h, omit_h, ..settings() };
    let grid = t.grid();
    assert!(is_field_fitting(&grid, &settings));
    convert_grid(&grid, out, &settings, mask, None, go_on).expect("mesh must succeed")
}

fn mesh_field(t: &Terrain, skip_floor: bool) -> Vec<Brick> {
    mesh_with(t, skip_floor, 0, 0, None)
}

/// Mesh a window of the field by way of a part plan, at its place on the lattice of the field.
fn mesh_sub(t: &Terrain, x0: u32, y0: u32, x1: u32, y1: u32, mask: Option<&[bool]>) -> Vec<Brick> {
    let mut keep_local = Vec::new();
    for y in y0..y1 {
        for x in x0..x1 {
            keep_local.push(mask.map_or(true, |m| m[(y * t.w + x) as usize]));
        }
    }
    let plan = PartPlan {
        layer_name: "window".to_string(),
        bbox: (x0, y0, x1, y1),
        keep_local,
        offset: tile_world_offset(x0, y0, t.w, t.h, settings().size),
    };
    build_part_bricks(&plan, &t.grid(), &settings(), true, go_on).expect("window must mesh")
}

fn geom_multiset(bricks: &[Brick]) -> BTreeMap<(i32, i32, i32, u16, u16, u16), usize> {
    let mut m = BTreeMap::new();
    for b in bricks {
        let (p, s) = brick_geom(b);
        *m.entry((p.x, p.y, p.z, s.x, s.y, s.z)).or_insert(0) += 1;
    }
    m
}

/// Bricks that EXACTLY coincide with another one.
fn coincident_brick_count(bricks: &[Brick]) -> usize {
    geom_multiset(bricks).values().filter(|&&n| n > 1).map(|&n| n - 1).sum()
}

fn total_z_extent(bricks: &[Brick]) -> i64 {
    bricks.iter().map(|b| i64::from(brick_geom(b).1.z)).sum()
}

/// A smooth raised hill — non-trivial geometry so the tiling has real bricks to place.
fn hill_field(w: u32, h: u32) -> Terrain {
    let mut t = Terrain::flat(w, h);
    let radius = (w.min(h) as f32) * 0.4;
    for y in 0..h {
        for x in 0..w {
            let (dx, dy) = (x as f32 - w as f32 * 0.5, y as f32 - h as f32 * 0.5);
            let near = 1.0 - ((dx * dx + dy * dy).sqrt() / radius).clamp(0.0, 1.0);
            t.set(x, y, 6.0 * near * near * (3.0 - 2.0 * near));
        }
    }
    t
}

/// A DISTINCT height in every cell, so the mesher can never merge two cells.
fn ramp_field(w: u32, h: u32) -> Terrain {
    let mut t = Terrain::flat(w, h);
    for y in 0..h {
        for x in 0..w {
            t.set(x, y, 5.0 + x as f32 * 0.7 + y as f32 * 1.3);
        }
    }
    t
}

fn rect_zone(mode: ZoneMode, x0: i32, y0: i32, x1: i32, y1: i32) -> Zone {
    let c = |v: i32| v * 256;
    Zone { mode, polygon: vec![(c(x0), c(y0)), (c(x1), c(y0)), (c(x1), c(y1)), (c(x0), c(y1))] }
}

/// A flat (all-floor) field converted with skip_floor=true yields ZERO
/// terrain bricks. Raising one region then emits bricks ONLY where terrain was raised.
#[test]
fn blank_canvas_floor_emits_no_bricks() {
    // 30 m cells at 1 stud per meter: 75 world units per cell, 5 brick units per meter.
    let settings = MeshSettings { size: cell_size_units(15, false), ..settings() };
    let mesh = |t: &Terrain| {
        let cells = t.m.iter().map(|m| (m * 5.0).round() as u32).collect();
        let grid = HeightGrid::new(t.w, t.h, cells);
        convert_grid(&grid, brz_only(), &settings, None, None, go_on).expect("mesh must succeed")
    };
    let bricks = mesh(&Terrain::flat(24, 24));
    assert!(
        bricks.is_empty(),
        "an all-floor field with skip_floor=true must emit no terrain bricks, got {}",
        bricks.len(),
    );

    let mut raised = Terrain::flat(24, 24);
    for y in 0..24u32 {
        for x in 0..24u32 {
            let (dx, dy) = (x as f32 - 12.0, y as f32 - 12.0);
            if (dx * dx + dy * dy).sqrt() < 3.0 {
                raised.set(x, y, 20.0);
            }
        }
    }
    let raised_bricks = mesh(&raised);
    assert!(!raised_bricks.is_empty(), "raising a region must emit terrain bricks");
    let size = i32::from(settings.size);
    let offset_x = -(24 * size);
    let lo_x = offset_x + 2 * size * 9;
    let hi_x = offset_x + 2 * size * 16;
    for b in &raised_bricks {
        assert!(
            b.position.x >= lo_x - 2 * size && b.position.x <= hi_x + 2 * size,
            "brick at x={} fell outside the raised footprint [{lo_x}, {hi_x}] — \
             flat columns must not emit bricks",
            b.position.x,
        );
    }
}

/// A column whose height is at or below the omit level emits no bricks, while a column above it
/// survives.
#[test]
fn omit_below_drops_cells_at_or_under_level() {
    // One low cell (0.3 m) and one high cell (1.5 m); the rest floor.
    let mut field = Terrain::flat(8, 8);
    field.set(2, 2, 0.3);
    field.set(5, 5, 1.5);

    let baseline = mesh_with(&field, true, 0, 0, None);
    assert!(!baseline.is_empty(), "both non-floor cells must emit with no omit");

    let h_omit = (0.5 * UNITS_PER_METER).round() as u32;
    assert_eq!(h_omit, 10, "0.5 m at 20 u/m must convert to brick-Z 10");
    let omitted = mesh_with(&field, true, 0, h_omit, None);
    assert!(!omitted.is_empty(), "the 1.5 m cell is above the omit level and must still emit");
    assert!(
        omitted.len() < baseline.len(),
        "omitting the 0.3 m cell must drop bricks: baseline={} omitted={}",
        baseline.len(),
        omitted.len(),
    );

    let h_omit_all = (2.0 * UNITS_PER_METER).round() as u32;
    let none = mesh_with(&field, true, 0, h_omit_all, None);
    assert!(
        none.is_empty(),
        "an omit level above every cell must drop all terrain, got {} bricks",
        none.len(),
    );
}

/// Raising the base plane the terrain fills DOWN to shortens every column's fill.
#[test]
fn floor_level_raises_base_plane() {
    let mut field = Terrain::flat(8, 8);
    field.set(4, 4, 5.0);

    let base_zero = mesh_with(&field, false, 0, 0, None);
    let base_h = (2.0 * UNITS_PER_METER).round() as u32;
    assert_eq!(base_h, 40, "2 m at 20 u/m must convert to brick-Z 40");
    let base_raised = mesh_with(&field, false, base_h, 0, None);

    assert!(!base_zero.is_empty() && !base_raised.is_empty(), "both must emit terrain");
    let z_zero = total_z_extent(&base_zero);
    let z_raised = total_z_extent(&base_raised);
    assert!(
        z_raised < z_zero,
        "raising the floor plane must shorten the fill: base0 Z-extent={z_zero}, raised Z-extent={z_raised}",
    );
}

/// Raising the base plane with `skip_floor=true` and no omit level must NOT omit columns that sit at
/// (or above) the raised base plane.
#[test]
fn raised_floor_with_skip_floor_still_emits_base_plane_columns() {
    let mut field = Terrain::flat(8, 8);
    field.set(2, 2, 2.0); // exactly at the raised base plane
    field.set(5, 5, 5.0); // above it
    let base_h = (2.0 * UNITS_PER_METER).round() as u32;
    assert_eq!(base_h, 40, "2 m at 20 u/m must convert to brick-Z 40");

    let bricks = mesh_with(&field, true, base_h, 0, None);
    assert!(
        !bricks.is_empty(),
        "columns at/above the raised base plane must still emit",
    );

    let flat_bricks = mesh_with(&Terrain::flat(8, 8), true, base_h, 0, None);
    assert!(
        flat_bricks.is_empty(),
        "an all-floor field under a raised base must still emit no terrain, got {}",
        flat_bricks.len(),
    );
}

/// `tile_bounds` partitions into NON-overlapping half-open ranges, and the per-tile
/// world offsets place every ABSOLUTE cell on one fixed world slot.
#[test]
fn tiled_export_world_offset_abutment() {
    let x_bounds = tile_bounds(16, 8);
    let y_bounds = tile_bounds(16, 8);
    assert_eq!(x_bounds.len(), 2, "16 cells / tile 8 → 2 columns of tiles");
    assert_eq!(y_bounds.len(), 2, "16 cells / tile 8 → 2 rows of tiles");
    assert_eq!(x_bounds[0], (0, 8), "first tile is exactly tile_cells wide");
    assert_eq!(x_bounds[1].0, x_bounds[0].1, "next tile starts where the prior ends");

    let size = settings().size;
    let size_i = i32::from(size);
    let off0 = tile_world_offset(x_bounds[0].0, 0, 16, 16, size); // tile col 0, start 0
    let off1 = tile_world_offset(x_bounds[1].0, 0, 16, 16, size); // tile col 1, start 8
    let tile0_last_x = off0.0 + 2 * size_i * 7; // absolute col 7, local x=7
    let tile1_first_x = off1.0; // absolute col 8, local x=0
    assert_eq!(
        tile1_first_x - tile0_last_x,
        2 * size_i,
        "adjacent tiles abut at exactly one per-cell pitch (no gap, no overlap)",
    );
    let center_x = -(16 * size_i);
    assert_eq!(tile0_last_x, center_x + 2 * size_i * 7, "tile 0 col 7 at the single-mesh slot");
    assert_eq!(tile1_first_x, center_x + 2 * size_i * 8, "tile 1 col 8 at the single-mesh slot");
}

/// A field that fits within ONE tile tiles into a
/// single sub-field == the whole field at the SAME world offset, so the
/// stitched geometry is IDENTICAL to a single mesh of the field.
#[test]
fn tiled_vs_single_mesh_equivalence() {
    let field = hill_field(20, 14);
    let xb = tile_bounds(20, 64);
    let yb = tile_bounds(14, 64);
    assert_eq!(xb, vec![(0, 20)], "an over-size tile spans the whole width");
    assert_eq!(yb, vec![(0, 14)], "an over-size tile spans the whole height");

    let single = mesh_field(&field, true);
    let tiled = mesh_sub(&field, 0, 0, 20, 14, None);
    assert!(!single.is_empty(), "the hill must emit bricks");
    assert_eq!(
        geom_multiset(&tiled),
        geom_multiset(&single),
        "a within-one-tile tiled stitch must be geometry-identical to a single mesh",
    );
    let stitched =
        convert_grid_tiled(&field.grid(), brz_only(), 64, &settings(), None, None, tell_nobody, || false)
            .expect("tiled convert must succeed");
    assert_eq!(geom_multiset(&stitched), geom_multiset(&single));
}

/// `tile_bounds` invariants: ranges PARTITION the extent (contiguous,
/// non-overlapping), cover it fully, each width ≤ tile_cells, and an over-size tile collapses to one
/// full-extent range.
#[test]
fn tile_bounds_partition_and_coverage() {
    let b = tile_bounds(16, 8);
    // Contiguous partition: each range starts exactly where the prior ends —
    // no shared cell, no gap.
    for w in b.windows(2) {
        assert_eq!(w[1].0, w[0].1, "adjacent tiles abut with no shared cell");
    }
    assert_eq!(b.first().unwrap().0, 0, "first tile starts at 0");
    assert_eq!(b.last().unwrap().1, 16, "last tile reaches the extent");
    for &(s, e) in &b {
        assert!(e > s, "every range is non-empty");
        assert!(e - s <= 8, "tile width ≤ tile_cells");
    }
    // 16 / 8 → exactly two non-overlapping tiles.
    assert_eq!(b, vec![(0, 8), (8, 16)], "clean partition into tile_cells-wide ranges");
    // Over-size tile → one full range; a 1-cell field → one [0,1).
    assert_eq!(tile_bounds(20, 64), vec![(0, 20)]);
    assert_eq!(tile_bounds(1, 8), vec![(0, 1)]);
}

/// A multi-tile field makes ONE stitched save whose bricks are those of its partition sub-fields.
#[test]
fn tiled_export_stitches_all_tiles() {
    // 18×18 hill, tile_cells=8 → a 3×3 partition split (non-trivial seams).
    let field = hill_field(18, 18);
    let x_bounds = tile_bounds(18, 8);
    let y_bounds = tile_bounds(18, 8);
    assert!(x_bounds.len() >= 2 && y_bounds.len() >= 2, "must actually subdivide");
    let mut expected = 0usize;
    for &(y0, y1) in &y_bounds {
        for &(x0, x1) in &x_bounds {
            expected += mesh_sub(&field, x0, y0, x1, y1, None).len();
        }
    }
    assert!(expected > 0, "the tiled hill must emit bricks");

    let outcome =
        convert_grid_tiled(&field.grid(), brz_only(), 8, &settings(), None, None, tell_nobody, || false)
            .expect("tiled convert must succeed");
    assert_eq!(
        outcome.len(),
        expected,
        "the stitched save must contain every tile's bricks (watertight seams)",
    );
}

/// A multi-tile stitch must not place two EXACTLY coincident bricks at a seam. The single mesh of
/// the same field is the watertight reference.
#[test]
fn tiled_seams_emit_no_coincident_duplicate_bricks() {
    let field = ramp_field(24, 24);
    let x_bounds = tile_bounds(24, 8);
    let y_bounds = tile_bounds(24, 8);
    assert!(x_bounds.len() >= 3 && y_bounds.len() >= 3, "must subdivide into seams");

    let single = mesh_field(&field, true);
    assert_eq!(
        coincident_brick_count(&single),
        0,
        "a single mesh partitions space — it must emit no coincident bricks",
    );

    let mut tiled: Vec<Brick> = Vec::new();
    for &(y0, y1) in &y_bounds {
        for &(x0, x1) in &x_bounds {
            tiled.extend(mesh_sub(&field, x0, y0, x1, y1, None));
        }
    }
    assert_eq!(
        coincident_brick_count(&tiled),
        0,
        "tiled seams must not duplicate cells — coincident bricks Z-fight into seam lines",
    );
}

/// Neither format selected → a checked error, never a silent no-op write.
#[test]
fn convert_requires_a_format() {
    let out = OutputOptions { brz: false, ..brz_only() };
    let grid = Terrain::flat(4, 4).grid();
    let err = convert_grid(&grid, out, &settings(), None, None, go_on)
        .expect_err("no format selected must error");
    assert!(matches!(err, BuildError::BrdbWrite(_)), "expected BrdbWrite, got {err:?}");
    let err = convert_grid_tiled(&grid, out, 8, &settings(), None, None, tell_nobody, || false)
        .expect_err("no format selected must error");
    assert!(matches!(err, BuildError::BrdbWrite(_)), "expected BrdbWrite, got {err:?}");
    let stack = LayerStack::new(4, 4);
    let written = |_: &str, _: Vec<Brick>| Ok(());
    let err = export_layer_parts(&stack, &grid, out, &settings(), "x", tell_nobody, || false, written)
        .err()
        .expect("no format selected must error");
    assert!(matches!(err, BuildError::BrdbWrite(_)), "expected BrdbWrite, got {err:?}");
}

/// Splat paint reaches the bricks: a cell painted with swatch 1 produces at
/// least one brick carrying that swatch's RGB, while an unpainted build colors
/// every brick with the default flat color.
#[test]
fn paint_colors_reach_bricks() {
    let mut field = Terrain::flat(8, 8);
    field.set(4, 4, 5.0);
    let pal = default_palette();
    let mut grid = PaintGrid::blank(8, 8);
    grid.set_block(4, 4, 1, 1); // paint the tall cell with swatch 1

    let mesh = |paint: &PaintGrid| {
        let layer = Some(PaintLayer { grid: paint, palette: &pal });
        convert_grid(&field.grid(), brz_only(), &settings(), None, layer, go_on)
            .expect("mesh must succeed")
    };

    let painted = mesh(&grid);
    assert!(!painted.is_empty(), "the tall painted cell must emit bricks");
    let want = pal[1];
    assert!(
        painted.iter().any(|b| b.color.r == want[0] && b.color.g == want[1] && b.color.b == want[2]),
        "a brick must carry the painted swatch color {want:?}",
    );

    let unpainted = mesh(&PaintGrid::blank(8, 8));
    let def = DEFAULT_BRICK_COLOR;
    assert!(
        unpainted.iter().all(|b| b.color.r == def[0] && b.color.g == def[1] && b.color.b == def[2]),
        "an unpainted grid must color every brick the default flat color",
    );
    assert_eq!(geom_multiset(&unpainted), geom_multiset(&mesh_field(&field, true)));
}

/// A mostly-floor field with two flat plateaus at 132 m and 192 m must emit
/// bricks that REACH those heights — not drop them to native ground.
#[test]
fn flat_plateaus_at_height_are_not_flattened() {
    let mut field = Terrain::flat(12, 12);
    for y in 2..5 {
        for x in 2..5 {
            field.set(x, y, 132.0);
        }
    }
    for y in 7..10 {
        for x in 7..10 {
            field.set(x, y, 192.0);
        }
    }

    let bricks = mesh_field(&field, true);
    assert!(!bricks.is_empty(), "plateaus at height must emit bricks, not vanish to floor");
    let max_z = bricks.iter().map(|b| b.position.z).max().unwrap_or(0);
    assert!(
        max_z >= (192.0 * UNITS_PER_METER * 0.9) as i32,
        "tallest plateau (192 m) must reach its height; max brick z={max_z}",
    );
    assert!(
        bricks.iter().any(|b| b.position.z >= (132.0 * UNITS_PER_METER * 0.9) as i32),
        "the 132 m plateau must emit bricks near its height",
    );
}

/// Snapping a smooth ramp to steps collapses it onto far
/// fewer distinct brick heights while keeping the peak altitude.
#[test]
fn terraced_field_meshes_to_fewer_height_levels() {
    let mut smooth = Terrain::flat(12, 12);
    for y in 0..12 {
        for x in 0..12 {
            smooth.set(x, y, (x + y) as f32 * 5.0);
        }
    }
    let distinct = |bricks: &[Brick]| -> usize {
        bricks.iter().map(|b| b.position.z).collect::<BTreeSet<_>>().len()
    };
    let smooth_levels = distinct(&mesh_field(&smooth, true));

    let mut stepped = Terrain::flat(12, 12);
    stepped.m = smooth.m.iter().map(|m| (m / 25.0).round() * 25.0).collect();
    let stepped_bricks = mesh_field(&stepped, true);
    let stepped_levels = distinct(&stepped_bricks);
    assert!(
        stepped_levels < smooth_levels,
        "terracing must collapse heights: smooth={smooth_levels} stepped={stepped_levels}",
    );
    let peak = stepped_bricks.iter().map(|b| b.position.z).max().unwrap_or(0);
    assert!(
        peak as f32 >= (110.0 - 25.0) * UNITS_PER_METER,
        "stepped peak keeps accurate altitude"
    );
}

/// An omit zone over a raised region drops those bricks, and NO surviving
/// brick is centered inside the omit footprint. An include zone keeps ONLY
/// its interior.
#[test]
fn single_convert_omit_clears_footprint_include_keeps_interior() {
    let field = hill_field(24, 24);
    let base = mesh_field(&field, true);
    assert!(!base.is_empty(), "the hill must emit bricks");

    let omit = rect_zone(ZoneMode::Omit, 8, 8, 16, 16);
    let mask = rasterize(&vec![omit], 24, 24);
    let masked = mesh_with(&field, true, 0, 0, Some(&mask));
    assert!(masked.len() < base.len(), "omit over the hill removes bricks");

    let size = i32::from(settings().size);
    let off = -(24 * size);
    let lo = off + 2 * size * 8;
    let hi = off + 2 * size * 16;
    let inside = |b: &Brick| {
        b.position.x >= lo && b.position.x < hi && b.position.y >= lo && b.position.y < hi
    };
    for b in &masked {
        assert!(!inside(b), "no surviving brick may be centered inside the omit footprint");
    }

    let inc = rect_zone(ZoneMode::Include, 8, 8, 16, 16);
    let inc_mask = rasterize(&vec![inc], 24, 24);
    let included = mesh_with(&field, true, 0, 0, Some(&inc_mask));
    assert!(!included.is_empty(), "include over the hill keeps its bricks");
    for b in &included {
        assert!(inside(b), "every included brick must sit inside the include footprint");
    }
}

/// A zone spanning a tile seam: the tiled convert's per-tile slices must
/// reassemble to the full-field mask.
#[test]
fn tiled_seam_spanning_zone_matches_summed_masked_subfields() {
    let field = hill_field(18, 18); // tile 8 → 3×3 split
    let x_bounds = tile_bounds(18, 8);
    let y_bounds = tile_bounds(18, 8);
    assert!(x_bounds.len() >= 2 && y_bounds.len() >= 2, "must subdivide");

    // ASYMMETRIC omit block: cells x∈[2,8), y∈[9,15).
    let (zx0, zy0, zx1, zy1) = (2, 9, 8, 15);
    let zones = vec![rect_zone(ZoneMode::Omit, zx0, zy0, zx1, zy1)];
    let full_mask = rasterize(&zones, 18, 18);

    let mut ref_bricks: Vec<Brick> = Vec::new();
    let mut unmasked = 0usize;
    for &(y0, y1) in &y_bounds {
        for &(x0, x1) in &x_bounds {
            ref_bricks.extend(mesh_sub(&field, x0, y0, x1, y1, Some(&full_mask)));
            unmasked += mesh_sub(&field, x0, y0, x1, y1, None).len();
        }
    }
    let expected = ref_bricks.len();
    assert!(expected < unmasked, "the seam-spanning omit must actually drop bricks");

    let size = i32::from(settings().size);
    let off = -(18 * size);
    let world = |c: i32| off + 2 * size * c;
    let (wx0, wx1, wy0, wy1) = (world(zx0), world(zx1), world(zy0), world(zy1));
    for b in &ref_bricks {
        let in_hole = b.position.x >= wx0
            && b.position.x < wx1
            && b.position.y >= wy0
            && b.position.y < wy1;
        assert!(!in_hole, "no masked-tile brick may sit inside the omit window (orientation check)");
    }

    let outcome = convert_world(
        &field.grid(),
        brz_only(),
        Some(8),
        &settings(),
        &zones,
        None,
        go_on,
        tell_nobody,
        || false,
    )
    .expect("tiled zone convert must succeed");
    assert_eq!(
        outcome.len(),
        expected,
        "tiled stitch with a seam-spanning zone == summed masked sub-fields",
    );
}

/// Re-converting the SAME field+zones is deterministic AND the zone actually
/// shapes the output.
#[test]
fn convert_with_zones_is_deterministic_and_mask_affects_output() {
    let field = hill_field(16, 16);
    let zones = vec![rect_zone(ZoneMode::Omit, 4, 4, 12, 12)];
    let run = |z: &Vec<Zone>| {
        convert_world(&field.grid(), brz_only(), None, &settings(), z, None, go_on, tell_nobody, || false)
            .expect("convert must succeed")
            .len()
    };
    let no_zone = run(&vec![]);
    let masked_a = run(&zones);
    let masked_b = run(&zones);
    assert_eq!(masked_a, masked_b, "repeated masked convert is deterministic");
    assert!(masked_a < no_zone, "the omit zone must actually drop bricks ({masked_a} < {no_zone})");
    assert!(masked_a > 0, "the omit leaves the rest of the hill intact");
}

fn stack_with_boxes(
    fw: u32,
    fh: u32,
    div: (u32, u32),
    assignments: &[((u32, u32), usize)],
) -> LayerStack {
    let mut s = LayerStack::new(fw, fh);
    s.grid_div = div;
    let max_layer = assignments.iter().map(|&(_, l)| l).max().unwrap_or(0);
    for _ in 1..=max_layer {
        s.add_layer(fw, fh); // inserts above active and activates → indices 1..=max in order
    }
    for &((bi, bj), li) in assignments {
        s.active = li;
        s.paint_box(fw, fh, bi, bj, true);
    }
    s
}

fn build_part(field: &Terrain, plan: &PartPlan) -> Vec<Brick> {
    build_part_bricks(plan, &field.grid(), &settings(), true, go_on).expect("part mesh must succeed")
}

/// One layer covering the WHOLE field exports a part that is
/// brick-identical (as a geometry multiset) to the single full-field mesh.
#[test]
fn inv_regression_full_layer_equals_single_mesh() {
    let field = hill_field(20, 16);
    let mut s = LayerStack::new(20, 16);
    s.grid_div = (1, 1);
    s.paint_box(20, 16, 0, 0, true); // whole field → Base

    let plans = plan_layer_parts(&s, 20, 16, settings().size).expect("plan");
    assert_eq!(plans.len(), 1, "one non-empty layer → exactly one part");
    assert_eq!(plans[0].bbox, (0, 0, 20, 16), "a full selection spans the whole field");

    let part = build_part(&field, &plans[0]);
    let single = mesh_field(&field, true);
    assert_eq!(
        geom_multiset(&part),
        geom_multiset(&single),
        "a full-field layer part must equal the single mesh",
    );
}

/// A part covering a SUBSET places its bricks at the SAME
/// absolute positions the single full-field mesh uses for those cells.
#[test]
fn inv_position_subset_part_matches_single_mesh_cells() {
    let field = ramp_field(16, 16);
    // 2×1 grid: Base owns the left half (box (0,0) → cols 0..8).
    let s = stack_with_boxes(16, 16, (2, 1), &[((0, 0), 0)]);
    let plans = plan_layer_parts(&s, 16, 16, settings().size).expect("plan");
    assert_eq!(plans.len(), 1);
    assert_eq!(plans[0].bbox, (0, 0, 8, 16), "left-half selection → left-half bbox");

    let part = build_part(&field, &plans[0]);
    let single = mesh_field(&field, true);
    let single_set = geom_multiset(&single);
    assert!(!part.is_empty(), "the part must emit bricks");
    for b in &part {
        let (p, sz) = brick_geom(b);
        let key = (p.x, p.y, p.z, sz.x, sz.y, sz.z);
        assert!(
            single_set.contains_key(&key),
            "part brick {key:?} is absent from the single mesh — positions diverged",
        );
    }
}

/// Two layers partitioning the field export
/// parts that (a) never place two bricks in one cell, and (b) reassemble the
/// full field exactly.
#[test]
fn inv_nocoincide_and_coverage_two_layer_partition() {
    let field = ramp_field(16, 16);
    // 2×1 grid: Base owns the left box, Layer 1 owns the right box.
    let s = stack_with_boxes(16, 16, (2, 1), &[((0, 0), 0), ((1, 0), 1)]);
    let plans = plan_layer_parts(&s, 16, 16, settings().size).expect("plan");
    assert_eq!(plans.len(), 2, "two non-empty layers → two parts");

    let mut all = Vec::new();
    for plan in &plans {
        all.extend(build_part(&field, plan));
    }
    assert_eq!(
        coincident_brick_count(&all),
        0,
        "partitioned parts must place no two bricks in one cell",
    );
    let single = mesh_field(&field, true);
    assert_eq!(
        geom_multiset(&all),
        geom_multiset(&single),
        "two partitioned parts must reassemble the full field exactly",
    );
}

/// The same stack + field produce byte-identical part
/// geometry across runs (stable part order, stable claim).
#[test]
fn inv_determinism_same_stack_same_bricks() {
    let field = ramp_field(12, 12);
    let s = stack_with_boxes(12, 12, (2, 2), &[((0, 0), 0), ((1, 1), 1), ((0, 1), 1)]);
    let run = || {
        let plans = plan_layer_parts(&s, 12, 12, settings().size).expect("plan");
        plans.iter().map(|p| build_part(&field, p)).collect::<Vec<_>>()
    };
    let a = run();
    let b = run();
    assert_eq!(a.len(), b.len(), "same part count");
    for (pa, pb) in a.iter().zip(&b) {
        assert_eq!(geom_multiset(pa), geom_multiset(pb), "each part is deterministic");
    }
}

/// The world-extent predicate the planner gates on rejects an
/// offset that would exceed the world's bound. A normal centered field fits.
#[test]
fn inv_extent_predicate_rejects_over_extent_offset() {
    let size = cell_size_units(1, false); // 5 units/cell
    assert!(
        offset_fits_chunk_index(part_axis_offset(0, 64, size), 64, size),
        "a small centered world fits the world-extent bound",
    );
    // A pathological pitch pushes |offset| past the bound — must be rejected.
    let huge = u16::MAX;
    assert!(
        !offset_fits_chunk_index(part_axis_offset(0, 4096, huge), 4096, huge),
        "an over-extent offset must be rejected (refused, never clamped)",
    );
}

/// The export writes ONE save PER visible non-empty layer and reports each part's brick count.
#[test]
fn export_layer_parts_writes_one_save_per_layer() {
    let field = hill_field(24, 18);
    let s = stack_with_boxes(24, 18, (2, 1), &[((0, 0), 0), ((1, 0), 1)]);
    let parts = export_layer_parts(
        &s,
        &field.grid(),
        brz_only(),
        &settings(),
        "world",
        tell_nobody,
        || false,
        |name, bricks| Ok((name.to_string(), bricks.len())),
    )
    .expect("layer export must succeed");
    assert_eq!(parts.len(), 2, "two non-empty layers → two saves");
    for p in &parts {
        assert!(p.brick_count > 0, "each part must emit bricks");
        assert_eq!(p.written.1, p.brick_count);
    }
    assert_ne!(parts[0].written.0, parts[1].written.0, "each save has a name of its own");
}

#[test]
fn a_part_outside_the_world_is_refused() {
    let mut s = LayerStack::new(4096, 1);
    s.grid_div = (1, 1);
    s.paint_box(4096, 1, 0, 0, true);
    let err = plan_layer_parts(&s, 4096, 1, u16::MAX).err().expect("must be refused");
    match err {
        BuildError::BrdbWrite(text) => assert!(text.starts_with("layer 'Base' places a part outside")),
        other => panic!("expected BrdbWrite, got {other:?}"),
    }
}

#[test]
fn hidden_layers_are_not_exported() {
    let mut s = stack_with_boxes(4, 4, (2, 1), &[((0, 0), 0), ((1, 0), 1)]);
    s.layers[0].visible = false;
    let plans = plan_layer_parts(&s, 4, 4, 5).expect("plan");
    assert_eq!(plans.len(), 1);
    assert_eq!(plans[0].layer_name, "Layer 1");
    assert_eq!(plans[0].bbox, (2, 0, 4, 4));
    assert_eq!(plans[0].offset, (0, -20));
}

#[test]
fn a_cancelled_export_stops() {
    let field = hill_field(16, 16);
    let tiled =
        convert_grid_tiled(&field.grid(), brz_only(), 8, &settings(), None, None, tell_nobody, || true);
    assert!(matches!(tiled, Err(BuildError::Cancelled)));
    let stopped = |p: Progress| p == Progress::Start;
    let single = convert_grid(&field.grid(), brz_only(), &settings(), None, None, stopped);
    assert!(matches!(single, Err(BuildError::Cancelled)));
    assert!(matches!(
        build_outcome(Err("something else".to_string())),
        Err(BuildError::Mesh(e)) if e == "something else"
    ));
}

#[test]
fn a_write_error_ends_the_export() {
    let field = hill_field(8, 8);
    let s = stack_with_boxes(8, 8, (1, 1), &[((0, 0), 0)]);
    let failed = export_layer_parts(
        &s,
        &field.grid(),
        brz_only(),
        &settings(),
        "world",
        tell_nobody,
        || false,
        |_: &str, _: Vec<Brick>| Err::<(), _>(BuildError::BrdbWrite("disk full".to_string())),
    );
    assert!(matches!(failed, Err(BuildError::BrdbWrite(e)) if e == "disk full"));
}

#[test]
fn the_cell_budget_is_inclusive() {
    assert!(enforce_cell_budget(800, 1000).is_ok());
    match enforce_cell_budget(801, 1000) {
        Err(BuildError::TooManyCells { cells, budget }) => {
            assert_eq!((cells, budget), (801_000, 800_000));
        },
        other => panic!("expected TooManyCells, got {other:?}"),
    }
    let grid = HeightGrid::new(1001, 800, vec![0; 1001 * 800]);
    let settings = MeshSettings { size: 5, ..settings() };
    let tiled =
        convert_grid_tiled(&grid, brz_only(), 2000, &settings, None, None, tell_nobody, || false);
    assert!(matches!(tiled, Err(BuildError::TooManyCells { cells: 800_800, budget: 800_000 })));
}

#[test]
fn micro_cells_are_a_fifth_as_large() {
    assert_eq!(cell_size_units(7, false), 35);
    assert_eq!(cell_size_units(7, true), 7);
}

#[test]
fn names_are_made_safe_for_files() {
    assert_eq!(sanitize_name("base_layer-1"), "base_layer-1");
    assert!(!sanitize_name("a/b\\c:d").contains(|c| "/\\:".contains(c)));
}

/// Terrain that nothing edited meshes to the very bricks of the elevation data that it came from:
/// heights above its own minimum, or the same heights stored above the floor.
#[test]
fn sculpt_passthrough_identity() {
    let heights_m: [f32; 20] = [
        100.0, 105.0, 100.5, 130.0, 100.0, 162.7, 110.0, 145.2, 100.0, 120.0, 155.0, 133.3, 108.8,
        100.0, 170.0, 140.0, 125.5, 118.2, 160.1, 102.3,
    ];
    let (min_m, vertical_scale) = (100.0_f32, 5.0_f32);
    let settings = MeshSettings { size: cell_size_units(1, false), ..settings() };
    let out = OutputOptions { skip_floor: false, ..brz_only() };
    let mesh = |cells: Vec<u32>| {
        let grid = HeightGrid::new(5, 4, cells);
        convert_grid(&grid, out, &settings, None, None, go_on).expect("must mesh")
    };

    let quantize = |m: f32| (m * vertical_scale).max(0.0).round() as u32;
    let direct = mesh(heights_m.iter().map(|m| quantize(m - min_m)).collect());
    let field: Vec<f32> = heights_m.iter().map(|m| (m - min_m).max(0.0)).collect();
    let sculpt = mesh(field.iter().map(|m| quantize(*m)).collect());

    assert!(!direct.is_empty(), "fixture must emit bricks");
    assert_eq!(direct.len(), sculpt.len(), "passthrough must emit the same brick count");
    let direct_geom: Vec<_> = direct.iter().map(brick_geom).collect();
    let sculpt_geom: Vec<_> = sculpt.iter().map(brick_geom).collect();
    assert_eq!(direct_geom, sculpt_geom, "an unedited field must be brick-identical");
}

/// A small positive height survives at a proper scale, and is true floor at a scale at which it
/// quantizes to nothing.
#[test]
fn near_floor_cells_survive_at_proper_scale() {
    let mesh = |scale: u16, units_per_meter: f32| {
        let mut cells = vec![0; 64];
        cells[4 * 8 + 4] = (0.3_f32 * units_per_meter).round() as u32;
        let settings = MeshSettings { size: cell_size_units(scale, false), ..settings() };
        let grid = HeightGrid::new(8, 8, cells);
        convert_grid(&grid, brz_only(), &settings, None, None, go_on).expect("must mesh")
    };

    // 4 studs per meter over 30 m cells: 20 units per meter.
    assert!((0.3_f32 * 20.0).round() as u32 >= 1, "proper scale must lift 0.3 m off the floor");
    assert!(!mesh(60, 20.0).is_empty(), "a 0.3 m cell at a proper scale must emit");

    // 0.05 studs per meter: a third of a unit per meter.
    let low = 2.0 * 5.0 / 30.0_f32;
    assert_eq!((0.3_f32 * low).round() as u32, 0, "low scale must quantize 0.3 m to floor");
    assert!(mesh(1, low).is_empty(), "at low scale the cell maps to true floor and is dropped");
}

/// A plateau that the Set brush made at 192 m reaches its height in the export.
#[test]
fn set_height_tool_plateau_survives_export() {
    let mut field = Terrain::flat(16, 16);
    // A hard round brush of radius 5 at (8, 8) writes its target into every cell inside.
    for y in 0..16 {
        for x in 0..16 {
            let (dx, dy) = (x as f32 - 8.0, y as f32 - 8.0);
            if (dx * dx + dy * dy).sqrt() / 5.0 < 1.0 {
                field.set(x, y, 192.0);
            }
        }
    }
    assert!((field.m[8 * 16 + 8] - 192.0).abs() < 1e-3, "the target must be stored");

    let bricks = mesh_field(&field, true);
    assert!(!bricks.is_empty(), "a Set-height 192 m plateau must emit bricks");
    let max_z = bricks.iter().map(|b| b.position.z).max().unwrap_or(0);
    assert!(
        max_z >= (192.0 * UNITS_PER_METER * 0.9) as i32,
        "plateau must reach 192 m; max_z={max_z}"
    );
}

/// A LARGE flat plateau at 132 m, surrounded by floor, merges into large quads that still reach
/// their height. 4 m cells at 4 studs per meter: 40 world units per cell, 20 units per meter.
#[test]
fn large_flat_plateau_user_scale_emits() {
    let mut field = Terrain::flat(96, 96);
    for y in 28..68 {
        for x in 28..68 {
            field.set(x, y, 132.0);
        }
    }
    let settings = MeshSettings { size: cell_size_units(8, false), ..settings() };
    let bricks = convert_grid(&field.grid(), brz_only(), &settings, None, None, go_on)
        .expect("must mesh");
    assert!(!bricks.is_empty(), "the plateau must emit bricks");
    let max_z = bricks.iter().map(|b| b.position.z).max().unwrap_or(0);
    assert!(
        max_z >= (132.0 * UNITS_PER_METER * 0.9) as i32,
        "large flat plateau must reach 132 m; max_z={max_z}",
    );
}

/// A window of a grid is a verbatim copy of its cells, and two windows that share an edge hold the
/// same cells there.
#[test]
fn sub_field_shares_exact_edge_cells() {
    let f = HeightGrid::new(6, 4, (0..24).collect());
    let sub = f.sub_grid(1, 1, 4, 3);
    assert_eq!(sub.size(), (3, 2), "window dims = range size");
    for y in 0..2 {
        for x in 0..3 {
            assert_eq!(sub.at(x, y), f.at(x + 1, y + 1), "cell ({x},{y}) must mirror its source");
        }
    }

    let a = f.sub_grid(0, 0, 4, 4);
    let b = f.sub_grid(3, 0, 6, 4);
    let a_edge = a.size().0 - 1;
    for y in 0..4 {
        assert_eq!(a.at(a_edge, y), b.at(0, y), "shared edge column must be identical (row {y})");
        assert_eq!(a.at(a_edge, y), f.at(3, y), "shared edge is source column 3");
    }
}

/// The tiled export tells how many tiles of how many are done: none at first, then each in turn.
#[test]
fn tiles_are_counted_as_they_are_done() {
    let field = hill_field(16, 12);
    let told = RefCell::new(Vec::new());
    let note = |done: usize, of: usize| told.borrow_mut().push((done, of));
    convert_grid_tiled(&field.grid(), brz_only(), 8, &settings(), None, None, note, || false)
        .expect("tiled convert must succeed");
    assert_eq!(*told.borrow(), vec![(0, 4), (1, 4), (2, 4), (3, 4), (4, 4)]);

    // Stopped before the third tile, two are done.
    told.borrow_mut().clear();
    let note = |done: usize, of: usize| told.borrow_mut().push((done, of));
    let stop = || told.borrow().len() == 3;
    let tiled =
        convert_grid_tiled(&field.grid(), brz_only(), 8, &settings(), None, None, note, stop);
    assert!(matches!(tiled, Err(BuildError::Cancelled)));
    assert_eq!(*told.borrow(), vec![(0, 4), (1, 4), (2, 4)]);
}

/// The part export tells before each part how many are done, and at the end that all are.
#[test]
fn parts_are_counted_as_they_are_done() {
    let field = hill_field(24, 18);
    let s = stack_with_boxes(24, 18, (2, 1), &[((0, 0), 0), ((1, 0), 1)]);
    let told = RefCell::new(Vec::new());
    let note = |done: usize, of: usize| told.borrow_mut().push((done, of));
    let write = |_: &str, _: Vec<Brick>| Ok(());
    export_layer_parts(&s, &field.grid(), brz_only(), &settings(), "w", note, || false, write)
        .expect("layer export must succeed");
    assert_eq!(*told.borrow(), vec![(0, 2), (1, 2), (2, 2)]);

    told.borrow_mut().clear();
    let note = |done: usize, of: usize| told.borrow_mut().push((done, of));
    let failed = export_layer_parts(
        &s,
        &field.grid(),
        brz_only(),
        &settings(),
        "w",
        note,
        || false,
        |_: &str, _: Vec<Brick>| Err::<(), _>(BuildError::Io("disk full".to_string())),
    );
    assert!(matches!(failed, Err(BuildError::Io(e)) if e == "disk full"));
    assert_eq!(*told.borrow(), vec![(0, 2)]);
}

/// The name with the part's number may be taken too: no two parts share a name.
#[test]
fn part_names_never_collide() {
    let field = hill_field(24, 18);
    let mut s = stack_with_boxes(24, 18, (3, 1), &[((0, 0), 0), ((1, 0), 1), ((2, 0), 2)]);
    for (layer, name) in ["3_A", "A", "A"].iter().enumerate() {
        s.layers[layer].name = name.to_string();
    }
    let parts = export_layer_parts(
        &s,
        &field.grid(),
        brz_only(),
        &settings(),
        "w",
        tell_nobody,
        || false,
        |name, _| Ok(name.to_string()),
    )
    .expect("layer export must succeed");
    let names: Vec<&str> = parts.iter().map(|p| p.written.as_str()).collect();
    assert_eq!(names, vec!["w_3_A", "w_A", "w_3_A_"]);
}

/// Without overwriting, an install tries numbered names.
#[test]
fn installs_are_numbered_from_two() {
    assert_eq!(installed_name("world", "brdb", 1), "world.brdb");
    assert_eq!(installed_name("world", "brdb", 2), "world-2.brdb");
    assert_eq!(installed_name("my-world", "brz", 13), "my-world-13.brz");
}
