//! Brick and memory estimates that gate an export.
use super::convert::{OutputOptions, MAX_GRID_BRICKS};
use super::tiling::tiles_on_axis;
use crate::text::{to_chars, trim};
use vstd::prelude::*;

verus! {

/// Most bricks that a single mesh may hold.
pub const MAX_BRICKS: usize = 2_000_000;

/// Memory that an export leaves to everything else.
pub const RAM_RESERVE_BYTES: u64 = 12_884_901_888;

/// Memory that one brick owns.
pub const BRICK_OWNED_BYTES: u64 = 256;

/// Copies of the bricks that are alive while a save is written.
pub const WRITE_PEAK_FACTOR: u64 = 3;

/// Memory that the mesher takes per cell of a field in one color.
pub const MESH_BYTES_PER_CELL: u64 = 64;

/// A number kept within 64 bits.
pub open spec fn saturated(n: int) -> u64 {
    if n > u64::MAX {
        u64::MAX
    } else {
        n as u64
    }
}

fn saturating_mul(a: u64, b: u64) -> (p: u64)
    ensures
        p == saturated(a * b),
{
    proof {
        assert(0 <= a * b <= u64::MAX * u64::MAX) by (nonlinear_arith)
            requires
                0 <= a <= u64::MAX,
                0 <= b <= u64::MAX,
        ;
    }
    let p: u128 = a as u128 * b as u128;
    if p > u64::MAX as u128 {
        u64::MAX
    } else {
        p as u64
    }
}

/// Size of an export before it runs.
#[derive(Clone, Copy, Debug, PartialEq, Eq, Structural)]
pub struct ExportEstimate {
    pub est_bricks: u64,
    pub peak_bytes: u64,
    pub over_brick_cap: bool,
    pub fits_ram: bool,
    /// Tiles the export will produce: `1` for a single mesh, or
    /// `ceil(w/tile)·ceil(h/tile)` for the grid-tiled path.
    pub tile_count: u32,
}

/// Peak memory of a mesh of `mesh_cells` cells beside the write of `bricks` bricks.
pub open spec fn peak(mesh_cells: int, bricks: int) -> u64 {
    saturated(
        saturated(mesh_cells * MESH_BYTES_PER_CELL) + saturated(
            saturated(bricks * BRICK_OWNED_BYTES) * WRITE_PEAK_FACTOR,
        ),
    )
}

/// The estimate for `bricks` bricks in tiles of `mesh_cells` cells, against a cap and the memory
/// that is free.
pub open spec fn estimate(
    mesh_cells: u64,
    bricks: u64,
    tiles: u32,
    cap: int,
    available_ram: u64,
) -> ExportEstimate {
    let over = bricks > cap;
    let budget = if available_ram > RAM_RESERVE_BYTES {
        available_ram - RAM_RESERVE_BYTES
    } else {
        0
    };
    ExportEstimate {
        est_bricks: bricks,
        peak_bytes: peak(mesh_cells as int, bricks as int),
        over_brick_cap: over,
        fits_ram: peak(mesh_cells as int, bricks as int) <= budget && !over,
        tile_count: tiles,
    }
}

fn compute(mesh_cells: u64, bricks: u64, tiles: u32, cap: u64, available_ram: u64) -> (est:
    ExportEstimate)
    ensures
        est == estimate(mesh_cells, bricks, tiles, cap as int, available_ram),
{
    let mesh_bytes: u64 = saturating_mul(mesh_cells, MESH_BYTES_PER_CELL);
    let write_bytes: u64 = saturating_mul(
        saturating_mul(bricks, BRICK_OWNED_BYTES),
        WRITE_PEAK_FACTOR,
    );
    let peak_bytes: u64 = mesh_bytes.saturating_add(write_bytes);
    let over_brick_cap: bool = bricks > cap;
    let budget: u64 = available_ram.saturating_sub(RAM_RESERVE_BYTES);
    ExportEstimate {
        est_bricks: bricks,
        peak_bytes,
        over_brick_cap,
        fits_ram: peak_bytes <= budget && !over_brick_cap,
        tile_count: tiles,
    }
}

/// Compute the single-mesh estimate for a `cells`-cell field: the greedy mesher emits at most one
/// brick per column, so the cell count is the brick ceiling. `available_ram` is the memory that is
/// free.
pub fn single_mesh_estimate(cells: u64, available_ram: u64) -> (est: ExportEstimate)
    ensures
        est == estimate(cells, cells, 1, MAX_BRICKS as int, available_ram),
{
    compute(cells, cells, 1, MAX_BRICKS as u64, available_ram)
}

/// Number of tiles of a field, saturated to 32 bits.
pub open spec fn total_tiles(width: u32, height: u32, tile_cells: u32) -> u32 {
    let n = super::tiling::tile_total(
        super::tiling::positive(width),
        super::tiling::positive(tile_cells),
    ) * super::tiling::tile_total(
        super::tiling::positive(height),
        super::tiling::positive(tile_cells),
    );
    if n > u32::MAX {
        u32::MAX
    } else {
        n as u32
    }
}

/// The brick ceiling of a tiled export: every tile counted as a full one.
pub open spec fn tiled_bricks(width: u32, height: u32, tile_cells: u32) -> u64 {
    saturated(
        saturated(super::tiling::positive(tile_cells) * super::tiling::positive(tile_cells))
            * total_tiles(width, height, tile_cells),
    )
}

/// Compute the grid-tiled estimate: a `w × h` field split into
/// `ceil(w/tile)·ceil(h/tile)` tiles stitched into ONE save. The peak working set is ONE tile's
/// mesh (meshing is sequential) plus the stitched write over the aggregate brick count, and the cap
/// is the aggregate one.
pub fn tiled_estimate(width: u32, height: u32, tile_cells: u32, available_ram: u64) -> (est:
    ExportEstimate)
    ensures
        est == estimate(
            saturated(
                super::tiling::positive(tile_cells) * super::tiling::positive(tile_cells),
            ),
            tiled_bricks(width, height, tile_cells),
            total_tiles(width, height, tile_cells),
            MAX_GRID_BRICKS as int,
            available_ram,
        ),
{
    let cols: u64 = tiles_on_axis(width, tile_cells) as u64;
    let rows: u64 = tiles_on_axis(height, tile_cells) as u64;
    let product: u64 = saturating_mul(cols, rows);
    let tile_count: u32 = if product > u32::MAX as u64 {
        u32::MAX
    } else {
        product as u32
    };
    let body: u64 = if tile_cells == 0 {
        1
    } else {
        tile_cells as u64
    };
    let per_tile: u64 = saturating_mul(body, body);
    let bricks: u64 = saturating_mul(per_tile, tile_count as u64);
    compute(per_tile, bricks, tile_count, MAX_GRID_BRICKS as u64, available_ram)
}

/// How an export will run, and its estimate.
#[derive(Clone, Copy, Debug, PartialEq, Eq, Structural)]
pub struct ExportPlan {
    /// Split into stitched tiles.
    pub tiled: bool,
    pub estimate: ExportEstimate,
}

/// The way that an export takes: a field that does not fit as a single mesh is split, and so is any
/// field when that is forced.
pub open spec fn planned(
    width: u32,
    height: u32,
    tile_cells: u32,
    force_tile: bool,
    available_ram: u64,
) -> ExportPlan {
    let cells = (width * height) as u64;
    let single = estimate(cells, cells, 1, MAX_BRICKS as int, available_ram);
    let tiled = !single.fits_ram || force_tile;
    ExportPlan {
        tiled,
        estimate: if tiled {
            estimate(
                saturated(
                    super::tiling::positive(tile_cells) * super::tiling::positive(tile_cells),
                ),
                tiled_bricks(width, height, tile_cells),
                total_tiles(width, height, tile_cells),
                MAX_GRID_BRICKS as int,
                available_ram,
            )
        } else {
            single
        },
    }
}

/// Choose between a single mesh and tiles. The estimate is that of the chosen way.
pub fn plan_export(width: u32, height: u32, tile_cells: u32, force_tile: bool, available_ram: u64)
    -> (plan: ExportPlan)
    ensures
        plan == planned(width, height, tile_cells, force_tile, available_ram),
{
    proof {
        assert(0 <= width * height <= 0xFFFF_FFFF * 0xFFFF_FFFF) by (nonlinear_arith)
            requires
                0 <= width <= 0xFFFF_FFFF,
                0 <= height <= 0xFFFF_FFFF,
        ;
    }
    let single: ExportEstimate = single_mesh_estimate(
        width as u64 * height as u64,
        available_ram,
    );
    let tiled: bool = !single.fits_ram || force_tile;
    let estimate: ExportEstimate = if tiled {
        tiled_estimate(width, height, tile_cells, available_ram)
    } else {
        single
    };
    ExportPlan { tiled, estimate }
}

/// What keeps an export from starting.
#[derive(Clone, Copy, Debug, PartialEq, Eq, Structural)]
pub struct ExportGate {
    pub name_empty: bool,
    pub no_format: bool,
    pub over_budget: bool,
}

impl ExportGate {
    /// Nothing keeps the export from starting.
    pub open spec fn is_open(self) -> bool {
        !self.name_empty && !self.no_format && !self.over_budget
    }

    /// Whether the export may start.
    pub fn enabled(self) -> (b: bool)
        ensures
            b == self.is_open(),
    {
        !self.name_empty && !self.no_format && !self.over_budget
    }
}

/// Check an export: it needs a name that is not blank, a format, and an estimate within budget.
/// `name_empty` says whether the name is blank.
pub fn export_gate(name_empty: bool, out: OutputOptions, est: ExportEstimate) -> (gate: ExportGate)
    ensures
        gate == (ExportGate {
            name_empty,
            no_format: !super::convert::has_format(out),
            over_budget: !est.fits_ram,
        }),
{
    ExportGate { name_empty, no_format: !out.brdb && !out.brz, over_budget: !est.fits_ram }
}

/// Check an export under the name that was typed in; a name of nothing but whitespace is blank.
pub fn convert_gate(name: &str, out: OutputOptions, est: ExportEstimate) -> (gate: ExportGate)
    ensures
        gate == (ExportGate {
            name_empty: crate::text::trimmed(name@).len() == 0,
            no_format: !super::convert::has_format(out),
            over_budget: !est.fits_ram,
        }),
{
    let rest: Vec<char> = to_chars(trim(name).as_str());
    export_gate(rest.len() == 0, out, est)
}

/// An export over its brick cap never starts, however much memory is free.
pub proof fn over_cap_never_fits(
    mesh_cells: u64,
    bricks: u64,
    tiles: u32,
    cap: int,
    available_ram: u64,
)
    requires
        bricks > cap,
    ensures
        !estimate(mesh_cells, bricks, tiles, cap, available_ram).fits_ram,
{
}

/// What an estimate counts: 64 bytes for each cell of a mesh and three times 256 bytes for each brick.
/// An export fits where its bricks keep to the cap and that much memory is free besides 12 GiB.
pub proof fn estimate_counts_mesh_and_write(
    mesh_cells: u64,
    bricks: u64,
    tiles: u32,
    cap: int,
    available_ram: u64,
)
    requires
        mesh_cells * 64 + bricks * 768 <= u64::MAX,
    ensures
        ({
            let est = estimate(mesh_cells, bricks, tiles, cap, available_ram);
            &&& est.est_bricks == bricks
            &&& est.tile_count == tiles
            &&& est.peak_bytes == mesh_cells * 64 + bricks * 768
            &&& est.over_brick_cap == (bricks > cap)
            &&& est.fits_ram == (bricks <= cap && 12 * 1024 * 1024 * 1024 + est.peak_bytes
                <= available_ram || bricks <= cap && est.peak_bytes == 0)
        }),
{
}

/// What fits stays fitting with more free memory, with fewer bricks and with fewer cells in a mesh.
pub proof fn smaller_exports_fit_as_well(
    mesh_cells: u64,
    bricks: u64,
    tiles: u32,
    cap: int,
    available_ram: u64,
    fewer_cells: u64,
    fewer_bricks: u64,
    more_ram: u64,
)
    requires
        estimate(mesh_cells, bricks, tiles, cap, available_ram).fits_ram,
        fewer_cells <= mesh_cells,
        fewer_bricks <= bricks,
        more_ram >= available_ram,
    ensures
        estimate(fewer_cells, fewer_bricks, tiles, cap, more_ram).fits_ram,
{
}

/// An export is a single mesh where nothing forces tiles, the field has at most two million cells, and
/// memory for its mesh and its save is free besides 12 GiB; otherwise it is tiled. A single mesh counts
/// one tile and a brick for each cell.
pub proof fn small_fields_are_single_meshes(
    width: u32,
    height: u32,
    tile_cells: u32,
    force_tile: bool,
    available_ram: u64,
)
    requires
        0 < width,
        0 < height,
    ensures
        ({
            let plan = planned(width, height, tile_cells, force_tile, available_ram);
            let cells = width * height;
            &&& plan.tiled == (force_tile || cells > 2_000_000 || 12 * 1024 * 1024 * 1024 + 832
                * cells > available_ram)
            &&& !plan.tiled ==> {
                &&& plan.estimate.est_bricks == cells
                &&& plan.estimate.tile_count == 1
                &&& plan.estimate.fits_ram
                &&& !plan.estimate.over_brick_cap
                &&& plan.estimate.peak_bytes == 832 * cells
            }
        }),
{
    assert(0 < width * height <= 0xFFFF_FFFF * 0xFFFF_FFFF) by (nonlinear_arith)
        requires
            0 < width <= 0xFFFF_FFFF,
            0 < height <= 0xFFFF_FFFF,
    ;
}

/// A tiled export counts as many tiles as cover the field, each with as many bricks as a full tile has
/// cells; its mesh is that of one tile.
pub proof fn tiles_of_a_plan_cover_the_field(
    width: u32,
    height: u32,
    tile_cells: u32,
    force_tile: bool,
    available_ram: u64,
) -> (grid: (int, int))
    requires
        0 < width,
        0 < height,
        0 < tile_cells,
        planned(width, height, tile_cells, force_tile, available_ram).tiled,
        (width + tile_cells) * (height + tile_cells) <= u32::MAX,
    ensures
        ({
            let est = planned(width, height, tile_cells, force_tile, available_ram).estimate;
            let (cols, rows) = grid;
            &&& (cols - 1) * tile_cells < width <= cols * tile_cells
            &&& (rows - 1) * tile_cells < height <= rows * tile_cells
            &&& est.tile_count == cols * rows
            &&& est.est_bricks == tile_cells * tile_cells * (cols * rows)
            &&& est.peak_bytes == tile_cells * tile_cells * 64 + est.est_bricks * 768
            &&& est.over_brick_cap == (est.est_bricks > 50_000_000)
        }),
{
    let t = tile_cells as int;
    let cols = super::tiling::tile_total(width as int, t);
    let rows = super::tiling::tile_total(height as int, t);
    lemma_cover(width as int, t);
    lemma_cover(height as int, t);
    assert(t * t * (cols * rows) == (cols * t) * (rows * t)) by (nonlinear_arith);
    assert((cols - 1) * t == cols * t - t && (rows - 1) * t == rows * t - t) by (nonlinear_arith);
    assert((cols * t) * (rows * t) <= (width + t) * (height + t)) by (nonlinear_arith)
        requires
            0 <= cols * t <= width + t,
            0 <= rows * t <= height + t,
    ;
    assert(1 <= t * t && 1 <= cols * rows && cols * rows <= t * t * (cols * rows) && t * t <= t * t
        * (cols * rows)) by (nonlinear_arith)
        requires
            1 <= t,
            1 <= cols,
            1 <= rows,
    ;
    (cols, rows)
}

proof fn lemma_cover(extent: int, step: int)
    requires
        0 < extent,
        0 < step,
    ensures
        ({
            let n = super::tiling::tile_total(extent, step);
            n >= 1 && (n - 1) * step < extent <= n * step
        }),
{
    let n = super::tiling::tile_total(extent, step);
    let e = extent + step - 1;
    vstd::arithmetic::div_mod::lemma_fundamental_div_mod(e, step);
    vstd::arithmetic::div_mod::lemma_mod_bound(e, step);
    vstd::arithmetic::mul::lemma_mul_is_commutative(step, n);
    assert((n - 1) * step == n * step - step) by (nonlinear_arith);
    assert(n >= 1) by (nonlinear_arith)
        requires
            n * step > 0,
            step > 0,
    ;
}

/// An export starts only with a name, a format and an estimate that fits.
pub proof fn open_gates_lack_nothing(gate: ExportGate)
    ensures
        gate.is_open() ==> !gate.name_empty,
        gate.is_open() ==> !gate.no_format,
        gate.is_open() ==> !gate.over_budget,
        !gate.is_open() ==> gate.name_empty || gate.no_format || gate.over_budget,
{
}

} // verus!
