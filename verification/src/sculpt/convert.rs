//! From quantized terrain to bricks: one mesh, or a mosaic of tiles.
use super::grid::{slice_mask, FlatColormap, HeightGrid};
use super::paint::{PaintColormap, PaintGrid, PaintLayer};
use super::tiling::{tile_bounds, tile_world_offset};
use crate::brick::Brick;
use crate::map::{Colormap, Heightmap};
use crate::opt::generate::{gen_greedy_heightmap, Progress, CANCELLED_MSG};
use crate::opt::limits::MAX_LEVEL;
use crate::text::same_text;
use crate::tiles::MAX_DEM_CELLS;
use crate::util::{asset_name, BrickAsset, GenOptions};
use vstd::prelude::*;

verus! {

/// Most bricks that a mosaic of tiles may hold.
pub const MAX_GRID_BRICKS: usize = 50_000_000;

/// What a conversion writes and where: `.brdb` worlds and `.brz` prefabs. At least one format is
/// expected; with neither set a conversion errors rather than writing nothing.
#[derive(Clone, Copy, Debug, PartialEq, Eq, Structural)]
pub struct OutputOptions {
    /// Write a `.brdb` world (installs into Brickadia's `Worlds/`).
    pub brdb: bool,
    /// Write a `.brz` prefab (installs into Brickadia's `Prefabs/`).
    pub brz: bool,
    /// Copy the written saves into Brickadia's Saved tree.
    pub install_to_brickadia: bool,
    /// Overwrite `<name>.<ext>` in place instead of suffixing `-2`, `-3`, … .
    pub overwrite: bool,
    /// Reveal the native Brickadia floor under flat (zero-height) columns.
    pub skip_floor: bool,
}

impl Default for OutputOptions {
    /// A world that reveals the native floor under flat areas, installed for immediate in-game
    /// load.
    fn default() -> (out: Self)
        ensures
            out == (OutputOptions {
                brdb: true,
                brz: false,
                install_to_brickadia: true,
                overwrite: false,
                skip_floor: true,
            }),
    {
        OutputOptions {
            brdb: true,
            brz: false,
            install_to_brickadia: true,
            overwrite: false,
            skip_floor: true,
        }
    }
}

/// Why a conversion failed.
#[derive(Debug)]
pub enum BuildError {
    /// Nothing can be written.
    BrdbWrite(String),
    /// A directory or a file could not be made or removed.
    Io(String),
    /// A mesh would take in more cells than its budget.
    TooManyCells { cells: u64, budget: u64 },
    /// The bricks exceed the aggregate cap.
    TooManyBricks { count: usize, max: usize },
    /// The mesher refused its input.
    Mesh(String),
    Cancelled,
}

/// How terrain is meshed.
#[derive(Clone, Copy, Debug)]
pub struct MeshSettings {
    /// World units per cell.
    pub size: u16,
    /// Build of micro bricks instead of smooth tiles.
    pub micro: bool,
    /// Base plane that columns fill down to.
    pub base_h: u32,
    /// Columns at or below this height emit no bricks when the floor is skipped.
    pub omit_h: u32,
    /// Largest footprint of a merged brick on each axis, in world units.
    pub max_brick_units: u16,
}

/// World units of a cell that is `scale` bricks wide: five per stud, one per micro brick.
pub fn cell_size_units(scale: u16, micro: bool) -> (size: u16)
    requires
        !micro ==> scale * 5 <= u16::MAX,
    ensures
        size == if micro {
            scale as int
        } else {
            scale * 5
        },
{
    if micro {
        scale
    } else {
        scale * 5
    }
}

/// The generation options of a terrain mesh.
pub open spec fn is_mesh_options(
    options: GenOptions,
    settings: MeshSettings,
    skip_floor: bool,
) -> bool {
    &&& options.size == settings.size
    &&& options.scale == 1
    &&& options.asset@ == if settings.micro {
        BrickAsset::MicroBrick.text()
    } else {
        BrickAsset::SmoothTile.text()
    }
    &&& !options.cull
    &&& options.micro == settings.micro
    &&& !options.stud
    &&& !options.snap
    &&& !options.img
    &&& !options.glow
    &&& !options.hdmap
    &&& !options.lrgb
    &&& !options.nocollide
    &&& !options.quadtree
    &&& options.greedy
    &&& options.fill_to_base
    &&& options.skip_floor == skip_floor
    &&& options.omit_below_h == settings.omit_h
    &&& options.max_brick_units == settings.max_brick_units
}

fn mesh_options(settings: &MeshSettings, skip_floor: bool) -> (options: GenOptions)
    ensures
        is_mesh_options(options, *settings, skip_floor),
{
    GenOptions {
        size: settings.size,
        scale: 1,
        asset: asset_name(
            if settings.micro {
                BrickAsset::MicroBrick
            } else {
                BrickAsset::SmoothTile
            },
        ),
        cull: false,
        micro: settings.micro,
        stud: false,
        snap: false,
        img: false,
        glow: false,
        hdmap: false,
        lrgb: false,
        nocollide: false,
        quadtree: false,
        greedy: true,
        fill_to_base: true,
        skip_floor,
        omit_below_h: settings.omit_h,
        max_brick_units: settings.max_brick_units,
    }
}

/// The field and the settings are far from overflowing.
pub open spec fn field_fits(grid: HeightGrid, settings: MeshSettings) -> bool {
    let (w, h) = grid.dims();
    &&& w <= i32::MAX && h <= i32::MAX
    &&& 2 * (w * settings.size) <= i32::MAX
    &&& 2 * (h * settings.size) <= i32::MAX
    &&& settings.base_h <= MAX_LEVEL
    &&& crate::opt::coverage::heights_below(&grid, MAX_LEVEL)
}

/// Whether the field and the settings are far from overflowing.
pub fn is_field_fitting(grid: &HeightGrid, settings: &MeshSettings) -> (b: bool)
    ensures
        b == field_fits(*grid, *settings),
{
    let (w, h) = grid.size();
    let size: u64 = settings.size as u64;
    proof {
        assert(0 <= w * size <= 0xFFFF_FFFF * 0xFFFF && 0 <= h * size <= 0xFFFF_FFFF * 0xFFFF)
            by (nonlinear_arith)
            requires
                0 <= w <= 0xFFFF_FFFF,
                0 <= h <= 0xFFFF_FFFF,
                0 <= size <= 0xFFFF,
        ;
    }
    w <= i32::MAX as u32 && h <= i32::MAX as u32 && 2 * (w as u64 * size) <= i32::MAX as u64 && 2 * (
    h as u64 * size) <= i32::MAX as u64 && settings.base_h <= MAX_LEVEL
        && crate::opt::limits::are_heights_below(grid, MAX_LEVEL)
}

/// What comes of a mesher's outcome.
pub open spec fn is_build_outcome(
    raw: Result<Vec<Brick>, String>,
    outcome: Result<Vec<Brick>, BuildError>,
) -> bool {
    match raw {
        Ok(bricks) => outcome matches Ok(b) && b@ == bricks@,
        Err(e) => if e@ == CANCELLED_MSG@ {
            outcome matches Err(BuildError::Cancelled)
        } else {
            outcome matches Err(BuildError::Mesh(f)) && f@ == e@
        },
    }
}

/// Map a mesher's outcome to the conversion's.
pub fn build_outcome(raw: Result<Vec<Brick>, String>) -> (outcome: Result<Vec<Brick>, BuildError>)
    ensures
        is_build_outcome(raw, outcome),
{
    match raw {
        Ok(bricks) => Ok(bricks),
        Err(e) => {
            if same_text(e.as_str(), CANCELLED_MSG) {
                Err(BuildError::Cancelled)
            } else {
                Err(BuildError::Mesh(e))
            }
        },
    }
}

/// The field was meshed at the offset: the outcome is the greedy mesher's under the terrain
/// options.
pub open spec fn is_meshed<C: Colormap, F: Fn(Progress) -> bool>(
    grid: HeightGrid,
    colors: C,
    settings: MeshSettings,
    skip_floor: bool,
    offset: (i32, i32),
    mask: Option<Seq<bool>>,
    progress: F,
    outcome: Result<Vec<Brick>, BuildError>,
) -> bool {
    exists|options: GenOptions, raw: Result<Vec<Brick>, String>|
        {
            &&& is_mesh_options(options, settings, skip_floor)
            &&& #[trigger] crate::opt::generate::greedy_result(
                &grid,
                &colors,
                options,
                Some(settings.base_h),
                Some(offset),
                progress,
                mask,
                raw,
            )
            &&& is_build_outcome(raw, outcome)
        }
}

pub(crate) fn mesh_field<C: Colormap, F: Fn(Progress) -> bool>(
    grid: &HeightGrid,
    colors: &C,
    settings: &MeshSettings,
    skip_floor: bool,
    offset: (i32, i32),
    keep_mask: Option<&[bool]>,
    progress: F,
) -> (outcome: Result<Vec<Brick>, BuildError>)
    requires
        crate::opt::generate::takes_reports(progress),
        field_fits(*grid, *settings),
        2 * (grid.dims().0 * settings.size) + offset.0 <= i32::MAX,
        2 * (grid.dims().1 * settings.size) + offset.1 <= i32::MAX,
    ensures
        is_meshed(
            *grid,
            *colors,
            *settings,
            skip_floor,
            offset,
            crate::opt::planes::mask_view(keep_mask),
            progress,
            outcome,
        ),
{
    let options: GenOptions = mesh_options(settings, skip_floor);
    let _count: usize = grid.cell_count();
    proof {
        crate::opt::limits::moderate_maps_mesh_greedily(
            grid,
            colors,
            options,
            Some(settings.base_h),
            Some(offset),
            crate::opt::planes::mask_view(keep_mask),
            MAX_LEVEL,
        );
    }
    let raw: Result<Vec<Brick>, String> = gen_greedy_heightmap(
        grid,
        colors,
        options,
        Some(settings.base_h),
        Some(offset),
        progress,
        keep_mask,
    );
    build_outcome(raw)
}

/// The bricks are those of the field's mesh at the offset, under the terrain options.
pub open spec fn are_mesh_bricks<C: Colormap>(
    grid: HeightGrid,
    colors: C,
    settings: MeshSettings,
    skip_floor: bool,
    offset: (i32, i32),
    mask: Option<Seq<bool>>,
    bricks: Seq<Brick>,
) -> bool {
    exists|options: GenOptions|
        is_mesh_options(options, settings, skip_floor)
            && #[trigger] crate::opt::generate::is_greedy_output(
            &grid,
            &colors,
            options,
            Some(settings.base_h),
            Some(offset),
            mask,
            bricks,
        )
}

/// The field was meshed without a word about its progress: into the bricks of its mesh, unless the
/// run was cancelled.
pub open spec fn is_quietly_meshed<C: Colormap, G: Fn() -> bool>(
    grid: HeightGrid,
    colors: C,
    settings: MeshSettings,
    skip_floor: bool,
    offset: (i32, i32),
    mask: Option<Seq<bool>>,
    cancelled: G,
    outcome: Result<Vec<Brick>, BuildError>,
) -> bool {
    match outcome {
        Ok(bricks) => {
            &&& are_mesh_bricks(grid, colors, settings, skip_floor, offset, mask, bricks@)
            &&& call_ensures(cancelled, (), false)
        },
        Err(e) => e is Cancelled && call_ensures(cancelled, (), true),
    }
}

spec fn can_ask<G: Fn() -> bool>(cancelled: &G) -> bool {
    call_requires(*cancelled, ())
}

spec fn may_answer<G: Fn() -> bool>(cancelled: &G, stop: bool) -> bool {
    call_ensures(*cancelled, (), stop)
}

/// Mesh a field without a word about its progress; at each of its reports the mesher asks whether
/// the run was cancelled.
pub(crate) fn mesh_quietly<C: Colormap, G: Fn() -> bool>(
    grid: &HeightGrid,
    colors: &C,
    settings: &MeshSettings,
    skip_floor: bool,
    offset: (i32, i32),
    keep_mask: Option<&[bool]>,
    cancelled: &G,
) -> (outcome: Result<Vec<Brick>, BuildError>)
    requires
        call_requires(*cancelled, ()),
        field_fits(*grid, *settings),
        2 * (grid.dims().0 * settings.size) + offset.0 <= i32::MAX,
        2 * (grid.dims().1 * settings.size) + offset.1 <= i32::MAX,
        colors.dims() == grid.dims(),
        crate::opt::generate::mask_matches(
            crate::opt::planes::mask_view(keep_mask),
            grid.dims(),
        ),
    ensures
        is_quietly_meshed(
            *grid,
            *colors,
            *settings,
            skip_floor,
            offset,
            crate::opt::planes::mask_view(keep_mask),
            *cancelled,
            outcome,
        ),
{
    let watch = |p: Progress| -> (go: bool)
        requires
            can_ask(cancelled),
        ensures
            may_answer(cancelled, !go),
        { !cancelled() };
    let outcome: Result<Vec<Brick>, BuildError> = mesh_field(
        grid,
        colors,
        settings,
        skip_floor,
        offset,
        keep_mask,
        watch,
    );
    proof {
        let (options, raw) = choose|options: GenOptions, raw: Result<Vec<Brick>, String>|
            {
                &&& is_mesh_options(options, *settings, skip_floor)
                &&& #[trigger] crate::opt::generate::greedy_result(
                    grid,
                    colors,
                    options,
                    Some(settings.base_h),
                    Some(offset),
                    watch,
                    crate::opt::planes::mask_view(keep_mask),
                    raw,
                )
                &&& is_build_outcome(raw, outcome)
            };
        match raw {
            Ok(bricks) => {
                let quads = choose|quads: Seq<crate::opt::generate::TaggedQuad>| #[trigger]
                    crate::opt::generate::is_meshed_into(
                        grid,
                        colors,
                        options,
                        crate::opt::planes::mask_view(keep_mask),
                        quads,
                    ) && crate::opt::reports::all_accepted(
                        watch,
                        crate::opt::reports::greedy_reports(quads.len() as int),
                    );
                let reports = crate::opt::reports::greedy_reports(quads.len() as int);
                assert(reports[0] == Progress::Start);
                assert(crate::opt::reports::answered(watch, reports[0], true));
                assert(call_ensures(watch, (Progress::Start,), true));
            },
            Err(e) => {
                if !call_ensures(watch, (Progress::Start,), false) {
                    let reports = choose|reports: Seq<Progress>|
                        #[trigger] crate::opt::reports::is_stopped(watch, reports);
                    let k = choose|k: int| #[trigger]
                        crate::opt::reports::stops_at(watch, reports, k);
                    assert(call_ensures(watch, (reports[k],), false));
                }
            },
        }
    }
    outcome
}

/// The colors of a field: one flat color, or what was painted.
pub enum FieldColors<'a> {
    Flat(FlatColormap),
    Paint(PaintColormap<'a>),
}

impl<'a> Colormap for FieldColors<'a> {
    open spec fn dims(&self) -> (u32, u32) {
        match self {
            FieldColors::Flat(m) => m.dims(),
            FieldColors::Paint(m) => m.dims(),
        }
    }

    open spec fn color_at(&self, x: int, y: int) -> [u8; 4] {
        match self {
            FieldColors::Flat(m) => m.color_at(x, y),
            FieldColors::Paint(m) => m.color_at(x, y),
        }
    }

    fn at(&self, x: u32, y: u32) -> (c: [u8; 4]) {
        match self {
            FieldColors::Flat(m) => m.at(x, y),
            FieldColors::Paint(m) => m.at(x, y),
        }
    }

    fn size(&self) -> (s: (u32, u32)) {
        match self {
            FieldColors::Flat(m) => m.size(),
            FieldColors::Paint(m) => m.size(),
        }
    }
}

/// Something has been painted.
pub open spec fn is_painted(paint: Option<PaintLayer>) -> bool {
    paint matches Some(p) && exists|i: int|
        0 <= i < p.grid.cells@.len() && #[trigger] p.grid.cells@[i] != 0
}

/// Color of a cell: its swatch where something has been painted, the default color otherwise.
pub open spec fn field_color(paint: Option<PaintLayer>, x: int, y: int) -> [u8; 4] {
    if is_painted(paint) {
        super::paint::swatch(paint->0.palette@, paint->0.grid.cell(x, y))
    } else {
        super::paint::DEFAULT_BRICK_COLOR
    }
}

/// The colors are those of the window of the field that starts at `(x0, y0)`.
pub open spec fn shows_paint(
    colors: FieldColors,
    paint: Option<PaintLayer>,
    dims: (u32, u32),
    x0: int,
    y0: int,
) -> bool {
    &&& colors.dims() == dims
    &&& forall|x: int, y: int|
        0 <= x < dims.0 && 0 <= y < dims.1 ==> #[trigger] colors.color_at(x, y) == field_color(
            paint,
            x0 + x,
            y0 + y,
        )
}

/// The paint layer, where there is one, matches the field and has a fallback color.
pub open spec fn paint_fits(paint: Option<PaintLayer>, dims: (u32, u32)) -> bool {
    paint matches Some(p) ==> p.grid.wf() && p.grid.width == dims.0 && p.grid.height == dims.1
        && p.palette@.len() > 0
}

/// The paint layer, unless nothing is painted on it.
fn active_paint(paint: Option<PaintLayer>) -> (active: Option<PaintLayer>)
    ensures
        is_painted(paint) ==> active == paint,
        !is_painted(paint) ==> active is None,
{
    match paint {
        Some(p) => {
            if p.grid.is_blank() {
                None
            } else {
                paint
            }
        },
        None => None,
    }
}

/// At least one format is selected.
pub open spec fn has_format(out: OutputOptions) -> bool {
    out.brdb || out.brz
}

/// The error for a conversion without a format.
pub open spec fn is_format_error<T>(outcome: Result<T, BuildError>) -> bool {
    outcome matches Err(BuildError::BrdbWrite(e)) && e@
        == "select at least one output format (.brdb or .brz)"@
}

/// The error of a conversion that is asked for no format.
pub fn format_error() -> (e: BuildError)
    ensures
        e matches BuildError::BrdbWrite(text) && text@
            == "select at least one output format (.brdb or .brz)"@,
{
    BuildError::BrdbWrite("select at least one output format (.brdb or .brz)".to_owned())
}

/// The offset that centers a field on the origin.
pub open spec fn center_offset(dims: (u32, u32), size: u16) -> (i32, i32) {
    (-(dims.0 * size) as i32, -(dims.1 * size) as i32)
}

/// What converting a field as one mesh comes to.
pub open spec fn is_single_outcome<F: Fn(Progress) -> bool>(
    grid: HeightGrid,
    settings: MeshSettings,
    skip_floor: bool,
    mask: Option<Seq<bool>>,
    paint: Option<PaintLayer>,
    progress: F,
    outcome: Result<Vec<Brick>, BuildError>,
) -> bool {
    exists|colors: FieldColors|
        #[trigger] shows_paint(colors, paint, grid.dims(), 0, 0) && is_meshed(
            grid,
            colors,
            settings,
            skip_floor,
            center_offset(grid.dims(), settings.size),
            mask,
            progress,
            outcome,
        )
}

/// Convert a field into the bricks of one mesh, centered on the origin. Painted cells color the
/// bricks; a blank grid leaves the flat default color. `keep_mask` is row-major; cells that it does
/// not keep emit no brick.
pub fn convert_grid<F: Fn(Progress) -> bool>(
    grid: &HeightGrid,
    out: OutputOptions,
    settings: &MeshSettings,
    keep_mask: Option<&[bool]>,
    paint: Option<PaintLayer>,
    progress: F,
) -> (outcome: Result<Vec<Brick>, BuildError>)
    requires
        crate::opt::generate::takes_reports(progress),
        field_fits(*grid, *settings),
        paint_fits(paint, grid.dims()),
    ensures
        !has_format(out) ==> is_format_error(outcome),
        has_format(out) ==> is_single_outcome(
            *grid,
            *settings,
            out.skip_floor,
            crate::opt::planes::mask_view(keep_mask),
            paint,
            progress,
            outcome,
        ),
{
    if !out.brdb && !out.brz {
        return Err(format_error());
    }
    let (width, height) = grid.size();
    proof {
        assert(0 <= width * settings.size && 0 <= height * settings.size) by (nonlinear_arith)
            requires
                0 <= width,
                0 <= height,
                0 <= settings.size,
        ;
    }
    let size: i32 = settings.size as i32;
    let offset: (i32, i32) = (-(width as i32 * size), -(height as i32 * size));
    let colors: FieldColors = match active_paint(paint) {
        Some(p) => FieldColors::Paint(
            PaintColormap::new(p.grid.cells.as_slice(), p.palette, width, height),
        ),
        None => FieldColors::Flat(FlatColormap::sculpt_default(width, height)),
    };
    assert(shows_paint(colors, paint, grid.dims(), 0, 0));
    mesh_field(grid, &colors, settings, out.skip_floor, offset, keep_mask, progress)
}

/// A window of cells, half-open: columns `x0 .. x1`, rows `y0 .. y1`.
pub struct Window {
    pub x0: int,
    pub y0: int,
    pub x1: int,
    pub y1: int,
}

/// Tile `t` of a field that is cut every `step` cells, row by row.
pub open spec fn tile_window(dims: (u32, u32), step: int, t: int) -> Window {
    let columns = super::tiling::tile_total(super::tiling::positive(dims.0), step);
    let (x0, x1) = super::tiling::tile_range(
        t % columns,
        super::tiling::positive(dims.0),
        step,
    );
    let (y0, y1) = super::tiling::tile_range(
        t / columns,
        super::tiling::positive(dims.1),
        step,
    );
    Window { x0, y0, x1, y1 }
}

/// Number of tiles of a field that is cut every `step` cells.
pub open spec fn tile_count(dims: (u32, u32), step: int) -> int {
    super::tiling::tile_total(super::tiling::positive(dims.0), step)
        * super::tiling::tile_total(super::tiling::positive(dims.1), step)
}

/// The grid is the window of the field.
pub open spec fn is_window_of(sub: HeightGrid, grid: HeightGrid, win: Window) -> bool {
    &&& sub.dims().0 == win.x1 - win.x0
    &&& sub.dims().1 == win.y1 - win.y0
    &&& forall|x: int, y: int|
        0 <= x < sub.dims().0 && 0 <= y < sub.dims().1 ==> #[trigger] sub.height_at(x, y)
            == grid.height_at(win.x0 + x, win.y0 + y)
}

/// World offset of a window on the lattice of the whole field.
pub open spec fn window_offset(dims: (u32, u32), win: Window, size: u16) -> (i32, i32) {
    (
        super::tiling::axis_offset(win.x0, dims.0 as int, size as int) as i32,
        super::tiling::axis_offset(win.y0, dims.1 as int, size as int) as i32,
    )
}

/// The part of a full-field mask in a window.
pub open spec fn window_mask(mask: Option<Seq<bool>>, dims: (u32, u32), win: Window) -> Option<
    Seq<bool>,
> {
    match mask {
        Some(m) => Some(
            super::grid::mask_window(m, dims.0 as int, win.x0, win.y0, win.x1, win.y1),
        ),
        None => None,
    }
}

/// What converting one window of a field comes to: the mesh of its cells, heights, colors and mask,
/// placed where the whole field's mesh places them.
pub open spec fn is_window_outcome<G: Fn() -> bool>(
    grid: HeightGrid,
    settings: MeshSettings,
    skip_floor: bool,
    mask: Option<Seq<bool>>,
    paint: Option<PaintLayer>,
    cancelled: G,
    win: Window,
    outcome: Result<Vec<Brick>, BuildError>,
) -> bool {
    exists|sub: HeightGrid, colors: FieldColors|
        #[trigger] is_window_of(sub, grid, win) && #[trigger] shows_paint(
            colors,
            paint,
            sub.dims(),
            win.x0,
            win.y0,
        ) && is_quietly_meshed(
            sub,
            colors,
            settings,
            skip_floor,
            window_offset(grid.dims(), win, settings.size),
            window_mask(mask, grid.dims(), win),
            cancelled,
            outcome,
        )
}

pub(crate) proof fn lemma_window_offset(dims: (u32, u32), win: Window, size: u16)
    requires
        2 * (dims.0 * size) <= i32::MAX,
        2 * (dims.1 * size) <= i32::MAX,
        0 <= win.x0 <= win.x1 <= dims.0,
        0 <= win.y0 <= win.y1 <= dims.1,
    ensures
        i32::MIN <= super::tiling::axis_offset(win.x0, dims.0 as int, size as int) <= i32::MAX,
        i32::MIN <= super::tiling::axis_offset(win.y0, dims.1 as int, size as int) <= i32::MAX,
        2 * ((win.x1 - win.x0) * size) <= i32::MAX,
        2 * ((win.y1 - win.y0) * size) <= i32::MAX,
        2 * ((win.x1 - win.x0) * size) + super::tiling::axis_offset(
            win.x0,
            dims.0 as int,
            size as int,
        ) <= i32::MAX,
        2 * ((win.y1 - win.y0) * size) + super::tiling::axis_offset(
            win.y0,
            dims.1 as int,
            size as int,
        ) <= i32::MAX,
{
    lemma_axis_window(win.x0, win.x1, dims.0 as int, size as int);
    lemma_axis_window(win.y0, win.y1, dims.1 as int, size as int);
}

pub(crate) proof fn lemma_axis_window(start: int, end: int, cells: int, size: int)
    requires
        0 <= start <= end <= cells,
        0 <= size,
    ensures
        0 <= start * size <= cells * size,
        0 <= (end - start) * size <= cells * size,
        start * size + (end - start) * size <= cells * size,
{
    assert(0 <= start * size <= cells * size && 0 <= (end - start) * size <= cells * size && start
        * size + (end - start) * size <= cells * size) by (nonlinear_arith)
        requires
            0 <= start <= end <= cells,
            0 <= size,
    ;
}

/// Convert one window of a field.
fn convert_window<G: Fn() -> bool>(
    grid: &HeightGrid,
    settings: &MeshSettings,
    skip_floor: bool,
    keep_mask: Option<&Vec<bool>>,
    paint: Option<PaintLayer>,
    cancelled: &G,
    window: (u32, u32, u32, u32),
) -> (outcome: Result<Vec<Brick>, BuildError>)
    requires
        call_requires(*cancelled, ()),
        field_fits(*grid, *settings),
        paint_fits(paint, grid.dims()),
        keep_mask matches Some(m) ==> m@.len() == grid.dims().0 * grid.dims().1,
        window.0 <= window.2 <= grid.dims().0,
        window.1 <= window.3 <= grid.dims().1,
    ensures
        is_window_outcome(
            *grid,
            *settings,
            skip_floor,
            vec_mask(keep_mask),
            paint,
            *cancelled,
            Window {
                x0: window.0 as int,
                y0: window.1 as int,
                x1: window.2 as int,
                y1: window.3 as int,
            },
            outcome,
        ),
{
    let (x0, y0, x1, y1) = window;
    let ghost win: Window = Window {
        x0: x0 as int,
        y0: y0 as int,
        x1: x1 as int,
        y1: y1 as int,
    };
    let (width, height) = grid.size();
    let sub: HeightGrid = grid.sub_grid(x0, y0, x1, y1);
    let (w, h) = sub.size();
    proof {
        lemma_window_offset(grid.dims(), win, settings.size);
        assert(is_window_of(sub, *grid, win));
        assert forall|x: int, y: int|
            0 <= x < sub.dims().0 && 0 <= y < sub.dims().1 implies #[trigger] sub.height_at(x, y)
            <= MAX_LEVEL by {
            assert(grid.height_at(win.x0 + x, win.y0 + y) <= MAX_LEVEL);
        }
    }
    let offset: (i32, i32) = tile_world_offset(x0, y0, width, height, settings.size);
    let painted: Vec<u8>;
    let active: Option<PaintLayer> = active_paint(paint);
    let colors: FieldColors = match active {
        Some(p) => {
            painted = p.grid.sub_window(x0, y0, x1, y1);
            FieldColors::Paint(PaintColormap::new(painted.as_slice(), p.palette, w, h))
        },
        None => FieldColors::Flat(FlatColormap::sculpt_default(w, h)),
    };
    proof {
        assert forall|x: int, y: int|
            0 <= x < sub.dims().0 && 0 <= y < sub.dims().1 implies #[trigger] colors.color_at(x, y)
            == field_color(paint, x0 + x, y0 + y) by {
            assert(super::paint::window_index(
                (x0 as int, y0 as int, x1 as int),
                x0 + x,
                y0 + y,
            ) == y * w + x);
        }
        assert(shows_paint(colors, paint, sub.dims(), win.x0, win.y0));
    }
    match keep_mask {
        Some(full) => {
            let local: Vec<bool> = slice_mask(full, width, height, window);
            mesh_quietly(
                &sub,
                &colors,
                settings,
                skip_floor,
                offset,
                Some(local.as_slice()),
                cancelled,
            )
        },
        None => mesh_quietly(&sub, &colors, settings, skip_floor, offset, None, cancelled),
    }
}

/// The contents of an optional mask.
pub open spec fn vec_mask(mask: Option<&Vec<bool>>) -> Option<Seq<bool>> {
    match mask {
        Some(m) => Some(m@),
        None => None,
    }
}

/// The bricks of several parts, part after part.
pub open spec fn joined(parts: Seq<Vec<Brick>>) -> Seq<Brick>
    decreases parts.len(),
{
    if parts.len() == 0 {
        Seq::empty()
    } else {
        joined(parts.drop_last()) + parts.last()@
    }
}

/// Number of cells in a window.
pub open spec fn window_area(win: Window) -> int {
    (win.x1 - win.x0) * (win.y1 - win.y0)
}

/// Tile `t` of a field was converted into these bricks, within the cell budget.
pub open spec fn is_tile_part<G: Fn() -> bool>(
    grid: HeightGrid,
    settings: MeshSettings,
    skip_floor: bool,
    mask: Option<Seq<bool>>,
    paint: Option<PaintLayer>,
    cancelled: G,
    step: int,
    t: int,
    part: Vec<Brick>,
) -> bool {
    let win = tile_window(grid.dims(), step, t);
    &&& window_area(win) <= MAX_DEM_CELLS
    &&& is_window_outcome(grid, settings, skip_floor, mask, paint, cancelled, win, Ok(part))
}

/// The first tiles of a field were converted into these parts.
pub open spec fn are_tile_parts<G: Fn() -> bool>(
    grid: HeightGrid,
    settings: MeshSettings,
    skip_floor: bool,
    mask: Option<Seq<bool>>,
    paint: Option<PaintLayer>,
    cancelled: G,
    step: int,
    parts: Seq<Vec<Brick>>,
) -> bool {
    forall|t: int|
        0 <= t < parts.len() ==> is_tile_part(
            grid,
            settings,
            skip_floor,
            mask,
            paint,
            cancelled,
            step,
            t,
            #[trigger] parts[t],
        )
}

/// The callback was told that `n` of `total` pieces are done, and of every number before.
pub open spec fn is_told<R: Fn(usize, usize)>(report: R, n: int, total: int) -> bool {
    forall|k: usize| k <= n ==> #[trigger] call_ensures(report, (k, total as usize), ())
}

/// What converting a field tile by tile comes to.
pub open spec fn is_tiled_outcome<R: Fn(usize, usize), G: Fn() -> bool>(
    grid: HeightGrid,
    settings: MeshSettings,
    skip_floor: bool,
    mask: Option<Seq<bool>>,
    paint: Option<PaintLayer>,
    report: R,
    cancelled: G,
    step: int,
    outcome: Result<Vec<Brick>, BuildError>,
) -> bool {
    exists|parts: Seq<Vec<Brick>>|
        #[trigger] are_tile_parts(
            grid,
            settings,
            skip_floor,
            mask,
            paint,
            cancelled,
            step,
            parts,
        ) && tiles_end(grid.dims(), report, cancelled, step, parts, outcome)
}

/// How the conversion of tiles ends after these parts: with all their bricks when no tile is left,
/// or with the error of the next tile. The callback is told how many tiles are done: of none at the
/// start, and of one more after each tile whose bricks were taken.
pub open spec fn tiles_end<R: Fn(usize, usize), G: Fn() -> bool>(
    dims: (u32, u32),
    report: R,
    cancelled: G,
    step: int,
    parts: Seq<Vec<Brick>>,
    outcome: Result<Vec<Brick>, BuildError>,
) -> bool {
    let total = tile_count(dims, step);
    let next = tile_window(dims, step, parts.len() as int);
    match outcome {
        Ok(bricks) => {
            &&& parts.len() == total
            &&& bricks@ == joined(parts)
            &&& bricks@.len() <= MAX_GRID_BRICKS
            &&& is_told(report, total, total)
        },
        Err(BuildError::TooManyBricks { count, max }) => {
            &&& 0 < parts.len() <= total
            &&& count == joined(parts).len() || count == usize::MAX <= joined(parts).len()
            &&& count > max
            &&& max == MAX_GRID_BRICKS
            &&& is_told(report, parts.len() - 1, total)
        },
        Err(BuildError::TooManyCells { cells, budget }) => {
            &&& parts.len() < total
            &&& cells == window_area(next)
            &&& cells > budget
            &&& budget == MAX_DEM_CELLS
            &&& is_told(report, parts.len() as int, total)
        },
        Err(e) => {
            &&& parts.len() < total
            &&& e is Cancelled
            &&& call_ensures(cancelled, (), true)
            &&& is_told(report, parts.len() as int, total)
        },
    }
}

/// The ranges of an axis, as the tiling cuts them.
spec fn is_bounds(bounds: Seq<(u32, u32)>, extent: int, step: int) -> bool {
    &&& bounds.len() == super::tiling::tile_total(extent, step)
    &&& forall|i: int|
        0 <= i < bounds.len() ==> ({
            let (start, end) = #[trigger] bounds[i];
            (start as int, end as int) == super::tiling::tile_range(i, extent, step)
        })
}

proof fn lemma_tile_index(j: int, i: int, columns: int, rows: int)
    requires
        0 <= i < columns,
        0 <= j < rows,
    ensures
        0 <= j * columns + i < columns * rows,
{
    crate::map::lemma_cell_index(i, j, columns, rows);
}

/// Reject a mesh input that is over the cell budget.
pub fn enforce_cell_budget(width: u32, height: u32) -> (r: Result<(), BuildError>)
    ensures
        r is Ok <==> width * height <= MAX_DEM_CELLS,
        r matches Err(e) ==> e matches BuildError::TooManyCells { cells, budget } && cells == width
            * height && budget == MAX_DEM_CELLS,
{
    proof {
        assert(0 <= width * height <= 0xFFFF_FFFF * 0xFFFF_FFFF) by (nonlinear_arith)
            requires
                0 <= width <= 0xFFFF_FFFF,
                0 <= height <= 0xFFFF_FFFF,
        ;
    }
    let cells: u64 = width as u64 * height as u64;
    if cells > MAX_DEM_CELLS {
        Err(BuildError::TooManyCells { cells, budget: MAX_DEM_CELLS })
    } else {
        Ok(())
    }
}

proof fn lemma_tiles_are_counted(width: int, height: int, step: int)
    requires
        1 <= width,
        1 <= height,
        1 <= step,
        width * height <= usize::MAX,
    ensures
        0 <= super::tiling::tile_total(width, step) * super::tiling::tile_total(height, step)
            <= usize::MAX,
{
    let (columns, rows) = (
        super::tiling::tile_total(width, step),
        super::tiling::tile_total(height, step),
    );
    assert(0 <= columns <= width && 0 <= rows <= height) by (nonlinear_arith)
        requires
            1 <= width,
            1 <= height,
            1 <= step,
            columns == (width + step - 1) / step,
            rows == (height + step - 1) / step,
    ;
    assert(0 <= columns * rows <= width * height) by (nonlinear_arith)
        requires
            0 <= columns <= width,
            0 <= rows <= height,
    ;
}

/// Convert a field into ONE set of bricks by meshing it as a grid of tiles of at most `tile_cells`
/// cells a side.
///
/// The tiles partition the field: adjacent ones abut at their exact edge, with no shared cell. Each
/// meshes through the same pipeline as [`convert_grid`], at its own place on the lattice of the
/// whole field, so every cell lands on the same world slot whichever tile it belongs to. The
/// aggregate cap is checked before each tile's bricks are folded in. `report` is told how many tiles
/// of how many are done; the meshing of a single tile is not reported.
pub fn convert_grid_tiled<R: Fn(usize, usize), G: Fn() -> bool>(
    grid: &HeightGrid,
    out: OutputOptions,
    tile_cells: u32,
    settings: &MeshSettings,
    keep_mask: Option<&Vec<bool>>,
    paint: Option<PaintLayer>,
    report: R,
    cancelled: G,
) -> (outcome: Result<Vec<Brick>, BuildError>)
    requires
        forall|n: usize, of: usize| #[trigger] call_requires(report, (n, of)),
        call_requires(cancelled, ()),
        field_fits(*grid, *settings),
        grid.dims().0 >= 1,
        grid.dims().1 >= 1,
        paint_fits(paint, grid.dims()),
        keep_mask matches Some(m) ==> m@.len() == grid.dims().0 * grid.dims().1,
    ensures
        !has_format(out) ==> is_format_error(outcome),
        has_format(out) ==> is_tiled_outcome(
            *grid,
            *settings,
            out.skip_floor,
            vec_mask(keep_mask),
            paint,
            report,
            cancelled,
            super::tiling::positive(tile_cells),
            outcome,
        ),
{
    if !out.brdb && !out.brz {
        return Err(format_error());
    }
    let (width, height) = grid.size();
    let xs: Vec<(u32, u32)> = tile_bounds(width, tile_cells);
    let ys: Vec<(u32, u32)> = tile_bounds(height, tile_cells);
    let ghost step: int = super::tiling::positive(tile_cells);
    let ghost columns: int = xs@.len() as int;
    let ghost mask: Option<Seq<bool>> = vec_mask(keep_mask);
    let mut combined: Vec<Brick> = Vec::new();
    let ghost mut parts: Seq<Vec<Brick>> = Seq::empty();
    let _count: usize = grid.cell_count();
    proof {
        super::tiling::tile_ranges_partition(width as int, step);
        super::tiling::tile_ranges_partition(height as int, step);
        assert(0 * columns == 0) by (nonlinear_arith);
        lemma_tiles_are_counted(width as int, height as int, step);
    }
    let total: usize = xs.len() * ys.len();
    let mut done: usize = 0;
    report(done, total);
    let mut j: usize = 0;
    while j < ys.len()
        invariant
            has_format(out),
            forall|n: usize, of: usize| #[trigger] call_requires(report, (n, of)),
            call_requires(cancelled, ()),
            field_fits(*grid, *settings),
            grid.dims() == (width, height),
            width >= 1,
            height >= 1,
            paint_fits(paint, grid.dims()),
            keep_mask matches Some(m) ==> m@.len() == grid.dims().0 * grid.dims().1,
            mask == vec_mask(keep_mask),
            step == super::tiling::positive(tile_cells),
            is_bounds(xs@, width as int, step),
            is_bounds(ys@, height as int, step),
            columns == xs@.len(),
            j <= ys@.len(),
            parts.len() == j * columns,
            done == parts.len(),
            total == columns * ys@.len(),
            is_told(report, done as int, total as int),
            combined@ == joined(parts),
            combined@.len() <= MAX_GRID_BRICKS,
            are_tile_parts(
                *grid,
                *settings,
                out.skip_floor,
                mask,
                paint,
                cancelled,
                step,
                parts,
            ),
        decreases ys@.len() - j,
    {
        let (y0, y1) = ys[j];
        let mut i: usize = 0;
        while i < xs.len()
            invariant
                has_format(out),
                forall|n: usize, of: usize| #[trigger] call_requires(report, (n, of)),
                call_requires(cancelled, ()),
                field_fits(*grid, *settings),
                grid.dims() == (width, height),
                width >= 1,
                height >= 1,
                paint_fits(paint, grid.dims()),
                keep_mask matches Some(m) ==> m@.len() == grid.dims().0 * grid.dims().1,
                mask == vec_mask(keep_mask),
                step == super::tiling::positive(tile_cells),
                is_bounds(xs@, width as int, step),
                is_bounds(ys@, height as int, step),
                columns == xs@.len(),
                j < ys@.len(),
                (y0, y1) == ys@[j as int],
                i <= xs@.len(),
                parts.len() == j * columns + i,
                done == parts.len(),
                total == columns * ys@.len(),
                is_told(report, done as int, total as int),
                combined@ == joined(parts),
                combined@.len() <= MAX_GRID_BRICKS,
                are_tile_parts(
                    *grid,
                    *settings,
                    out.skip_floor,
                    mask,
                    paint,
                    cancelled,
                    step,
                    parts,
                ),
            decreases xs@.len() - i,
        {
            let ghost t: int = parts.len() as int;
            let (x0, x1) = xs[i];
            let ghost win: Window = tile_window(grid.dims(), step, t);
            proof {
                super::tiling::tile_ranges_partition(width as int, step);
                super::tiling::tile_ranges_partition(height as int, step);
                vstd::arithmetic::div_mod::lemma_fundamental_div_mod_converse(
                    t,
                    columns,
                    j as int,
                    i as int,
                );
                lemma_tile_index(j as int, i as int, columns, ys@.len() as int);
                assert((x0 as int, x1 as int) == super::tiling::tile_range(
                    i as int,
                    width as int,
                    step,
                ));
                assert((y0 as int, y1 as int) == super::tiling::tile_range(
                    j as int,
                    height as int,
                    step,
                ));
                assert(win == (Window {
                    x0: x0 as int,
                    y0: y0 as int,
                    x1: x1 as int,
                    y1: y1 as int,
                }));
            }
            if cancelled() {
                return Err(BuildError::Cancelled);
            }
            let (w, h): (u32, u32) = (x1 - x0, y1 - y0);
            assert(window_area(win) == w * h);
            match enforce_cell_budget(w, h) {
                Ok(_) => {},
                Err(e) => {
                    return Err(e);
                },
            }
            let window: (u32, u32, u32, u32) = (x0, y0, x1, y1);
            let outcome: Result<Vec<Brick>, BuildError> = convert_window(
                grid,
                settings,
                out.skip_floor,
                keep_mask,
                paint,
                &cancelled,
                window,
            );
            match outcome {
                Ok(bricks) => {
                    let ghost before: Seq<Vec<Brick>> = parts;
                    proof {
                        parts = parts.push(bricks);
                        assert(parts.drop_last() =~= before);
                        assert forall|u: int| 0 <= u < parts.len() implies is_tile_part(
                            *grid,
                            *settings,
                            out.skip_floor,
                            mask,
                            paint,
                            cancelled,
                            step,
                            u,
                            #[trigger] parts[u],
                        ) by {
                            if u < t {
                                assert(parts[u] == before[u]);
                            }
                        }
                        assert(are_tile_parts(
                            *grid,
                            *settings,
                            out.skip_floor,
                            mask,
                            paint,
                            cancelled,
                            step,
                            parts,
                        ));
                    }
                    if bricks.len() > MAX_GRID_BRICKS - combined.len() {
                        let count: usize = if bricks.len() > usize::MAX - combined.len() {
                            usize::MAX
                        } else {
                            combined.len() + bricks.len()
                        };
                        return Err(BuildError::TooManyBricks { count, max: MAX_GRID_BRICKS });
                    }
                    let mut bricks: Vec<Brick> = bricks;
                    combined.append(&mut bricks);
                    done = done + 1;
                    report(done, total);
                },
                Err(e) => {
                    return Err(e);
                },
            }
            i = i + 1;
        }
        assert((j + 1) * columns == j * columns + columns) by (nonlinear_arith);
        j = j + 1;
    }
    proof {
        vstd::arithmetic::mul::lemma_mul_is_commutative(columns, ys@.len() as int);
    }
    Ok(combined)
}

} // verus!
