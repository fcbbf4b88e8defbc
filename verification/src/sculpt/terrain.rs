//! What converted terrain looks like from outside, however it was converted: as one mesh, tile by tile
//! or part by part.
use super::convert::{BuildError, FieldColors, MeshSettings, Window};
use super::grid::{FlatColormap, HeightGrid};
use super::layers::Layer;
use super::paint::PaintLayer;
use super::parts::PartPlan;
use crate::brick::{Brick, BrickType};
use crate::map::{Colormap, Heightmap};
use crate::opt::generate::Progress;
use crate::opt::limits::MAX_LEVEL;
use crate::util::GenOptions;
use vstd::prelude::*;

verus! {

/// How far terrain of this kind of brick lies off the world's planes.
pub open spec fn terrain_shift(settings: MeshSettings) -> int {
    if settings.micro {
        -4
    } else {
        -3
    }
}

/// A cell of this height is built: nothing leaves low cells out, or it is higher than those.
pub open spec fn is_built(settings: MeshSettings, skip_floor: bool, height: u32) -> bool {
    skip_floor ==> height > settings.omit_h
}

/// Two of the bricks show a cell of terrain: both stand over it and have its color, the one ends at the
/// cell's height, and the other reaches down to the base plane, to within a unit.
pub open spec fn shows_cell(
    bricks: Seq<Brick>,
    found: (int, int),
    settings: MeshSettings,
    origin: (int, int),
    x: int,
    y: int,
    height: u32,
    color: [u8; 4],
) -> bool {
    let (k, l) = found;
    let size = settings.size as int;
    &&& 0 <= k < bricks.len()
    &&& 0 <= l < bricks.len()
    &&& crate::opt::terrain::stands_over(bricks[k], size, origin, x, y)
    &&& crate::opt::terrain::stands_over(bricks[l], size, origin, x, y)
    &&& crate::opt::terrain::is_colored(bricks[k], color)
    &&& crate::opt::terrain::is_colored(bricks[l], color)
    &&& crate::opt::column::top_of(bricks[k]) == height + terrain_shift(settings)
    &&& crate::opt::column::bottom_of(bricks[l]) <= settings.base_h + 1 + terrain_shift(settings)
}

/// The brick is solid terrain: it stops everything, does not glow, is a smooth tile or, in micro builds, a
/// micro brick, and keeps to the largest brick that is allowed, or to a single cell.
pub open spec fn is_terrain_brick(brick: Brick, settings: MeshSettings) -> bool {
    &&& brick.asset matches BrickType::Procedural { asset, size } && {
        &&& 0 < size.z <= 250
        &&& size.x <= settings.max_brick_units || size.x <= settings.size
        &&& size.y <= settings.max_brick_units || size.y <= settings.size
        &&& asset@ == if settings.micro {
            "PB_DefaultMicroBrick"@
        } else {
            "PB_DefaultSmoothTile"@
        }
    }
    &&& brick.collision.player && brick.collision.weapon && brick.collision.interact
        && brick.collision.tool && brick.collision.physics
    &&& brick.material is Plastic
}

/// The mesh of a field shows each of its cells that the mask keeps and that is built.
pub proof fn meshed_terrain_shows_every_cell<C: Colormap>(
    grid: HeightGrid,
    colors: C,
    settings: MeshSettings,
    skip_floor: bool,
    offset: (i32, i32),
    mask: Option<Seq<bool>>,
    bricks: Seq<Brick>,
    x: int,
    y: int,
) -> (found: (int, int))
    requires
        super::convert::field_fits(grid, settings),
        settings.size > 0,
        2 * (grid.dims().0 * settings.size) + offset.0 <= i32::MAX,
        2 * (grid.dims().1 * settings.size) + offset.1 <= i32::MAX,
        super::convert::are_mesh_bricks(grid, colors, settings, skip_floor, offset, mask, bricks),
        0 <= x < grid.dims().0,
        0 <= y < grid.dims().1,
        mask matches Some(m) ==> m[y * grid.dims().0 + x],
        is_built(settings, skip_floor, grid.height_at(x, y)),
    ensures
        shows_cell(
            bricks,
            found,
            settings,
            (offset.0 as int, offset.1 as int),
            x,
            y,
            grid.height_at(x, y),
            colors.color_at(x, y),
        ),
{
    let options = lemma_mesh(grid, colors, settings, skip_floor, offset, mask, bricks);
    assert forall|a: int, b: int|
        0 <= a < grid.dims().0 && 0 <= b
            < grid.dims().1 implies #[trigger] grid.height_at(a, b) <= i32::MAX && options.scale
        * grid.height_at(a, b) <= i32::MAX by {
        assert(grid.height_at(a, b) <= MAX_LEVEL);
    }
    crate::opt::terrain::greedy_mesh_shows_every_cell(
        &grid,
        &colors,
        options,
        Some(settings.base_h),
        Some(offset),
        mask,
        bricks,
        x,
        y,
    )
}

/// The mesh of a field shows nothing else: a brick over a cell has the cell's color, and the mask keeps
/// the cell and it is built. All its bricks are solid terrain.
pub proof fn meshed_terrain_shows_nothing_else<C: Colormap>(
    grid: HeightGrid,
    colors: C,
    settings: MeshSettings,
    skip_floor: bool,
    offset: (i32, i32),
    mask: Option<Seq<bool>>,
    bricks: Seq<Brick>,
    k: int,
    x: int,
    y: int,
)
    requires
        super::convert::field_fits(grid, settings),
        settings.size > 0,
        2 * (grid.dims().0 * settings.size) + offset.0 <= i32::MAX,
        2 * (grid.dims().1 * settings.size) + offset.1 <= i32::MAX,
        super::convert::are_mesh_bricks(grid, colors, settings, skip_floor, offset, mask, bricks),
        0 <= k < bricks.len(),
    ensures
        is_terrain_brick(bricks[k], settings),
        crate::opt::terrain::stands_over(
            bricks[k],
            settings.size as int,
            (offset.0 as int, offset.1 as int),
            x,
            y,
        ) ==> {
            &&& 0 <= x < grid.dims().0
            &&& 0 <= y < grid.dims().1
            &&& mask matches Some(m) ==> m[y * grid.dims().0 + x]
            &&& is_built(settings, skip_floor, grid.height_at(x, y))
            &&& crate::opt::terrain::is_colored(bricks[k], colors.color_at(x, y))
        },
{
    let options = lemma_mesh(grid, colors, settings, skip_floor, offset, mask, bricks);
    let (base, place) = (Some(settings.base_h), Some(offset));
    crate::opt::laws::greedy_bricks_keep_to_the_cap(
        &grid,
        &colors,
        options,
        base,
        place,
        mask,
        bricks,
    );
    assert(crate::opt::laws::within_footprint(
        bricks[k],
        crate::opt::laws::footprint_cap(options),
    ));
    crate::opt::terrain::meshed_bricks_look_as_asked(
        &grid,
        &colors,
        options,
        base,
        place,
        mask,
        bricks,
        k,
    );
    if crate::opt::terrain::stands_over(
        bricks[k],
        settings.size as int,
        (offset.0 as int, offset.1 as int),
        x,
        y,
    ) {
        crate::opt::terrain::greedy_mesh_shows_nothing_else(
            &grid,
            &colors,
            options,
            base,
            place,
            mask,
            bricks,
            k,
            x,
            y,
        );
    }
}

/// The options of a field's mesh.
proof fn lemma_mesh<C: Colormap>(
    grid: HeightGrid,
    colors: C,
    settings: MeshSettings,
    skip_floor: bool,
    offset: (i32, i32),
    mask: Option<Seq<bool>>,
    bricks: Seq<Brick>,
) -> (options: GenOptions)
    requires
        super::convert::field_fits(grid, settings),
        2 * (grid.dims().0 * settings.size) + offset.0 <= i32::MAX,
        2 * (grid.dims().1 * settings.size) + offset.1 <= i32::MAX,
        super::convert::are_mesh_bricks(grid, colors, settings, skip_floor, offset, mask, bricks),
    ensures
        super::convert::is_mesh_options(options, settings, skip_floor),
        crate::opt::generate::greedy_fits(
            &grid,
            &colors,
            options,
            Some(settings.base_h),
            Some(offset),
            mask,
        ),
        crate::opt::generate::is_greedy_output(
            &grid,
            &colors,
            options,
            Some(settings.base_h),
            Some(offset),
            mask,
            bricks,
        ),
{
    let options = choose|options: GenOptions|
        super::convert::is_mesh_options(options, settings, skip_floor)
            && #[trigger] crate::opt::generate::is_greedy_output(
            &grid,
            &colors,
            options,
            Some(settings.base_h),
            Some(offset),
            mask,
            bricks,
        );
    crate::opt::limits::moderate_maps_mesh_greedily(
        &grid,
        &colors,
        options,
        Some(settings.base_h),
        Some(offset),
        mask,
        MAX_LEVEL,
    );
    options
}

/// The color that a cell of a field is built in: that of its swatch, where anything is painted, and gray
/// otherwise. An index that the palette does not have counts as the first.
pub proof fn fields_are_built_in_their_paint(paint: Option<PaintLayer>, x: int, y: int)
    ensures
        paint is None ==> super::convert::field_color(paint, x, y) == [0x80u8, 0x80u8, 0x80u8, 0xFFu8],
        paint matches Some(p) ==> {
            let idx = p.grid.cells@[y * p.grid.width + x];
            let color = super::convert::field_color(paint, x, y);
            &&& 0 <= y * p.grid.width + x < p.grid.cells@.len() && 0 < idx < p.palette@.len() ==> color
                == p.palette@[idx as int]
            &&& 0 <= y * p.grid.width + x < p.grid.cells@.len() && idx >= p.palette@.len() && idx > 0
                ==> color == p.palette@[0]
            &&& (exists|i: int| 0 <= i < p.grid.cells@.len() && #[trigger] p.grid.cells@[i] != 0) && idx
                == 0 && p.palette@.len() > 0 ==> color == p.palette@[0]
            &&& (forall|i: int| 0 <= i < p.grid.cells@.len() ==> #[trigger] p.grid.cells@[i] == 0)
                ==> color == [0x80u8, 0x80u8, 0x80u8, 0xFFu8]
        },
{
    assert(super::paint::DEFAULT_BRICK_COLOR == [0x80u8, 0x80u8, 0x80u8, 0xFFu8]);
}

/// The middle of a field lies on the origin.
pub open spec fn field_origin(dims: (u32, u32), size: u16) -> (int, int) {
    (-(dims.0 * size), -(dims.1 * size))
}

/// A field that was converted as one mesh shows every cell that its mask keeps and that is built, where
/// the field centered on the origin has it.
pub proof fn single_meshes_show_every_cell<F: Fn(Progress) -> bool>(
    grid: HeightGrid,
    settings: MeshSettings,
    skip_floor: bool,
    mask: Option<Seq<bool>>,
    paint: Option<PaintLayer>,
    progress: F,
    bricks: Vec<Brick>,
    x: int,
    y: int,
) -> (found: (int, int))
    requires
        super::convert::field_fits(grid, settings),
        settings.size > 0,
        super::convert::is_single_outcome(
            grid,
            settings,
            skip_floor,
            mask,
            paint,
            progress,
            Ok(bricks),
        ),
        0 <= x < grid.dims().0,
        0 <= y < grid.dims().1,
        mask matches Some(m) ==> m[y * grid.dims().0 + x],
        is_built(settings, skip_floor, grid.height_at(x, y)),
    ensures
        shows_cell(
            bricks@,
            found,
            settings,
            field_origin(grid.dims(), settings.size),
            x,
            y,
            grid.height_at(x, y),
            super::convert::field_color(paint, x, y),
        ),
{
    let colors = lemma_single(grid, settings, skip_floor, mask, paint, progress, bricks);
    let offset = super::convert::center_offset(grid.dims(), settings.size);
    assert(colors.color_at(x, y) == super::convert::field_color(paint, 0 + x, 0 + y));
    meshed_terrain_shows_every_cell(
        grid,
        colors,
        settings,
        skip_floor,
        offset,
        mask,
        bricks@,
        x,
        y,
    )
}

/// A field that was converted as one mesh shows nothing else, in solid terrain.
pub proof fn single_meshes_show_nothing_else<F: Fn(Progress) -> bool>(
    grid: HeightGrid,
    settings: MeshSettings,
    skip_floor: bool,
    mask: Option<Seq<bool>>,
    paint: Option<PaintLayer>,
    progress: F,
    bricks: Vec<Brick>,
    k: int,
    x: int,
    y: int,
)
    requires
        super::convert::field_fits(grid, settings),
        settings.size > 0,
        super::convert::is_single_outcome(
            grid,
            settings,
            skip_floor,
            mask,
            paint,
            progress,
            Ok(bricks),
        ),
        0 <= k < bricks@.len(),
    ensures
        is_terrain_brick(bricks@[k], settings),
        crate::opt::terrain::stands_over(
            bricks@[k],
            settings.size as int,
            field_origin(grid.dims(), settings.size),
            x,
            y,
        ) ==> {
            &&& 0 <= x < grid.dims().0
            &&& 0 <= y < grid.dims().1
            &&& mask matches Some(m) ==> m[y * grid.dims().0 + x]
            &&& is_built(settings, skip_floor, grid.height_at(x, y))
            &&& crate::opt::terrain::is_colored(
                bricks@[k],
                super::convert::field_color(paint, x, y),
            )
        },
{
    let colors = lemma_single(grid, settings, skip_floor, mask, paint, progress, bricks);
    let offset = super::convert::center_offset(grid.dims(), settings.size);
    meshed_terrain_shows_nothing_else(
        grid,
        colors,
        settings,
        skip_floor,
        offset,
        mask,
        bricks@,
        k,
        x,
        y,
    );
    if 0 <= x < grid.dims().0 && 0 <= y < grid.dims().1 {
        assert(colors.color_at(x, y) == super::convert::field_color(paint, 0 + x, 0 + y));
    }
}

proof fn lemma_single<'a, F: Fn(Progress) -> bool>(
    grid: HeightGrid,
    settings: MeshSettings,
    skip_floor: bool,
    mask: Option<Seq<bool>>,
    paint: Option<PaintLayer>,
    progress: F,
    bricks: Vec<Brick>,
) -> (colors: FieldColors<'a>)
    requires
        super::convert::field_fits(grid, settings),
        super::convert::is_single_outcome(
            grid,
            settings,
            skip_floor,
            mask,
            paint,
            progress,
            Ok(bricks),
        ),
    ensures
        super::convert::shows_paint(colors, paint, grid.dims(), 0, 0),
        super::convert::are_mesh_bricks(
            grid,
            colors,
            settings,
            skip_floor,
            super::convert::center_offset(grid.dims(), settings.size),
            mask,
            bricks@,
        ),
        0 <= grid.dims().0 * settings.size,
        0 <= grid.dims().1 * settings.size,
{
    let outcome: Result<Vec<Brick>, BuildError> = Ok(bricks);
    let offset = super::convert::center_offset(grid.dims(), settings.size);
    let colors = choose|colors: FieldColors|
        #[trigger] super::convert::shows_paint(colors, paint, grid.dims(), 0, 0)
            && super::convert::is_meshed(
            grid,
            colors,
            settings,
            skip_floor,
            offset,
            mask,
            progress,
            outcome,
        );
    super::laws::lemma_meshed_bricks(
        grid,
        colors,
        settings,
        skip_floor,
        offset,
        mask,
        progress,
        bricks,
    );
    let (w, h, size) = (grid.dims().0 as int, grid.dims().1 as int, settings.size as int);
    assert(0 <= w * size && 0 <= h * size) by (nonlinear_arith)
        requires
            0 <= w,
            0 <= h,
            0 <= size,
    ;
    colors
}

/// A window's cell has the same place in the world as that cell of the whole field.
proof fn lemma_same_place(dims: (u32, u32), win: Window, size: u16, brick: Brick, x: int, y: int)
    requires
        2 * (dims.0 * size) <= i32::MAX,
        2 * (dims.1 * size) <= i32::MAX,
        0 <= win.x0 <= win.x1 <= dims.0,
        0 <= win.y0 <= win.y1 <= dims.1,
    ensures
        ({
            let offset = super::convert::window_offset(dims, win, size);
            crate::opt::terrain::stands_over(
                brick,
                size as int,
                (offset.0 as int, offset.1 as int),
                x - win.x0,
                y - win.y0,
            ) == crate::opt::terrain::stands_over(
                brick,
                size as int,
                field_origin(dims, size),
                x,
                y,
            )
        }),
{
    super::convert::lemma_window_offset(dims, win, size);
    lemma_slot(win.x0, x, dims.0 as int, size as int);
    lemma_slot(win.y0, y, dims.1 as int, size as int);
}

proof fn lemma_slot(start: int, at: int, cells: int, size: int)
    ensures
        2 * (at - start) * size + super::tiling::axis_offset(start, cells, size) == 2 * at * size - (
        cells * size),
        2 * (at - start + 1) * size + super::tiling::axis_offset(start, cells, size) == 2 * (at + 1)
            * size - (cells * size),
{
    assert(2 * (at - start) * size + 2 * (start * size) == 2 * at * size) by (nonlinear_arith);
    assert(2 * (at - start + 1) * size + 2 * (start * size) == 2 * (at + 1) * size)
        by (nonlinear_arith);
}

/// A field that was converted tile by tile shows every cell that its mask keeps and that is built, at
/// the very place where the whole field has it: seams leave no cell out.
pub proof fn tiled_exports_show_every_cell<R: Fn(usize, usize), G: Fn() -> bool>(
    grid: HeightGrid,
    settings: MeshSettings,
    skip_floor: bool,
    mask: Option<Seq<bool>>,
    paint: Option<PaintLayer>,
    report: R,
    cancelled: G,
    step: int,
    bricks: Vec<Brick>,
    x: int,
    y: int,
) -> (found: (int, int))
    requires
        super::convert::field_fits(grid, settings),
        settings.size > 0,
        0 < step,
        super::convert::is_tiled_outcome(
            grid,
            settings,
            skip_floor,
            mask,
            paint,
            report,
            cancelled,
            step,
            Ok(bricks),
        ),
        0 <= x < grid.dims().0,
        0 <= y < grid.dims().1,
        mask matches Some(m) ==> m[y * grid.dims().0 + x],
        is_built(settings, skip_floor, grid.height_at(x, y)),
    ensures
        shows_cell(
            bricks@,
            found,
            settings,
            field_origin(grid.dims(), settings.size),
            x,
            y,
            grid.height_at(x, y),
            super::convert::field_color(paint, x, y),
        ),
{
    let parts = lemma_tiles(
        grid,
        settings,
        skip_floor,
        mask,
        paint,
        report,
        cancelled,
        step,
        bricks,
    );
    super::laws::tiles_partition_the_field(grid.dims(), step, x, y);
    let t = choose|t: int| #[trigger] super::laws::is_tile_of(grid.dims(), step, t, x, y);
    let win = super::convert::tile_window(grid.dims(), step, t);
    let part = parts[t];
    let (sub, colors) = lemma_tile(
        grid,
        settings,
        skip_floor,
        mask,
        paint,
        cancelled,
        step,
        t,
        part,
    );
    let (a, b) = (x - win.x0, y - win.y0);
    let offset = super::convert::window_offset(grid.dims(), win, settings.size);
    let local = super::convert::window_mask(mask, grid.dims(), win);
    lemma_window_mask(mask, grid.dims(), win, x, y);
    assert(sub.height_at(a, b) == grid.height_at(win.x0 + a, win.y0 + b));
    assert(colors.color_at(a, b) == super::convert::field_color(paint, win.x0 + a, win.y0 + b));
    let (k, l) = meshed_terrain_shows_every_cell(
        sub,
        colors,
        settings,
        skip_floor,
        offset,
        local,
        part@,
        a,
        b,
    );
    lemma_same_place(grid.dims(), win, settings.size, part@[k], x, y);
    lemma_same_place(grid.dims(), win, settings.size, part@[l], x, y);
    (lemma_joined_at(parts, t, k), lemma_joined_at(parts, t, l))
}

/// A field that was converted tile by tile shows nothing else, in solid terrain.
pub proof fn tiled_exports_show_nothing_else<R: Fn(usize, usize), G: Fn() -> bool>(
    grid: HeightGrid,
    settings: MeshSettings,
    skip_floor: bool,
    mask: Option<Seq<bool>>,
    paint: Option<PaintLayer>,
    report: R,
    cancelled: G,
    step: int,
    bricks: Vec<Brick>,
    k: int,
    x: int,
    y: int,
)
    requires
        super::convert::field_fits(grid, settings),
        settings.size > 0,
        0 < step,
        0 < grid.dims().0,
        0 < grid.dims().1,
        super::convert::is_tiled_outcome(
            grid,
            settings,
            skip_floor,
            mask,
            paint,
            report,
            cancelled,
            step,
            Ok(bricks),
        ),
        0 <= k < bricks@.len(),
    ensures
        is_terrain_brick(bricks@[k], settings),
        crate::opt::terrain::stands_over(
            bricks@[k],
            settings.size as int,
            field_origin(grid.dims(), settings.size),
            x,
            y,
        ) ==> {
            &&& 0 <= x < grid.dims().0
            &&& 0 <= y < grid.dims().1
            &&& mask matches Some(m) ==> m[y * grid.dims().0 + x]
            &&& is_built(settings, skip_floor, grid.height_at(x, y))
            &&& crate::opt::terrain::is_colored(
                bricks@[k],
                super::convert::field_color(paint, x, y),
            )
        },
{
    let parts = lemma_tiles(
        grid,
        settings,
        skip_floor,
        mask,
        paint,
        report,
        cancelled,
        step,
        bricks,
    );
    let (t, n) = lemma_joined_from(parts, k);
    let win = super::convert::tile_window(grid.dims(), step, t);
    let part = parts[t];
    let (sub, colors) = lemma_tile(
        grid,
        settings,
        skip_floor,
        mask,
        paint,
        cancelled,
        step,
        t,
        part,
    );
    let (a, b) = (x - win.x0, y - win.y0);
    let offset = super::convert::window_offset(grid.dims(), win, settings.size);
    let local = super::convert::window_mask(mask, grid.dims(), win);
    meshed_terrain_shows_nothing_else(
        sub,
        colors,
        settings,
        skip_floor,
        offset,
        local,
        part@,
        n,
        a,
        b,
    );
    lemma_same_place(grid.dims(), win, settings.size, part@[n], x, y);
    if 0 <= a < sub.dims().0 && 0 <= b < sub.dims().1 {
        lemma_window_mask(mask, grid.dims(), win, x, y);
        assert(sub.height_at(a, b) == grid.height_at(win.x0 + a, win.y0 + b));
        assert(colors.color_at(a, b) == super::convert::field_color(
            paint,
            win.x0 + a,
            win.y0 + b,
        ));
    }
}

/// The parts behind a tiled export.
proof fn lemma_tiles<R: Fn(usize, usize), G: Fn() -> bool>(
    grid: HeightGrid,
    settings: MeshSettings,
    skip_floor: bool,
    mask: Option<Seq<bool>>,
    paint: Option<PaintLayer>,
    report: R,
    cancelled: G,
    step: int,
    bricks: Vec<Brick>,
) -> (parts: Seq<Vec<Brick>>)
    requires
        super::convert::is_tiled_outcome(
            grid,
            settings,
            skip_floor,
            mask,
            paint,
            report,
            cancelled,
            step,
            Ok(bricks),
        ),
    ensures
        super::convert::are_tile_parts(
            grid,
            settings,
            skip_floor,
            mask,
            paint,
            cancelled,
            step,
            parts,
        ),
        parts.len() == super::convert::tile_count(grid.dims(), step),
        bricks@ == super::convert::joined(parts),
{
    let outcome: Result<Vec<Brick>, BuildError> = Ok(bricks);
    choose|parts: Seq<Vec<Brick>>|
        #[trigger] super::convert::are_tile_parts(
            grid,
            settings,
            skip_floor,
            mask,
            paint,
            cancelled,
            step,
            parts,
        ) && super::convert::tiles_end(grid.dims(), report, cancelled, step, parts, outcome)
}

/// The window and the colors behind the bricks of a tile.
proof fn lemma_tile<'a, G: Fn() -> bool>(
    grid: HeightGrid,
    settings: MeshSettings,
    skip_floor: bool,
    mask: Option<Seq<bool>>,
    paint: Option<PaintLayer>,
    cancelled: G,
    step: int,
    t: int,
    part: Vec<Brick>,
) -> (found: (HeightGrid, FieldColors<'a>))
    requires
        super::convert::field_fits(grid, settings),
        0 < step,
        0 < grid.dims().0,
        0 < grid.dims().1,
        0 <= t < super::convert::tile_count(grid.dims(), step),
        super::convert::is_tile_part(
            grid,
            settings,
            skip_floor,
            mask,
            paint,
            cancelled,
            step,
            t,
            part,
        ),
    ensures
        ({
            let win = super::convert::tile_window(grid.dims(), step, t);
            let offset = super::convert::window_offset(grid.dims(), win, settings.size);
            let (sub, colors) = found;
            &&& 0 <= win.x0 <= win.x1 <= grid.dims().0
            &&& 0 <= win.y0 <= win.y1 <= grid.dims().1
            &&& super::convert::is_window_of(sub, grid, win)
            &&& super::convert::shows_paint(colors, paint, sub.dims(), win.x0, win.y0)
            &&& super::convert::field_fits(sub, settings)
            &&& 2 * (sub.dims().0 * settings.size) + offset.0 <= i32::MAX
            &&& 2 * (sub.dims().1 * settings.size) + offset.1 <= i32::MAX
            &&& super::convert::are_mesh_bricks(
                sub,
                colors,
                settings,
                skip_floor,
                offset,
                super::convert::window_mask(mask, grid.dims(), win),
                part@,
            )
        }),
{
    let win = super::convert::tile_window(grid.dims(), step, t);
    let (w, h) = (grid.dims().0 as int, grid.dims().1 as int);
    let columns = super::tiling::tile_total(w, step);
    let rows = super::tiling::tile_total(h, step);
    super::tiling::tile_ranges_partition(w, step);
    super::tiling::tile_ranges_partition(h, step);
    crate::map::lemma_cell_of_index(t, columns, rows);
    let outcome: Result<Vec<Brick>, BuildError> = Ok(part);
    let (sub, colors) = choose|sub: HeightGrid, colors: FieldColors|
        #[trigger] super::convert::is_window_of(sub, grid, win)
            && #[trigger] super::convert::shows_paint(colors, paint, sub.dims(), win.x0, win.y0)
            && super::convert::is_quietly_meshed(
            sub,
            colors,
            settings,
            skip_floor,
            super::convert::window_offset(grid.dims(), win, settings.size),
            super::convert::window_mask(mask, grid.dims(), win),
            cancelled,
            outcome,
        );
    lemma_sub_fits(grid, sub, settings, win);
    (sub, colors)
}

proof fn lemma_sub_fits(grid: HeightGrid, sub: HeightGrid, settings: MeshSettings, win: Window)
    requires
        super::convert::field_fits(grid, settings),
        super::convert::is_window_of(sub, grid, win),
        0 <= win.x0 <= win.x1 <= grid.dims().0,
        0 <= win.y0 <= win.y1 <= grid.dims().1,
    ensures
        super::convert::field_fits(sub, settings),
        ({
            let offset = super::convert::window_offset(grid.dims(), win, settings.size);
            &&& 2 * (sub.dims().0 * settings.size) + offset.0 <= i32::MAX
            &&& 2 * (sub.dims().1 * settings.size) + offset.1 <= i32::MAX
        }),
{
    super::convert::lemma_window_offset(grid.dims(), win, settings.size);
    assert forall|x: int, y: int|
        0 <= x < sub.dims().0 && 0 <= y < sub.dims().1 implies #[trigger] sub.height_at(x, y)
        <= MAX_LEVEL by {
        assert(grid.height_at(win.x0 + x, win.y0 + y) <= MAX_LEVEL);
    }
}

/// The mask of a window says of a cell what the whole mask says.
proof fn lemma_window_mask(
    mask: Option<Seq<bool>>,
    dims: (u32, u32),
    win: Window,
    x: int,
    y: int,
)
    requires
        win.x0 <= x < win.x1,
        win.y0 <= y < win.y1,
    ensures
        mask matches Some(m) ==> super::convert::window_mask(mask, dims, win) is Some
            && super::convert::window_mask(mask, dims, win)->0[(y - win.y0) * (win.x1 - win.x0) + (x
            - win.x0)] == m[y * dims.0 + x],
        mask is None ==> super::convert::window_mask(mask, dims, win) is None,
{
    let span = win.x1 - win.x0;
    crate::map::lemma_cell_index(x - win.x0, y - win.y0, span, win.y1 - win.y0);
    vstd::arithmetic::div_mod::lemma_fundamental_div_mod_converse(
        (y - win.y0) * span + (x - win.x0),
        span,
        y - win.y0,
        x - win.x0,
    );
}

/// The place of a part's brick among all bricks.
proof fn lemma_joined_at(parts: Seq<Vec<Brick>>, t: int, n: int) -> (k: int)
    requires
        0 <= t < parts.len(),
        0 <= n < parts[t]@.len(),
    ensures
        0 <= k < super::convert::joined(parts).len(),
        super::convert::joined(parts)[k] == parts[t]@[n],
    decreases parts.len(),
{
    let head = super::convert::joined(parts.drop_last());
    if t == parts.len() - 1 {
        head.len() + n
    } else {
        lemma_joined_at(parts.drop_last(), t, n)
    }
}

/// The part that a brick is of.
proof fn lemma_joined_from(parts: Seq<Vec<Brick>>, k: int) -> (at: (int, int))
    requires
        0 <= k < super::convert::joined(parts).len(),
    ensures
        0 <= at.0 < parts.len(),
        0 <= at.1 < parts[at.0]@.len(),
        super::convert::joined(parts)[k] == parts[at.0]@[at.1],
    decreases parts.len(),
{
    let head = super::convert::joined(parts.drop_last());
    if k < head.len() {
        lemma_joined_from(parts.drop_last(), k)
    } else {
        (parts.len() - 1, k - head.len())
    }
}

/// The window behind the bricks of a part.
proof fn lemma_part<G: Fn() -> bool>(
    layers: Seq<Layer>,
    layer: Layer,
    plan: PartPlan,
    grid: HeightGrid,
    settings: MeshSettings,
    skip_floor: bool,
    cancelled: G,
    part: Vec<Brick>,
) -> (found: (HeightGrid, FlatColormap))
    requires
        super::convert::field_fits(grid, settings),
        super::parts::is_part(
            layers,
            layer,
            grid.dims().0,
            grid.dims().1,
            settings.size,
            plan,
        ),
        super::export::is_part_meshed(plan, grid, settings, skip_floor, cancelled, Ok(part)),
    ensures
        ({
            let win = super::export::part_window(plan);
            let (sub, colors) = found;
            &&& 0 <= win.x0 <= win.x1 <= grid.dims().0
            &&& 0 <= win.y0 <= win.y1 <= grid.dims().1
            &&& plan.offset == super::convert::window_offset(grid.dims(), win, settings.size)
            &&& super::convert::is_window_of(sub, grid, win)
            &&& super::export::is_default_color(colors, sub.dims())
            &&& super::convert::field_fits(sub, settings)
            &&& 2 * (sub.dims().0 * settings.size) + plan.offset.0 <= i32::MAX
            &&& 2 * (sub.dims().1 * settings.size) + plan.offset.1 <= i32::MAX
            &&& super::convert::are_mesh_bricks(
                sub,
                colors,
                settings,
                skip_floor,
                plan.offset,
                Some(plan.keep_local@),
                part@,
            )
        }),
{
    let win = super::export::part_window(plan);
    let outcome: Result<Vec<Brick>, BuildError> = Ok(part);
    let (sub, colors) = choose|sub: HeightGrid, colors: FlatColormap|
        #[trigger] super::convert::is_window_of(sub, grid, win)
            && #[trigger] super::export::is_default_color(colors, sub.dims())
            && super::convert::is_quietly_meshed(
            sub,
            colors,
            settings,
            skip_floor,
            plan.offset,
            Some(plan.keep_local@),
            cancelled,
            outcome,
        );
    super::convert::lemma_window_offset(grid.dims(), win, settings.size);
    lemma_sub_fits(grid, sub, settings, win);
    (sub, colors)
}

/// The part of a layer shows every cell that the layer claims and that is built, in gray, at the very
/// place where the whole field has it, so that parts that are loaded together make up one world.
pub proof fn parts_show_what_their_layers_claim<G: Fn() -> bool>(
    layers: Seq<Layer>,
    layer: Layer,
    plan: PartPlan,
    grid: HeightGrid,
    settings: MeshSettings,
    skip_floor: bool,
    cancelled: G,
    part: Vec<Brick>,
    x: int,
    y: int,
) -> (found: (int, int))
    requires
        super::convert::field_fits(grid, settings),
        settings.size > 0,
        super::parts::is_part(
            layers,
            layer,
            grid.dims().0,
            grid.dims().1,
            settings.size,
            plan,
        ),
        super::export::is_part_meshed(plan, grid, settings, skip_floor, cancelled, Ok(part)),
        0 <= x < grid.dims().0,
        0 <= y < grid.dims().1,
        super::layers::claim_at(layers, y * grid.dims().0 + x) == Some(layer.id),
        is_built(settings, skip_floor, grid.height_at(x, y)),
    ensures
        shows_cell(
            part@,
            found,
            settings,
            field_origin(grid.dims(), settings.size),
            x,
            y,
            grid.height_at(x, y),
            [0x80u8, 0x80u8, 0x80u8, 0xFFu8],
        ),
{
    let win = super::export::part_window(plan);
    let (sub, colors) = lemma_part(
        layers,
        layer,
        plan,
        grid,
        settings,
        skip_floor,
        cancelled,
        part,
    );
    super::parts::part_keeps_what_its_layer_owns(
        layers,
        layer,
        grid.dims().0,
        grid.dims().1,
        settings.size,
        plan,
        x,
        y,
    );
    let (a, b) = (x - win.x0, y - win.y0);
    assert(sub.height_at(a, b) == grid.height_at(win.x0 + a, win.y0 + b));
    assert(colors.color_at(a, b) == [0x80u8, 0x80u8, 0x80u8, 0xFFu8]);
    let (k, l) = meshed_terrain_shows_every_cell(
        sub,
        colors,
        settings,
        skip_floor,
        plan.offset,
        Some(plan.keep_local@),
        part@,
        a,
        b,
    );
    lemma_same_place(grid.dims(), win, settings.size, part@[k], x, y);
    lemma_same_place(grid.dims(), win, settings.size, part@[l], x, y);
    (k, l)
}

/// The part of a layer shows nothing but what the layer claims, in solid terrain.
pub proof fn parts_show_nothing_else<G: Fn() -> bool>(
    layers: Seq<Layer>,
    layer: Layer,
    plan: PartPlan,
    grid: HeightGrid,
    settings: MeshSettings,
    skip_floor: bool,
    cancelled: G,
    part: Vec<Brick>,
    k: int,
    x: int,
    y: int,
)
    requires
        super::convert::field_fits(grid, settings),
        settings.size > 0,
        super::parts::is_part(
            layers,
            layer,
            grid.dims().0,
            grid.dims().1,
            settings.size,
            plan,
        ),
        super::export::is_part_meshed(plan, grid, settings, skip_floor, cancelled, Ok(part)),
        0 <= k < part@.len(),
    ensures
        is_terrain_brick(part@[k], settings),
        crate::opt::terrain::stands_over(
            part@[k],
            settings.size as int,
            field_origin(grid.dims(), settings.size),
            x,
            y,
        ) ==> {
            &&& 0 <= x < grid.dims().0
            &&& 0 <= y < grid.dims().1
            &&& super::layers::claim_at(layers, y * grid.dims().0 + x) == Some(layer.id)
            &&& is_built(settings, skip_floor, grid.height_at(x, y))
        },
{
    let win = super::export::part_window(plan);
    let (sub, colors) = lemma_part(
        layers,
        layer,
        plan,
        grid,
        settings,
        skip_floor,
        cancelled,
        part,
    );
    let (a, b) = (x - win.x0, y - win.y0);
    meshed_terrain_shows_nothing_else(
        sub,
        colors,
        settings,
        skip_floor,
        plan.offset,
        Some(plan.keep_local@),
        part@,
        k,
        a,
        b,
    );
    lemma_same_place(grid.dims(), win, settings.size, part@[k], x, y);
    if 0 <= a < sub.dims().0 && 0 <= b < sub.dims().1 {
        assert(sub.height_at(a, b) == grid.height_at(win.x0 + a, win.y0 + b));
        super::parts::part_keeps_what_its_layer_owns(
            layers,
            layer,
            grid.dims().0,
            grid.dims().1,
            settings.size,
            plan,
            x,
            y,
        );
    }
}

} // verus!
