//! Ways to export that come to the same bricks.
use super::convert::{BuildError, FieldColors, MeshSettings, Window};
use super::grid::{FlatColormap, HeightGrid};
use super::layers::Layer;
use super::paint::PaintLayer;
use super::parts::PartPlan;
use crate::brick::Brick;
use crate::map::{Colormap, Heightmap};
use crate::opt::generate::Progress;
use crate::util::GenOptions;
use vstd::prelude::*;

verus! {

/// Meshes of the same cells at the same offset, under the same settings, have the same bricks.
proof fn lemma_same_meshes<C: Colormap, D: Colormap>(
    grid: HeightGrid,
    colors: C,
    mask: Option<Seq<bool>>,
    bricks: Seq<Brick>,
    other_grid: HeightGrid,
    other_colors: D,
    other_mask: Option<Seq<bool>>,
    other_bricks: Seq<Brick>,
    settings: MeshSettings,
    skip_floor: bool,
    offset: (i32, i32),
)
    requires
        crate::opt::alike::same_cells(
            &grid,
            &colors,
            mask,
            &other_grid,
            &other_colors,
            other_mask,
        ),
        super::convert::are_mesh_bricks(
            grid,
            colors,
            settings,
            skip_floor,
            offset,
            mask,
            bricks,
        ),
        super::convert::are_mesh_bricks(
            other_grid,
            other_colors,
            settings,
            skip_floor,
            offset,
            other_mask,
            other_bricks,
        ),
    ensures
        crate::opt::alike::same_bricks(bricks, other_bricks),
{
    let o = choose|o: GenOptions|
        super::convert::is_mesh_options(o, settings, skip_floor)
            && #[trigger] crate::opt::generate::is_greedy_output(
            &grid,
            &colors,
            o,
            Some(settings.base_h),
            Some(offset),
            mask,
            bricks,
        );
    let p = choose|p: GenOptions|
        super::convert::is_mesh_options(p, settings, skip_floor)
            && #[trigger] crate::opt::generate::is_greedy_output(
            &other_grid,
            &other_colors,
            p,
            Some(settings.base_h),
            Some(offset),
            other_mask,
            other_bricks,
        );
    crate::opt::alike::same_inputs_mesh_alike(
        &grid,
        &colors,
        mask,
        o,
        bricks,
        &other_grid,
        &other_colors,
        other_mask,
        p,
        other_bricks,
        Some(settings.base_h),
        Some(offset),
    );
}

/// A mesh that came out with bricks has the bricks of the mesh.
pub(crate) proof fn lemma_meshed_bricks<C: Colormap, F: Fn(Progress) -> bool>(
    grid: HeightGrid,
    colors: C,
    settings: MeshSettings,
    skip_floor: bool,
    offset: (i32, i32),
    mask: Option<Seq<bool>>,
    progress: F,
    bricks: Vec<Brick>,
)
    requires
        super::convert::is_meshed(
            grid,
            colors,
            settings,
            skip_floor,
            offset,
            mask,
            progress,
            Ok(bricks),
        ),
    ensures
        super::convert::are_mesh_bricks(
            grid,
            colors,
            settings,
            skip_floor,
            offset,
            mask,
            bricks@,
        ),
{
    let outcome: Result<Vec<Brick>, BuildError> = Ok(bricks);
    let (o, raw) = choose|o: GenOptions, raw: Result<Vec<Brick>, String>|
        {
            &&& super::convert::is_mesh_options(o, settings, skip_floor)
            &&& #[trigger] crate::opt::generate::greedy_result(
                &grid,
                &colors,
                o,
                Some(settings.base_h),
                Some(offset),
                progress,
                mask,
                raw,
            )
            &&& super::convert::is_build_outcome(raw, outcome)
        };
    assert(crate::opt::generate::is_greedy_output(
        &grid,
        &colors,
        o,
        Some(settings.base_h),
        Some(offset),
        mask,
        bricks@,
    ));
}

/// The bricks are those of a planned part: of the part's window under its keep-mask, in the default
/// color, at its offset.
spec fn are_part_bricks(
    sub: HeightGrid,
    flat: FlatColormap,
    plan: PartPlan,
    grid: HeightGrid,
    settings: MeshSettings,
    skip_floor: bool,
    bricks: Seq<Brick>,
) -> bool {
    &&& super::convert::is_window_of(sub, grid, super::export::part_window(plan))
    &&& super::export::is_default_color(flat, sub.dims())
    &&& super::convert::are_mesh_bricks(
        sub,
        flat,
        settings,
        skip_floor,
        plan.offset,
        Some(plan.keep_local@),
        bricks,
    )
}

/// The part that owns the whole field has the bricks of the single mesh.
proof fn lemma_full_part<F: Fn(Progress) -> bool>(
    sub: HeightGrid,
    flat: FlatColormap,
    layers: Seq<Layer>,
    layer: Layer,
    plan: PartPlan,
    grid: HeightGrid,
    settings: MeshSettings,
    skip_floor: bool,
    progress: F,
    part: Vec<Brick>,
    single: Vec<Brick>,
)
    requires
        super::convert::field_fits(grid, settings),
        super::parts::is_part(
            layers,
            layer,
            grid.dims().0,
            grid.dims().1,
            settings.size,
            plan,
        ),
        forall|i: int|
            0 <= i < grid.dims().0 * grid.dims().1 ==> #[trigger] super::layers::claim_at(
                layers,
                i,
            ) == Some(layer.id),
        are_part_bricks(sub, flat, plan, grid, settings, skip_floor, part@),
        super::convert::is_single_outcome(
            grid,
            settings,
            skip_floor,
            None,
            None,
            progress,
            Ok(single),
        ),
    ensures
        crate::opt::alike::same_bricks(part@, single@),
{
    let (fw, fh) = grid.dims();
    let owned = super::parts::owned_cells(layers, layer.id, (fw * fh) as nat);
    let single_outcome: Result<Vec<Brick>, BuildError> = Ok(single);
    let none: Option<PaintLayer> = None;
    assert forall|x: int, y: int| 0 <= x < fw && 0 <= y < fh implies #[trigger]
        super::parts::marks(owned, fw as int, x, y) by {
        crate::map::lemma_cell_index(x, y, fw as int, fh as int);
    }
    assert(plan.bbox == (0u32, 0u32, fw, fh)) by {
        let (x0, y0, x1, y1) = plan.bbox;
        assert(super::parts::marks(owned, fw as int, 0, 0));
        assert(super::parts::marks(owned, fw as int, fw - 1, fh - 1));
    }
    super::convert::lemma_axis_window(0, fw as int, fw as int, settings.size as int);
    super::convert::lemma_axis_window(0, fh as int, fh as int, settings.size as int);
    assert(plan.offset == super::convert::center_offset(grid.dims(), settings.size));
    let colors = choose|colors: FieldColors|
        #[trigger] super::convert::shows_paint(colors, none, grid.dims(), 0, 0)
            && super::convert::is_meshed(
            grid,
            colors,
            settings,
            skip_floor,
            super::convert::center_offset(grid.dims(), settings.size),
            None,
            progress,
            single_outcome,
        );
    let keep = plan.keep_local@;
    assert forall|x: int, y: int|
        0 <= x < sub.dims().0 && 0 <= y < sub.dims().1 implies crate::opt::alike::same_cell(
        &sub,
        &flat,
        Some(keep),
        &grid,
        &colors,
        None,
        x,
        y,
    ) by {
        crate::map::lemma_cell_index(x, y, fw as int, fh as int);
        vstd::arithmetic::div_mod::lemma_fundamental_div_mod_converse(
            y * fw + x,
            fw as int,
            y,
            x,
        );
        assert(sub.height_at(x, y) == grid.height_at(0 + x, 0 + y));
        assert(colors.color_at(x, y) == super::convert::field_color(none, 0 + x, 0 + y));
        assert(super::parts::marks(owned, fw as int, x, y));
        vstd::arithmetic::mul::lemma_mul_is_commutative(fw as int, fh as int);
    }
    lemma_meshed_bricks(
        grid,
        colors,
        settings,
        skip_floor,
        plan.offset,
        None,
        progress,
        single,
    );
    lemma_same_meshes(
        sub,
        flat,
        Some(keep),
        part@,
        grid,
        colors,
        None,
        single@,
        settings,
        skip_floor,
        plan.offset,
    );
}

/// A layer that owns the whole field exports the bricks that the field has as one mesh: without a
/// second layer, parts change nothing.
pub proof fn full_layer_exports_as_one_mesh<F: Fn(Progress) -> bool, G: Fn() -> bool>(
    layers: Seq<Layer>,
    layer: Layer,
    plan: PartPlan,
    grid: HeightGrid,
    settings: MeshSettings,
    skip_floor: bool,
    progress: F,
    cancelled: G,
    part: Vec<Brick>,
    single: Vec<Brick>,
)
    requires
        super::convert::field_fits(grid, settings),
        super::parts::is_part(
            layers,
            layer,
            grid.dims().0,
            grid.dims().1,
            settings.size,
            plan,
        ),
        forall|i: int|
            0 <= i < grid.dims().0 * grid.dims().1 ==> #[trigger] super::layers::claim_at(
                layers,
                i,
            ) == Some(layer.id),
        super::export::is_part_meshed(plan, grid, settings, skip_floor, cancelled, Ok(part)),
        super::convert::is_single_outcome(
            grid,
            settings,
            skip_floor,
            None,
            None,
            progress,
            Ok(single),
        ),
    ensures
        crate::opt::alike::same_bricks(part@, single@),
{
    let part_outcome: Result<Vec<Brick>, BuildError> = Ok(part);
    let (sub, flat) = choose|sub: HeightGrid, flat: FlatColormap|
        #[trigger] super::convert::is_window_of(sub, grid, super::export::part_window(plan))
            && #[trigger] super::export::is_default_color(flat, sub.dims())
            && super::convert::is_quietly_meshed(
            sub,
            flat,
            settings,
            skip_floor,
            plan.offset,
            Some(plan.keep_local@),
            cancelled,
            part_outcome,
        );
    lemma_full_part(
        sub,
        flat,
        layers,
        layer,
        plan,
        grid,
        settings,
        skip_floor,
        progress,
        part,
        single,
    );
}

/// The part of a layer that owns the whole field, meshed by itself, is the single mesh of the field.
pub proof fn full_layer_builds_as_one_mesh<F: Fn(Progress) -> bool, P: Fn(Progress) -> bool>(
    layers: Seq<Layer>,
    layer: Layer,
    plan: PartPlan,
    grid: HeightGrid,
    settings: MeshSettings,
    skip_floor: bool,
    progress: F,
    part_progress: P,
    part: Vec<Brick>,
    single: Vec<Brick>,
)
    requires
        super::convert::field_fits(grid, settings),
        super::parts::is_part(
            layers,
            layer,
            grid.dims().0,
            grid.dims().1,
            settings.size,
            plan,
        ),
        forall|i: int|
            0 <= i < grid.dims().0 * grid.dims().1 ==> #[trigger] super::layers::claim_at(
                layers,
                i,
            ) == Some(layer.id),
        super::export::is_part_outcome(plan, grid, settings, skip_floor, part_progress, Ok(part)),
        super::convert::is_single_outcome(
            grid,
            settings,
            skip_floor,
            None,
            None,
            progress,
            Ok(single),
        ),
    ensures
        crate::opt::alike::same_bricks(part@, single@),
{
    let part_outcome: Result<Vec<Brick>, BuildError> = Ok(part);
    let (sub, flat) = choose|sub: HeightGrid, flat: FlatColormap|
        #[trigger] super::convert::is_window_of(sub, grid, super::export::part_window(plan))
            && #[trigger] super::export::is_default_color(flat, sub.dims())
            && super::convert::is_meshed(
            sub,
            flat,
            settings,
            skip_floor,
            plan.offset,
            Some(plan.keep_local@),
            part_progress,
            part_outcome,
        );
    lemma_meshed_bricks(
        sub,
        flat,
        settings,
        skip_floor,
        plan.offset,
        Some(plan.keep_local@),
        part_progress,
        part,
    );
    lemma_full_part(
        sub,
        flat,
        layers,
        layer,
        plan,
        grid,
        settings,
        skip_floor,
        progress,
        part,
        single,
    );
}

/// A field that fits within one tile is the single mesh: tiled and whole, it has the same bricks.
pub proof fn one_tile_is_the_single_mesh<
    F: Fn(Progress) -> bool,
    R: Fn(usize, usize),
    G: Fn() -> bool,
>(
    grid: HeightGrid,
    settings: MeshSettings,
    skip_floor: bool,
    mask: Option<Seq<bool>>,
    paint: Option<PaintLayer>,
    progress: F,
    report: R,
    cancelled: G,
    step: int,
    tiled: Vec<Brick>,
    single: Vec<Brick>,
)
    requires
        super::convert::field_fits(grid, settings),
        1 <= grid.dims().0 <= step,
        1 <= grid.dims().1 <= step,
        crate::opt::generate::mask_matches(mask, grid.dims()),
        super::convert::is_tiled_outcome(
            grid,
            settings,
            skip_floor,
            mask,
            paint,
            report,
            cancelled,
            step,
            Ok(tiled),
        ),
        super::convert::is_single_outcome(
            grid,
            settings,
            skip_floor,
            mask,
            paint,
            progress,
            Ok(single),
        ),
    ensures
        crate::opt::alike::same_bricks(tiled@, single@),
{
    let (fw, fh) = grid.dims();
    let tiled_outcome: Result<Vec<Brick>, BuildError> = Ok(tiled);
    let single_outcome: Result<Vec<Brick>, BuildError> = Ok(single);
    let parts = choose|parts: Seq<Vec<Brick>>|
        #[trigger] super::convert::are_tile_parts(
            grid,
            settings,
            skip_floor,
            mask,
            paint,
            cancelled,
            step,
            parts,
        ) && super::convert::tiles_end(
            grid.dims(),
            report,
            cancelled,
            step,
            parts,
            tiled_outcome,
        );
    lemma_one_range(fw as int, step);
    lemma_one_range(fh as int, step);
    assert(1int * 1 == 1);
    assert(super::convert::tile_count(grid.dims(), step) == 1);
    assert(parts.len() == 1);
    assert(parts.drop_last() =~= Seq::<Vec<Brick>>::empty());
    let part = parts[0];
    reveal_with_fuel(super::convert::joined, 2);
    assert(tiled@ =~= part@);
    let win = super::convert::tile_window(grid.dims(), step, 0);
    assert(win == (Window { x0: 0, y0: 0, x1: fw as int, y1: fh as int }));
    let part_outcome: Result<Vec<Brick>, BuildError> = Ok(part);
    assert(super::convert::is_tile_part(
        grid,
        settings,
        skip_floor,
        mask,
        paint,
        cancelled,
        step,
        0,
        part,
    ));
    let (sub, sub_colors) = choose|sub: HeightGrid, colors: FieldColors|
        #[trigger] super::convert::is_window_of(sub, grid, win)
            && #[trigger] super::convert::shows_paint(colors, paint, sub.dims(), win.x0, win.y0)
            && super::convert::is_quietly_meshed(
            sub,
            colors,
            settings,
            skip_floor,
            super::convert::window_offset(grid.dims(), win, settings.size),
            super::convert::window_mask(mask, grid.dims(), win),
            cancelled,
            part_outcome,
        );
    let colors = choose|colors: FieldColors|
        #[trigger] super::convert::shows_paint(colors, paint, grid.dims(), 0, 0)
            && super::convert::is_meshed(
            grid,
            colors,
            settings,
            skip_floor,
            super::convert::center_offset(grid.dims(), settings.size),
            mask,
            progress,
            single_outcome,
        );
    let sub_mask = super::convert::window_mask(mask, grid.dims(), win);
    assert forall|x: int, y: int|
        0 <= x < sub.dims().0 && 0 <= y < sub.dims().1 implies crate::opt::alike::same_cell(
        &sub,
        &sub_colors,
        sub_mask,
        &grid,
        &colors,
        mask,
        x,
        y,
    ) by {
        crate::map::lemma_cell_index(x, y, fw as int, fh as int);
        vstd::arithmetic::div_mod::lemma_fundamental_div_mod_converse(
            y * fw + x,
            fw as int,
            y,
            x,
        );
        assert(sub.height_at(x, y) == grid.height_at(0 + x, 0 + y));
        assert(sub_colors.color_at(x, y) == super::convert::field_color(paint, 0 + x, 0 + y));
        assert(colors.color_at(x, y) == super::convert::field_color(paint, 0 + x, 0 + y));
    }
    assert(super::convert::window_offset(grid.dims(), win, settings.size)
        == super::convert::center_offset(grid.dims(), settings.size)) by {
        assert(0 * settings.size == 0) by (nonlinear_arith);
    }
    lemma_meshed_bricks(
        grid,
        colors,
        settings,
        skip_floor,
        super::convert::center_offset(grid.dims(), settings.size),
        mask,
        progress,
        single,
    );
    lemma_same_meshes(
        sub,
        sub_colors,
        sub_mask,
        part@,
        grid,
        colors,
        mask,
        single@,
        settings,
        skip_floor,
        super::convert::center_offset(grid.dims(), settings.size),
    );
}

proof fn lemma_one_range(extent: int, step: int)
    requires
        1 <= extent <= step,
    ensures
        super::tiling::tile_total(extent, step) == 1,
        super::tiling::tile_range(0, extent, step) == (0int, extent),
{
    vstd::arithmetic::div_mod::lemma_fundamental_div_mod_converse(
        extent + step - 1,
        step,
        1,
        extent - 1,
    );
    assert(0 * step == 0 && 1 * step == step) by (nonlinear_arith);
}

/// Paint on which nothing is painted leaves an export as it is without paint.
pub proof fn blank_paint_changes_nothing<F: Fn(Progress) -> bool>(
    grid: HeightGrid,
    settings: MeshSettings,
    skip_floor: bool,
    mask: Option<Seq<bool>>,
    paint: PaintLayer,
    progress: F,
    outcome: Result<Vec<Brick>, BuildError>,
)
    requires
        forall|i: int|
            0 <= i < paint.grid.cells@.len() ==> #[trigger] paint.grid.cells@[i] == 0,
    ensures
        super::convert::is_single_outcome(
            grid,
            settings,
            skip_floor,
            mask,
            Some(paint),
            progress,
            outcome,
        ) <==> super::convert::is_single_outcome(
            grid,
            settings,
            skip_floor,
            mask,
            None,
            progress,
            outcome,
        ),
{
    let none: Option<PaintLayer> = None;
    assert forall|colors: FieldColors|
        #[trigger] super::convert::shows_paint(colors, Some(paint), grid.dims(), 0, 0)
            == super::convert::shows_paint(colors, none, grid.dims(), 0, 0) by {
        assert(!super::convert::is_painted(Some(paint)));
    }
    if super::convert::is_single_outcome(
        grid,
        settings,
        skip_floor,
        mask,
        none,
        progress,
        outcome,
    ) {
        let colors = choose|colors: FieldColors|
            #[trigger] super::convert::shows_paint(colors, none, grid.dims(), 0, 0)
                && super::convert::is_meshed(
                grid,
                colors,
                settings,
                skip_floor,
                super::convert::center_offset(grid.dims(), settings.size),
                mask,
                progress,
                outcome,
            );
        assert(super::convert::shows_paint(colors, Some(paint), grid.dims(), 0, 0));
    }
}

/// The window holds the cell.
pub open spec fn window_holds(win: Window, x: int, y: int) -> bool {
    win.x0 <= x < win.x1 && win.y0 <= y < win.y1
}

/// The tile with number `t` is the one that holds the cell.
pub open spec fn is_tile_of(dims: (u32, u32), step: int, t: int, x: int, y: int) -> bool {
    &&& 0 <= t < super::convert::tile_count(dims, step)
    &&& window_holds(super::convert::tile_window(dims, step, t), x, y)
}

/// The tiles of an export partition the field: every cell lies in one tile and in no other, so
/// seams have neither gaps nor cells that are built twice.
pub proof fn tiles_partition_the_field(dims: (u32, u32), step: int, x: int, y: int)
    requires
        0 < step,
        0 <= x < dims.0,
        0 <= y < dims.1,
    ensures
        exists|t: int| #[trigger] is_tile_of(dims, step, t, x, y),
        forall|s: int, t: int|
            #[trigger] is_tile_of(dims, step, s, x, y) && #[trigger] is_tile_of(dims, step, t, x, y)
                ==> s == t,
{
    let (w, h) = (dims.0 as int, dims.1 as int);
    let columns = super::tiling::tile_total(w, step);
    let rows = super::tiling::tile_total(h, step);
    super::tiling::tile_ranges_partition(w, step);
    super::tiling::tile_ranges_partition(h, step);
    assert(super::tiling::in_one_range(x, w, step));
    assert(super::tiling::in_one_range(y, h, step));
    let i = choose|i: int| #[trigger] super::tiling::range_holds(i, x, w, step);
    let j = choose|j: int| #[trigger] super::tiling::range_holds(j, y, h, step);
    let t = j * columns + i;
    crate::map::lemma_cell_index(i, j, columns, rows);
    vstd::arithmetic::div_mod::lemma_fundamental_div_mod_converse(t, columns, j, i);
    assert(is_tile_of(dims, step, t, x, y));
    assert forall|s: int| #[trigger] is_tile_of(dims, step, s, x, y) implies s == t by {
        crate::map::lemma_cell_of_index(s, columns, rows);
        assert(super::tiling::range_holds(s % columns, x, w, step));
        assert(super::tiling::range_holds(s / columns, y, h, step));
    }
}

} // verus!
