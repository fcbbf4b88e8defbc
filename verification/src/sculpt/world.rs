//! The conversion of a whole workspace: its terrain, zones and paint into bricks.
use super::convert::{convert_grid, convert_grid_tiled, BuildError, MeshSettings, OutputOptions};
use super::grid::HeightGrid;
use super::paint::PaintLayer;
use crate::brick::Brick;
use crate::map::Heightmap;
use crate::opt::generate::Progress;
use crate::zones::{rasterize, Zone, ZoneModel};
use vstd::prelude::*;

verus! {

/// The cells that zones keep, row by row, or nothing where there are no zones.
pub open spec fn zone_mask(zones: Seq<ZoneModel>, dims: (u32, u32)) -> Option<Seq<bool>> {
    if zones.len() == 0 {
        None
    } else {
        Some(
            Seq::new(
                (dims.0 * dims.1) as nat,
                |i: int| crate::zones::keeps(zones, i % dims.0 as int, i / dims.0 as int),
            ),
        )
    }
}

/// Convert terrain with its zones and paint into bricks: as one mesh, or tile by tile with tiles of
/// at most `tile_cells` cells a side. Zones are read, not consumed. A single mesh tells `progress`
/// how far it is; with tiles, `report` is told how many of how many are done.
pub fn convert_world<F: Fn(Progress) -> bool, R: Fn(usize, usize), G: Fn() -> bool>(
    grid: &HeightGrid,
    out: OutputOptions,
    tile_cells: Option<u32>,
    settings: &MeshSettings,
    zones: &Vec<Zone>,
    paint: Option<PaintLayer>,
    progress: F,
    report: R,
    cancelled: G,
) -> (outcome: Result<Vec<Brick>, BuildError>)
    requires
        crate::opt::generate::takes_reports(progress),
        forall|n: usize, of: usize| #[trigger] call_requires(report, (n, of)),
        call_requires(cancelled, ()),
        super::convert::field_fits(*grid, *settings),
        grid.dims().0 >= 1,
        grid.dims().1 >= 1,
        super::convert::paint_fits(paint, grid.dims()),
    ensures
        !super::convert::has_format(out) ==> super::convert::is_format_error(outcome),
        super::convert::has_format(out) ==> match tile_cells {
            Some(side) => super::convert::is_tiled_outcome(
                *grid,
                *settings,
                out.skip_floor,
                zone_mask(crate::zones::zone_models(zones@), grid.dims()),
                paint,
                report,
                cancelled,
                super::tiling::positive(side),
                outcome,
            ),
            None => super::convert::is_single_outcome(
                *grid,
                *settings,
                out.skip_floor,
                zone_mask(crate::zones::zone_models(zones@), grid.dims()),
                paint,
                progress,
                outcome,
            ),
        },
{
    let (width, height) = grid.size();
    let _count: usize = grid.cell_count();
    let rasterized: Vec<bool>;
    let mask: Option<&Vec<bool>> = if zones.len() == 0 {
        None
    } else {
        rasterized = rasterize(zones, width, height);
        Some(&rasterized)
    };
    match tile_cells {
        Some(side) => convert_grid_tiled(
            grid,
            out,
            side,
            settings,
            mask,
            paint,
            report,
            cancelled,
        ),
        None => {
            let cells: Option<&[bool]> = match mask {
                Some(m) => Some(m.as_slice()),
                None => None,
            };
            convert_grid(grid, out, settings, cells, paint, progress)
        },
    }
}

/// Zones mask an export as they say: without any there is no mask, and otherwise the mask keeps a cell
/// where the zones keep it.
pub proof fn zones_mask_the_export(zones: Seq<ZoneModel>, dims: (u32, u32), x: int, y: int)
    requires
        0 <= x < dims.0,
        0 <= y < dims.1,
    ensures
        zones.len() == 0 ==> zone_mask(zones, dims) is None,
        zones.len() > 0 ==> zone_mask(zones, dims) is Some && zone_mask(zones, dims)->0[y * dims.0
            + x] == crate::zones::keeps(zones, x, y),
{
    if zones.len() > 0 {
        crate::zones::masks_go_row_by_row(
            zones,
            dims.0,
            dims.1,
            zone_mask(zones, dims)->0,
            x,
            y,
        );
    }
}

} // verus!
