//! What the controls of the workspace and the brushes do to its state.
use super::estimate::{plan_export, ExportEstimate, ExportPlan};
use super::modes::{PickTarget, SculptMode, SculptTool, ZoneStyle};
use super::paint::{gradient_palette, splatmap_to_indices, PaintGrid, MAX_SWATCHES};
use super::snapshot::{CellField, CellRect, RectSnapshot};
use super::state::SculptState;
use crate::files::ImageFile;
use crate::map::RgbaImage;
use vstd::prelude::*;
use vstd::string::StringExecFns;

verus! {

/// Color of a swatch that was just added.
pub const NEW_SWATCH: [u8; 4] = [0xC0, 0xC0, 0xC0, 0xFF];

/// The tool that a mode starts with; the height brushes start with the one that was used last.
pub open spec fn mode_tool(mode: SculptMode, shape_tool: SculptTool) -> SculptTool {
    match mode {
        SculptMode::Shape => shape_tool,
        SculptMode::Stamp => SculptTool::Stamp,
        SculptMode::Paint => SculptTool::Paint,
        SculptMode::Zone => SculptTool::Zone,
        SculptMode::Layers => SculptTool::Layers,
    }
}

/// What loading a splatmap picture comes to: without terrain nothing happens, a picture without
/// pixels is refused, and any other becomes the paint.
pub open spec fn is_splatmap_load(
    after: &SculptState,
    before: &SculptState,
    img: RgbaImage,
    r: Result<(), String>,
) -> bool {
    match before.field {
        None => r is Ok && *after == *before,
        Some(f) => if img.width == 0 || img.height == 0 {
            &&& r matches Err(e) && e@ == "splatmap has zero dimensions"@
            &&& *after == *before
        } else {
            &&& r is Ok
            &&& is_paint_edit(after, before)
            &&& after.palette == before.palette
            &&& after.active_swatch == before.active_swatch
            &&& after.paint.width == f.width
            &&& after.paint.height == f.height
            &&& after.paint.cells@ == super::paint::splat_indices(
                &img,
                f.width as int,
                f.height as int,
            )
        },
    }
}

impl SculptState {
    /// Switch to a mode. Leaving for any mode but Zone drops the loop that is being drawn. Selecting
    /// the mode that is shown changes nothing.
    pub fn select_mode(&mut self, mode: SculptMode)
        requires
            old(self).wf(),
        ensures
            final(self).wf(),
            old(self).tool.its_mode() == mode ==> *final(self) == *old(self),
            old(self).tool.its_mode() != mode ==> *final(self) == (SculptState {
                tool: mode_tool(mode, old(self).shape_tool),
                zone_draft: final(self).zone_draft,
                ..*old(self)
            }),
            old(self).tool.its_mode() != mode && mode != SculptMode::Zone
                ==> final(self).zone_draft@.len() == 0,
            mode == SculptMode::Zone ==> final(self).zone_draft == old(self).zone_draft,
            final(self).tool.its_mode() == mode,
    {
        if self.tool.mode() == mode {
            return;
        }
        if mode != SculptMode::Zone {
            self.zone_draft.clear();
        }
        self.tool = match mode {
            SculptMode::Shape => self.shape_tool,
            SculptMode::Stamp => SculptTool::Stamp,
            SculptMode::Paint => SculptTool::Paint,
            SculptMode::Zone => SculptTool::Zone,
            SculptMode::Layers => SculptTool::Layers,
        };
    }

    /// Pick a height brush, which is remembered for the next time that its mode is entered.
    pub fn select_shape_tool(&mut self, tool: SculptTool)
        requires
            old(self).wf(),
            tool.its_mode() == SculptMode::Shape,
        ensures
            final(self).wf(),
            *final(self) == (SculptState { tool, shape_tool: tool, ..*old(self) }),
    {
        self.tool = tool;
        self.shape_tool = tool;
    }

    /// Switch how zones are drawn. A change drops the loop that is being drawn, so that a
    /// half-placed polygon cannot bleed into a lasso.
    pub fn select_zone_style(&mut self, style: ZoneStyle)
        requires
            old(self).wf(),
        ensures
            final(self).wf(),
            *final(self) == (SculptState {
                zone_style: style,
                zone_draft: final(self).zone_draft,
                ..*old(self)
            }),
            style == old(self).zone_style ==> final(self).zone_draft == old(self).zone_draft,
            style != old(self).zone_style ==> final(self).zone_draft@.len() == 0,
    {
        if self.zone_style != style {
            self.zone_style = style;
            self.zone_draft.clear();
        }
    }

    /// Paint with another swatch of the palette.
    pub fn select_swatch(&mut self, index: usize)
        requires
            old(self).wf(),
            index < old(self).palette@.len(),
        ensures
            final(self).wf(),
            *final(self) == (SculptState { active_swatch: index as u8, ..*old(self) }),
    {
        self.active_swatch = index as u8;
    }

    /// Recolor the active swatch; everything that is painted with it shows the new color.
    pub fn recolor_swatch(&mut self, color: [u8; 4])
        requires
            old(self).wf(),
        ensures
            final(self).wf(),
            *final(self) == (SculptState {
                palette: final(self).palette,
                dirty: true,
                dirty_rect: None,
                ..*old(self)
            }),
            final(self).palette@ == old(self).palette@.update(
                old(self).active_swatch as int,
                color,
            ),
    {
        let i: usize = self.active_swatch as usize;
        self.palette.set(i, color);
        self.mark_dirty_all();
    }

    /// Add a swatch to the palette and paint with it; a full palette stays as it is.
    pub fn add_swatch(&mut self)
        requires
            old(self).wf(),
        ensures
            final(self).wf(),
            old(self).palette@.len() == MAX_SWATCHES ==> *final(self) == *old(self),
            old(self).palette@.len() < MAX_SWATCHES ==> {
                &&& *final(self) == (SculptState {
                    palette: final(self).palette,
                    active_swatch: old(self).palette@.len() as u8,
                    ..*old(self)
                })
                &&& final(self).palette@ == old(self).palette@.push(NEW_SWATCH)
            },
    {
        if self.palette.len() < MAX_SWATCHES {
            self.palette.push(NEW_SWATCH);
            self.active_swatch = (self.palette.len() - 1) as u8;
        }
    }

    /// Sample the height at a cell into the field of the panel that asked for it. A cell outside the
    /// terrain samples the nearest one inside; without terrain there is nothing to sample.
    pub fn sample_into(&mut self, target: PickTarget, x: i64, y: i64)
        requires
            old(self).wf(),
            old(self).field matches Some(f) ==> f.width > 0 && f.height > 0,
        ensures
            final(self).wf(),
            old(self).field is None ==> *final(self) == *old(self),
            old(self).field matches Some(f) ==> *final(self) == match target {
                PickTarget::SetHeight => SculptState {
                    target_height: f.sample(x as int, y as int),
                    ..*old(self)
                },
                PickTarget::SeaLevel => SculptState {
                    omit_below: f.sample(x as int, y as int),
                    ..*old(self)
                },
                PickTarget::FloorLevel => SculptState {
                    floor_level: f.sample(x as int, y as int),
                    ..*old(self)
                },
            },
    {
        let height: u32 = match &self.field {
            Some(f) => f.sample_cell(x, y),
            None => {
                return;
            },
        };
        match target {
            PickTarget::SetHeight => {
                self.target_height = height;
            },
            PickTarget::SeaLevel => {
                self.omit_below = height;
            },
            PickTarget::FloorLevel => {
                self.floor_level = height;
            },
        }
    }

    /// Sample the height at a cell into the target of the height brushes.
    pub fn sample_height_into_target(&mut self, x: i64, y: i64)
        requires
            old(self).wf(),
            old(self).field matches Some(f) ==> f.width > 0 && f.height > 0,
        ensures
            final(self).wf(),
            old(self).field is None ==> *final(self) == *old(self),
            old(self).field matches Some(f) ==> *final(self) == (SculptState {
                target_height: f.sample(x as int, y as int),
                ..*old(self)
            }),
    {
        self.sample_into(PickTarget::SetHeight, x, y);
    }

    /// Plan the export of a world of `width × height` cells and remember whether it is tiled. The
    /// estimate is that of the way the export will take.
    pub fn refresh_plan(&mut self, width: u32, height: u32) -> (est: ExportEstimate)
        requires
            old(self).wf(),
        ensures
            final(self).wf(),
            ({
                let plan = super::estimate::planned(
                    width,
                    height,
                    old(self).tile_cells,
                    old(self).force_tile,
                    old(self).available_ram,
                );
                &&& *final(self) == (SculptState { tile_export: plan.tiled, ..*old(self) })
                &&& est == plan.estimate
            }),
    {
        let plan: ExportPlan = plan_export(
            width,
            height,
            self.tile_cells,
            self.force_tile,
            self.available_ram,
        );
        self.tile_export = plan.tiled;
        plan.estimate
    }
}

/// The paint was edited from `old`: the timeline notes it, everything has to be rendered again, and
/// nothing else changed but the palette and the active swatch.
pub open spec fn is_paint_edit(now: &SculptState, old: &SculptState) -> bool {
    &&& *now == (SculptState {
        paint: now.paint,
        palette: now.palette,
        active_swatch: now.active_swatch,
        undo: now.undo,
        redo: now.redo,
        dirty: true,
        dirty_rect: None,
        ..*old
    })
    &&& now.undos() == super::state::pushed(
        old.undos(),
        super::state::EditModel::Paint(old.canvas().paint),
    )
    &&& now.redos().len() == 0
}

impl SculptState {
    /// Set the palette to a height ramp and keep the active swatch inside it.
    fn use_ramp(&mut self, ramp: &[[u8; 3]; 8])
        ensures
            *final(self) == (SculptState {
                palette: final(self).palette,
                active_swatch: final(self).active_swatch,
                ..*old(self)
            }),
            super::paint::is_gradient_palette(final(self).palette@, ramp@),
            final(self).palette@.len() == 9,
            final(self).active_swatch == if old(self).active_swatch < 8 {
                old(self).active_swatch
            } else {
                8
            },
    {
        self.palette = gradient_palette(ramp);
        if self.active_swatch > 8 {
            self.active_swatch = 8;
        }
    }

    /// Set the palette to a height ramp and fill every cell by its elevation band, snapped to the
    /// splat resolution (undoable). `bands` holds the band of each cell, row by row. Without terrain
    /// nothing happens.
    pub fn fill_splat_from_gradient(&mut self, ramp: &[[u8; 3]; 8], bands: &Vec<u8>)
        requires
            old(self).wf(),
            bands@.len() == old(self).paint.cells@.len(),
        ensures
            final(self).wf(),
            old(self).field is None ==> *final(self) == *old(self),
            old(self).field is Some ==> {
                &&& is_paint_edit(final(self), old(self))
                &&& super::paint::is_gradient_fill(
                    old(self).paint,
                    final(self).paint,
                    bands@,
                    old(self).splat_res,
                )
                &&& super::paint::is_gradient_palette(final(self).palette@, ramp@)
                &&& final(self).active_swatch == if old(self).active_swatch < 8 {
                    old(self).active_swatch
                } else {
                    8
                }
            },
    {
        if self.field.is_none() {
            return;
        }
        self.record_paint_edit();
        self.use_ramp(ramp);
        self.paint.fill_from_gradient(self.splat_res, bands);
        self.mark_dirty_all();
    }

    /// Replace the paint by a splatmap: each pixel's dominant channel selects a swatch (undoable).
    /// Without terrain nothing happens; an image without pixels is refused.
    pub fn load_splatmap(&mut self, img: &RgbaImage) -> (r: Result<(), String>)
        requires
            old(self).wf(),
            img.wf(),
        ensures
            final(self).wf(),
            is_splatmap_load(final(self), old(self), *img, r),
    {
        let (fw, fh) = match &self.field {
            Some(f) => (f.width, f.height),
            None => {
                return Ok(());
            },
        };
        if img.width == 0 || img.height == 0 {
            return Err("splatmap has zero dimensions".to_owned());
        }
        self.record_paint_edit();
        let cells: Vec<u8> = splatmap_to_indices(img, fw, fh);
        self.paint = PaintGrid { width: fw, height: fh, cells };
        self.mark_dirty_all();
        Ok(())
    }

    /// Replace the paint by the splatmap in a file (undoable). Without terrain nothing happens; a
    /// file that cannot be read, and one without pixels, is refused.
    pub fn load_splatmap_file(&mut self, file: &ImageFile) -> (r: Result<(), String>)
        requires
            old(self).wf(),
        ensures
            final(self).wf(),
            old(self).field is None ==> r is Ok && *final(self) == *old(self),
            old(self).field is Some ==> exists|picture: Result<RgbaImage, String>| #[trigger]
                file.may_read_as(picture) && match picture {
                    Ok(img) => is_splatmap_load(final(self), old(self), img, r),
                    Err(e) => (r matches Err(text) && text@ == "could not read splatmap: "@ + e@)
                        && *final(self) == *old(self),
                },
    {
        if self.field.is_none() {
            return Ok(());
        }
        let picture: Result<RgbaImage, String> = file.read();
        let ghost shown: Result<RgbaImage, String> = picture;
        assert(file.may_read_as(shown));
        match picture {
            Ok(img) => self.load_splatmap(&img),
            Err(e) => {
                let mut text: String = "could not read splatmap: ".to_owned();
                text.append(e.as_str());
                Err(text)
            },
        }
    }

    /// Pour the active swatch into the terrain from cell `(x, y)` (undoable): into the touched
    /// region of cells that `matching` marks, or into all of them. Outside the field, and without
    /// terrain, nothing happens.
    pub fn bucket_fill(&mut self, x: u32, y: u32, matching: &Vec<bool>)
        requires
            old(self).wf(),
            matching@.len() == old(self).paint.cells@.len(),
        ensures
            final(self).wf(),
            old(self).field is None || !old(self).paint.covers(x as int, y as int)
                ==> *final(self) == *old(self),
            old(self).field is Some && old(self).paint.covers(x as int, y as int) ==> {
                &&& is_paint_edit(final(self), old(self))
                &&& final(self).palette == old(self).palette
                &&& final(self).active_swatch == old(self).active_swatch
                &&& super::flood::is_filled(
                    old(self).paint,
                    final(self).paint,
                    super::flood::fill_region(
                        matching@,
                        old(self).paint.width as int,
                        old(self).paint.height as int,
                        (x as int, y as int),
                        !old(self).bucket_global,
                    ),
                    old(self).splat_res,
                    old(self).active_swatch,
                )
            },
    {
        if self.field.is_none() || x >= self.paint.width || y >= self.paint.height {
            return;
        }
        self.record_paint_edit();
        let _filled: usize = self.paint.flood_fill(
            x,
            y,
            self.active_swatch,
            matching,
            !self.bucket_global,
            self.splat_res,
        );
        self.mark_dirty_all();
    }
}

/// The inclusive rectangle `(x0, x1, y0, y1)` of a rectangle of cells.
pub open spec fn inclusive(rect: CellRect) -> (u32, u32, u32, u32) {
    (
        rect.x0,
        (rect.x0 + rect.w - 1) as u32,
        rect.y0,
        (rect.y0 + rect.h - 1) as u32,
    )
}

/// The part of a field of `fw × fh` cells that a dab can touch: the cells from `min` to `max`, both
/// inclusive, on each axis. Nothing when the dab lies off the field.
pub fn stroke_rect(min: (i64, i64), max: (i64, i64), fw: u32, fh: u32) -> (rect: Option<CellRect>)
    requires
        min.0 <= max.0,
        min.1 <= max.1,
    ensures
        match rect {
            Some(r) => {
                &&& r.fits(fw, fh)
                &&& r.w > 0
                &&& r.h > 0
                &&& forall|x: int, y: int|
                    #[trigger] r.holds(x, y) <==> in_span(min, max, x, y) && 0 <= x < fw && 0 <= y
                        < fh
            },
            None => forall|x: int, y: int|
                0 <= x < fw && 0 <= y < fh ==> !#[trigger] in_span(min, max, x, y),
        },
{
    if fw == 0 || fh == 0 || max.0 < 0 || min.0 >= fw as i64 || max.1 < 0 || min.1 >= fh as i64 {
        return None;
    }
    let (x0, w) = clip_axis(min.0, max.0, fw);
    let (y0, h) = clip_axis(min.1, max.1, fh);
    Some(CellRect { x0, y0, w, h })
}

/// The cell lies in the span of a dab.
pub open spec fn in_span(min: (i64, i64), max: (i64, i64), x: int, y: int) -> bool {
    min.0 <= x <= max.0 && min.1 <= y <= max.1
}

fn clip_axis(min: i64, max: i64, extent: u32) -> (clip: (u32, u32))
    requires
        min <= max,
        max >= 0,
        min < extent,
        extent > 0,
    ensures
        clip.1 > 0,
        clip.0 + clip.1 <= extent,
        clip.0 == if min < 0 {
            0
        } else {
            min as int
        },
        clip.0 + clip.1 - 1 == if max >= extent {
            extent - 1
        } else {
            max as int
        },
{
    let first: u32 = if min < 0 {
        0
    } else {
        min as u32
    };
    let last: u32 = if max >= extent as i64 {
        extent - 1
    } else {
        max as u32
    };
    (first, last - first + 1)
}

/// The cells of a rectangle that a brush covers, of which `covered` tells, row by row.
pub open spec fn dab_cells(rect: CellRect, covered: Seq<bool>) -> Set<(int, int)> {
    Set::new(|c: (int, int)| rect.holds(c.0, c.1) && covered[rect.index(c.0, c.1)])
}

/// Last cell of the block that holds a cell, along an axis of `extent` cells.
pub open spec fn block_last(at: int, r: u32, extent: int) -> int {
    let last = super::paint::block_start(at, r) + super::paint::block_side(r) - 1;
    if last < extent - 1 {
        last
    } else {
        extent - 1
    }
}

/// The inclusive rectangle of the blocks that the cells of a rectangle lie in.
pub open spec fn block_cover(rect: CellRect, r: u32, fw: u32, fh: u32) -> (u32, u32, u32, u32) {
    (
        super::paint::block_start(rect.x0 as int, r) as u32,
        block_last(rect.x0 + rect.w - 1, r, fw as int) as u32,
        super::paint::block_start(rect.y0 as int, r) as u32,
        block_last(rect.y0 + rect.h - 1, r, fh as int) as u32,
    )
}

/// First and last cell of the blocks of side `r` that cells `first..=last` of an axis lie in.
fn axis_blocks(first: u32, last: u32, r: u32, extent: u32) -> (span: (u32, u32))
    requires
        first <= last < extent,
    ensures
        span.0 == super::paint::block_start(first as int, r),
        span.1 == block_last(last as int, r, extent as int),
        span.0 <= first,
        last <= span.1 < extent,
{
    let side: u32 = if r == 0 {
        1
    } else {
        r
    };
    proof {
        vstd::arithmetic::div_mod::lemma_fundamental_div_mod(first as int, side as int);
        vstd::arithmetic::div_mod::lemma_fundamental_div_mod(last as int, side as int);
        vstd::arithmetic::mul::lemma_mul_is_commutative(first as int / side as int, side as int);
        vstd::arithmetic::mul::lemma_mul_is_commutative(last as int / side as int, side as int);
        vstd::arithmetic::div_mod::lemma_mod_bound(first as int, side as int);
        vstd::arithmetic::div_mod::lemma_mod_bound(last as int, side as int);
        vstd::arithmetic::div_mod::lemma_div_pos_is_pos(first as int, side as int);
        vstd::arithmetic::div_mod::lemma_div_pos_is_pos(last as int, side as int);
        assert(0 <= side as int * (first as int / side as int)) by (nonlinear_arith)
            requires
                side > 0,
                first as int / side as int >= 0,
        ;
        assert(0 <= side as int * (last as int / side as int)) by (nonlinear_arith)
            requires
                side > 0,
                last as int / side as int >= 0,
        ;
    }
    let start: u32 = first / side * side;
    let last_start: u32 = last / side * side;
    let end: u32 = if side - 1 < extent - 1 - last_start {
        last_start + (side - 1)
    } else {
        extent - 1
    };
    (start, end)
}

impl SculptState {
    /// One dab of a height brush on a rectangle of the terrain: the stroke in progress remembers the
    /// cells from before the dab, the terrain takes the cells in `after` (row by row), and the
    /// rectangle has to be rendered again.
    pub fn apply_dab(&mut self, rect: CellRect, after: Vec<u32>)
        requires
            old(self).wf(),
            old(self).field matches Some(f) && rect.fits(f.width, f.height),
            rect.w > 0,
            rect.h > 0,
            after@.len() == rect.w * rect.h,
        ensures
            final(self).wf(),
            *final(self) == (SculptState {
                field: final(self).field,
                active_stroke: final(self).active_stroke,
                dirty: true,
                dirty_rect: super::state::dirtied(
                    old(self).dirty,
                    old(self).dirty_rect,
                    inclusive(rect),
                ),
                ..*old(self)
            }),
            final(self).field is Some,
            final(self).field->0.width == old(self).field->0.width,
            final(self).field->0.height == old(self).field->0.height,
            final(self).field->0.cells@ == super::snapshot::restored(
                old(self).field->0.cells@,
                old(self).field->0.width as int,
                super::snapshot::SnapshotModel { rect, cells: after@ },
            ),
            super::snapshot::snapshot_models(final(self).active_stroke@)
                == super::snapshot::snapshot_models(old(self).active_stroke@).push(
                super::snapshot::captured(
                    old(self).field->0.cells@,
                    old(self).field->0.width as int,
                    rect,
                ),
            ),
    {
        self.extend_stroke_snapshot(rect);
        let dab: RectSnapshot = RectSnapshot { rect, cells: after };
        let ghost before = self.canvas().field;
        let _prior: RectSnapshot = super::state::swap_heights(&mut self.field, dab);
        proof {
            let now = super::state::field_model(self.field);
            super::state::lemma_fits_same_dims(self.undos(), before, now);
            super::state::lemma_fits_same_dims(self.redos(), before, now);
        }
        self.mark_dirty_rect((rect.x0, rect.x0 + (rect.w - 1), rect.y0, rect.y0 + (rect.h - 1)));
    }

    /// One dab of the paint brush: the active swatch goes into every covered cell of the rectangle,
    /// widened to whole blocks of the splat resolution. `covered` tells which cells of the
    /// rectangle the brush covers, row by row.
    pub fn paint_dab(&mut self, rect: CellRect, covered: &Vec<bool>)
        requires
            old(self).wf(),
            rect.fits(old(self).paint.width, old(self).paint.height),
            rect.w > 0,
            rect.h > 0,
            covered@.len() == rect.w * rect.h,
        ensures
            final(self).wf(),
            *final(self) == (SculptState {
                paint: final(self).paint,
                dirty: true,
                dirty_rect: super::state::dirtied(
                    old(self).dirty,
                    old(self).dirty_rect,
                    block_cover(
                        rect,
                        old(self).splat_res,
                        old(self).paint.width,
                        old(self).paint.height,
                    ),
                ),
                ..*old(self)
            }),
            super::flood::is_filled(
                old(self).paint,
                final(self).paint,
                dab_cells(rect, covered@),
                old(self).splat_res,
                old(self).active_swatch,
            ),
    {
        let (x0, x1) = axis_blocks(
            rect.x0,
            rect.x0 + (rect.w - 1),
            self.splat_res,
            self.paint.width,
        );
        let (y0, y1) = axis_blocks(
            rect.y0,
            rect.y0 + (rect.h - 1),
            self.splat_res,
            self.paint.height,
        );
        paint_covered(&mut self.paint, rect, covered, self.splat_res, self.active_swatch);
        self.mark_dirty_rect((x0, x1, y0, y1));
    }
}

/// Write `idx` into the blocks of the covered cells of a rectangle.
fn paint_covered(grid: &mut PaintGrid, rect: CellRect, covered: &Vec<bool>, r: u32, idx: u8)
    requires
        old(grid).wf(),
        rect.fits(old(grid).width, old(grid).height),
        covered@.len() == rect.w * rect.h,
    ensures
        super::flood::is_filled(*old(grid), *final(grid), dab_cells(rect, covered@), r, idx),
{
    let ghost was: PaintGrid = *grid;
    let ghost mut done: Set<(int, int)> = Set::empty();
    let mut i: usize = 0;
    while i < covered.len()
        invariant
            was.wf(),
            rect.fits(was.width, was.height),
            i <= covered@.len(),
            covered@.len() == rect.w * rect.h,
            super::flood::is_filled(was, *grid, done, r, idx),
            forall|c: (int, int)|
                #![trigger done.contains(c)]
                done.contains(c) <==> dab_cells(rect, covered@).contains(c) && rect.index(
                    c.0,
                    c.1,
                ) < i,
        decreases covered@.len() - i,
    {
        proof {
            crate::map::lemma_cell_of_index(i as int, rect.w as int, rect.h as int);
            assert forall|c: (int, int)| rect.holds(c.0, c.1) && rect.index(c.0, c.1) == i implies c
                == (rect.x0 + i as int % rect.w as int, rect.y0 + i as int / rect.w as int) by {
                super::snapshot::lemma_rect_index(rect, c.0, c.1);
            }
        }
        if covered[i] {
            let w: usize = rect.w as usize;
            let x: u32 = rect.x0 + (i % w) as u32;
            let y: u32 = rect.y0 + (i / w) as u32;
            let ghost before: PaintGrid = *grid;
            grid.set_block(x, y, r, idx);
            proof {
                let c = (x as int, y as int);
                assert(rect.holds(c.0, c.1));
                assert(rect.index(c.0, c.1) == i);
                super::flood::lemma_fill_one(was, before, *grid, done, r, idx, c);
                done = done.insert(c);
            }
        }
        i = i + 1;
    }
    proof {
        assert forall|c: (int, int)| dab_cells(rect, covered@).contains(c) implies done.contains(
            c,
        ) by {
            super::snapshot::lemma_rect_index(rect, c.0, c.1);
        }
        assert(done =~= dab_cells(rect, covered@));
    }
}

/// A dab of a height brush changes nothing outside its rectangle.
pub proof fn dab_keeps_to_its_rectangle(
    cells: Seq<u32>,
    width: u32,
    height: u32,
    rect: CellRect,
    after: Seq<u32>,
    x: int,
    y: int,
)
    requires
        cells.len() == width * height,
        0 <= x < width,
        0 <= y < height,
        !rect.holds(x, y),
    ensures
        super::snapshot::restored(
            cells,
            width as int,
            super::snapshot::SnapshotModel { rect, cells: after },
        )[y * width + x] == cells[y * width + x],
{
    crate::map::lemma_cell_index(x, y, width as int, height as int);
    vstd::arithmetic::div_mod::lemma_fundamental_div_mod_converse(
        y * width + x,
        width as int,
        y,
        x,
    );
}

/// The rectangle that a paint dab has rendered again covers every cell that it paints, also where
/// blocks of the splat resolution reach past the brush.
pub proof fn painted_cells_are_rendered(
    rect: CellRect,
    covered: Seq<bool>,
    r: u32,
    fw: u32,
    fh: u32,
    a: int,
    b: int,
)
    requires
        rect.fits(fw, fh),
        0 <= a < fw,
        0 <= b < fh,
        super::flood::in_blocks_of(dab_cells(rect, covered), r, (a, b)),
    ensures
        ({
            let (x0, x1, y0, y1) = block_cover(rect, r, fw, fh);
            x0 <= a <= x1 && y0 <= b <= y1
        }),
{
    let f = choose|f: (int, int)| #[trigger]
        dab_cells(rect, covered).contains(f) && super::paint::same_block(r, f, (a, b));
    lemma_in_blocks(rect.x0 as int, rect.x0 + rect.w - 1, f.0, a, r, fw as int);
    lemma_in_blocks(rect.y0 as int, rect.y0 + rect.h - 1, f.1, b, r, fh as int);
}

proof fn lemma_in_blocks(first: int, last: int, f: int, at: int, r: u32, extent: int)
    requires
        0 <= first <= f <= last < extent,
        0 <= at < extent,
        f / super::paint::block_side(r) == at / super::paint::block_side(r),
    ensures
        0 <= super::paint::block_start(first, r) <= at <= block_last(last, r, extent) < extent,
{
    let side = super::paint::block_side(r);
    vstd::arithmetic::div_mod::lemma_div_is_ordered(first, f, side);
    vstd::arithmetic::div_mod::lemma_div_is_ordered(f, last, side);
    vstd::arithmetic::div_mod::lemma_div_pos_is_pos(first, side);
    vstd::arithmetic::div_mod::lemma_fundamental_div_mod(at, side);
    vstd::arithmetic::div_mod::lemma_mod_bound(at, side);
    vstd::arithmetic::mul::lemma_mul_is_commutative(side, at / side);
    assert(0 <= first / side * side <= f / side * side <= last / side * side)
        by (nonlinear_arith)
        requires
            0 <= first / side <= f / side <= last / side,
            side > 0,
    ;
}

/// Choosing a mode takes up a tool of that mode, and a height brush again where one was used before.
pub proof fn modes_start_with_their_tool(mode: SculptMode, shape_tool: SculptTool)
    requires
        shape_tool.its_mode() is Shape,
    ensures
        mode_tool(mode, shape_tool).its_mode() == mode,
        mode is Shape ==> mode_tool(mode, shape_tool) == shape_tool,
{
}

/// A dab covers the cells of its rectangle that are marked, row by row.
pub proof fn dabs_cover_what_is_marked(rect: CellRect, covered: Seq<bool>, x: int, y: int)
    ensures
        dab_cells(rect, covered).contains((x, y)) <==> rect.x0 <= x < rect.x0 + rect.w && rect.y0 <= y
            < rect.y0 + rect.h && covered[(y - rect.y0) * rect.w + (x - rect.x0)],
{
}

/// An edit of the paint can be taken back: the newest edit of the history brings the paint from before back,
/// and the terrain and the zones stay as they are.
pub proof fn paint_edits_can_be_taken_back(now: &SculptState, old: &SculptState)
    requires
        is_paint_edit(now, old),
    ensures
        now.undos().len() > 0,
        super::state::inverted(now.canvas(), now.undos().last()).0.paint == old.canvas().paint,
        super::state::inverted(now.canvas(), now.undos().last()).0.zones == old.canvas().zones,
        super::state::inverted(now.canvas(), now.undos().last()).0.field == old.canvas().field,
        now.redo@.len() == 0,
        now.dirty && now.dirty_rect is None,
{
    let all = old.undos().push(super::state::EditModel::Paint(old.canvas().paint));
    assert(super::state::pushed(
        old.undos(),
        super::state::EditModel::Paint(old.canvas().paint),
    ).last() == all.last());
}

} // verus!
