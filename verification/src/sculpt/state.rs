//! The edit state of the workspace: what can be edited, and the undo/redo timeline.
use super::convert::OutputOptions;
use super::layers::LayerStack;
use super::modes::{PaintTool, PickTarget, SculptMode, SculptTool, ZoneStyle};
use super::paint::{default_palette, PaintGrid, MAX_SWATCHES};
use super::snapshot::{collapse_stroke_snapshots, CellField, CellRect, RectSnapshot, SnapshotModel};
use crate::zones::{Zone, ZoneMode, ZoneModel};
use std::collections::VecDeque;
use vstd::prelude::*;

verus! {

/// Number of edits that can be undone.
pub const UNDO_CAP: usize = 32;

/// Initial size of a new canvas.
pub const DEFAULT_CANVAS: u32 = 256;

/// Initial side of a tile of a tiled export, in cells.
pub const DEFAULT_TILE_CELLS: u32 = 256;

/// Initial target height of the height brushes: 20 m, as the bit pattern of an `f32`.
pub const DEFAULT_TARGET_HEIGHT: u32 = 0x41A0_0000;

/// One reversible edit on the unified undo/redo timeline. Height strokes and
/// zone-mask edits interleave in a single history so undo walks back through
/// whatever the user did last, in order.
pub enum UndoEntry {
    /// The cells of a stroke's rectangle before it.
    Height(RectSnapshot),
    /// The zones list before a zone add/delete/clear.
    Zones(Vec<Zone>),
    /// The whole paint grid before a paint stroke.
    Paint(PaintGrid),
}

/// The contents of a paint grid.
pub struct PaintModel {
    pub width: u32,
    pub height: u32,
    pub cells: Seq<u8>,
}

pub open spec fn paint_model(grid: PaintGrid) -> PaintModel {
    PaintModel { width: grid.width, height: grid.height, cells: grid.cells@ }
}

/// The contents of a field.
pub struct FieldModel {
    pub width: u32,
    pub height: u32,
    pub cells: Seq<u32>,
}

pub open spec fn field_model(field: Option<CellField>) -> Option<FieldModel> {
    match field {
        Some(f) => Some(FieldModel { width: f.width, height: f.height, cells: f.cells@ }),
        None => None,
    }
}

/// The contents of an edit.
pub enum EditModel {
    Height(SnapshotModel),
    Zones(Seq<ZoneModel>),
    Paint(PaintModel),
}

pub open spec fn entry_model(entry: UndoEntry) -> EditModel {
    match entry {
        UndoEntry::Height(s) => EditModel::Height(s@),
        UndoEntry::Zones(z) => EditModel::Zones(crate::zones::zone_models(z@)),
        UndoEntry::Paint(p) => EditModel::Paint(paint_model(p)),
    }
}

/// The contents of a stack of edits.
pub open spec fn timeline(entries: Seq<UndoEntry>) -> Seq<EditModel> {
    Seq::new(entries.len(), |i: int| entry_model(entries[i]))
}

/// Everything that edits change.
pub struct Canvas {
    pub field: Option<FieldModel>,
    pub zones: Seq<ZoneModel>,
    pub paint: PaintModel,
}

/// The canvas after an edit was taken back, and the edit that brings it back again.
pub open spec fn inverted(canvas: Canvas, edit: EditModel) -> (Canvas, EditModel) {
    match edit {
        EditModel::Height(snap) => match canvas.field {
            Some(f) => (
                Canvas {
                    field: Some(
                        FieldModel {
                            cells: super::snapshot::restored(f.cells, f.width as int, snap),
                            ..f
                        },
                    ),
                    ..canvas
                },
                EditModel::Height(
                    super::snapshot::captured(f.cells, f.width as int, snap.rect),
                ),
            ),
            None => (canvas, edit),
        },
        EditModel::Zones(zones) => (Canvas { zones, ..canvas }, EditModel::Zones(canvas.zones)),
        EditModel::Paint(paint) => (Canvas { paint, ..canvas }, EditModel::Paint(canvas.paint)),
    }
}

/// A stack with an edit on top, of which only the newest [`UNDO_CAP`] are kept.
pub open spec fn pushed(stack: Seq<EditModel>, edit: EditModel) -> Seq<EditModel> {
    let all = stack.push(edit);
    if all.len() > UNDO_CAP {
        all.skip(all.len() - UNDO_CAP)
    } else {
        all
    }
}

/// The paint grid is complete and registered to the field, where there is one.
pub open spec fn paint_matches(paint: PaintModel, field: Option<FieldModel>) -> bool {
    &&& paint.cells.len() == paint.width * paint.height
    &&& field matches Some(f) ==> paint.width == f.width && paint.height == f.height
}

/// A height edit or a paint edit matches the field that it belongs to.
pub open spec fn edit_fits(edit: EditModel, field: Option<FieldModel>) -> bool {
    match edit {
        EditModel::Height(snap) => field matches Some(f) && snap.fits(f.width, f.height),
        EditModel::Zones(_) => true,
        EditModel::Paint(paint) => paint_matches(paint, field),
    }
}

/// Every edit of the stack matches the field.
pub open spec fn edits_fit(stack: Seq<EditModel>, field: Option<FieldModel>) -> bool {
    forall|i: int| 0 <= i < stack.len() ==> edit_fits(#[trigger] stack[i], field)
}

/// The edit state of the workspace and the settings of its panel.
pub struct SculptState {
    pub field: Option<CellField>,
    pub zones: Vec<Zone>,
    pub paint: PaintGrid,
    /// Edits that can be undone, oldest first.
    pub undo: VecDeque<UndoEntry>,
    /// Edits that can be redone, oldest first.
    pub redo: VecDeque<UndoEntry>,
    /// Per-dab snapshots of the stroke in progress, each captured before its dab edits.
    pub active_stroke: Vec<RectSnapshot>,
    /// Export layers.
    pub layers: LayerStack,
    /// The texture has to be rebuilt.
    pub dirty: bool,
    /// The inclusive cell rectangle `(x0, x1, y0, y1)` that changed since the last render, or
    /// nothing when all of it has to be rebuilt.
    pub dirty_rect: Option<(u32, u32, u32, u32)>,
    pub tool: SculptTool,
    /// The last height brush picked.
    pub shape_tool: SculptTool,
    /// While set, the next click on the canvas reads a height into this field.
    pub armed_pick: Option<PickTarget>,
    /// Height that the Set and Flatten brushes work towards. This and the two levels below are
    /// meters above the floor, each the bit pattern of an `f32`.
    pub target_height: u32,
    /// Terrain at or below this height emits no bricks.
    pub omit_below: u32,
    /// Height of the plane that the build sits on.
    pub floor_level: u32,
    /// Editable color palette; slot 0 is the unpainted color.
    pub palette: Vec<[u8; 4]>,
    /// The palette index that is painted.
    pub active_swatch: u8,
    /// Side of the blocks that paint snaps to.
    pub splat_res: u32,
    pub paint_tool: PaintTool,
    /// Fill every matching cell instead of only the touched region.
    pub bucket_global: bool,
    /// Draw mode for new zones.
    pub zone_mode: ZoneMode,
    pub zone_style: ZoneStyle,
    /// Vertices of the loop that is being drawn.
    pub zone_draft: Vec<(i32, i32)>,
    pub new_w: u32,
    pub new_h: u32,
    pub output_name: String,
    pub out: OutputOptions,
    /// Build of micro bricks.
    pub micro: bool,
    pub tile_export: bool,
    pub tile_cells: u32,
    /// Snap heights to plateaus on export.
    pub terrace: bool,
    /// Largest brick that an export emits, in world units.
    pub max_brick_units: u16,
    pub slice_overlay: bool,
    /// Tile even a world that fits a single mesh.
    pub force_tile: bool,
    /// Memory that is free, as last read.
    pub available_ram: u64,
}

impl SculptState {
    /// Everything that edits change.
    pub open spec fn canvas(&self) -> Canvas {
        Canvas {
            field: field_model(self.field),
            zones: crate::zones::zone_models(self.zones@),
            paint: paint_model(self.paint),
        }
    }

    pub open spec fn undos(&self) -> Seq<EditModel> {
        timeline(self.undo@)
    }

    pub open spec fn redos(&self) -> Seq<EditModel> {
        timeline(self.redo@)
    }

    /// The timeline is bounded; its edits, the paint and the stroke in progress match the field; the
    /// active swatch is one of the palette; and the remembered brush is a height brush.
    pub open spec fn wf(&self) -> bool {
        &&& self.undo@.len() + self.redo@.len() <= UNDO_CAP
        &&& self.field matches Some(f) ==> f.wf()
        &&& paint_matches(paint_model(self.paint), field_model(self.field))
        &&& self.active_swatch < self.palette@.len() <= MAX_SWATCHES
        &&& self.shape_tool.its_mode() == SculptMode::Shape
        &&& edits_fit(self.undos(), field_model(self.field))
        &&& edits_fit(self.redos(), field_model(self.field))
        &&& match self.field {
            Some(f) => super::snapshot::all_fit(
                super::snapshot::snapshot_models(self.active_stroke@),
                f.width,
                f.height,
            ),
            None => self.active_stroke@.len() == 0,
        }
    }

    /// The settings of the panel are those of the other state.
    pub open spec fn same_panel(&self, other: &SculptState) -> bool {
        &&& self.layers == other.layers
        &&& self.tool == other.tool
        &&& self.shape_tool == other.shape_tool
        &&& self.armed_pick == other.armed_pick
        &&& self.target_height == other.target_height
        &&& self.omit_below == other.omit_below
        &&& self.floor_level == other.floor_level
        &&& self.palette == other.palette
        &&& self.active_swatch == other.active_swatch
        &&& self.splat_res == other.splat_res
        &&& self.paint_tool == other.paint_tool
        &&& self.bucket_global == other.bucket_global
        &&& self.zone_mode == other.zone_mode
        &&& self.zone_style == other.zone_style
        &&& self.new_w == other.new_w
        &&& self.new_h == other.new_h
        &&& self.output_name == other.output_name
        &&& self.out == other.out
        &&& self.micro == other.micro
        &&& self.tile_export == other.tile_export
        &&& self.tile_cells == other.tile_cells
        &&& self.terrace == other.terrace
        &&& self.max_brick_units == other.max_brick_units
        &&& self.slice_overlay == other.slice_overlay
        &&& self.force_tile == other.force_tile
        &&& self.available_ram == other.available_ram
    }

    /// The whole texture has to be rebuilt.
    pub open spec fn is_all_dirty(&self) -> bool {
        self.dirty && self.dirty_rect is None
    }

    /// A fresh workspace without a field.
    pub fn new() -> (state: Self)
        ensures
            state.wf(),
            state.field is None,
            state.zones@.len() == 0,
            state.paint.width == 0 && state.paint.height == 0 && state.paint.cells@.len() == 0,
            state.undo@.len() == 0,
            state.redo@.len() == 0,
            state.active_stroke@.len() == 0,
            state.layers.is_fresh(0),
            state.is_all_dirty(),
            state.tool == SculptTool::Raise,
            state.shape_tool == SculptTool::Raise,
            state.armed_pick is None,
            state.target_height == DEFAULT_TARGET_HEIGHT,
            state.omit_below == 0,
            state.floor_level == 0,
            state.palette@ == super::paint::starter_colors(),
            state.active_swatch == 1,
            state.splat_res == 1,
            state.paint_tool == PaintTool::Brush,
            !state.bucket_global,
            state.zone_mode == ZoneMode::Omit,
            state.zone_style == ZoneStyle::Lasso,
            state.zone_draft@.len() == 0,
            state.new_w == DEFAULT_CANVAS,
            state.new_h == DEFAULT_CANVAS,
            state.output_name@ == "sculpt"@,
            state.out == (OutputOptions {
                brdb: true,
                brz: false,
                install_to_brickadia: true,
                overwrite: false,
                skip_floor: true,
            }),
            !state.micro,
            !state.tile_export,
            state.tile_cells == DEFAULT_TILE_CELLS,
            !state.terrace,
            state.max_brick_units == 250,
            !state.slice_overlay,
            !state.force_tile,
            state.available_ram == u64::MAX,
    {
        SculptState {
            field: None,
            zones: Vec::new(),
            paint: PaintGrid::blank(0, 0),
            undo: VecDeque::new(),
            redo: VecDeque::new(),
            active_stroke: Vec::new(),
            layers: LayerStack::new(0, 0),
            dirty: true,
            dirty_rect: None,
            tool: SculptTool::Raise,
            shape_tool: SculptTool::Raise,
            armed_pick: None,
            target_height: DEFAULT_TARGET_HEIGHT,
            omit_below: 0,
            floor_level: 0,
            palette: default_palette(),
            active_swatch: 1,
            splat_res: 1,
            paint_tool: PaintTool::Brush,
            bucket_global: false,
            zone_mode: ZoneMode::Omit,
            zone_style: ZoneStyle::Lasso,
            zone_draft: Vec::new(),
            new_w: DEFAULT_CANVAS,
            new_h: DEFAULT_CANVAS,
            output_name: "sculpt".to_owned(),
            out: OutputOptions::default(),
            micro: false,
            tile_export: false,
            tile_cells: DEFAULT_TILE_CELLS,
            terrace: false,
            max_brick_units: 250,
            slice_overlay: false,
            force_tile: false,
            available_ram: u64::MAX,
        }
    }
}

/// A copy of a list of zones.
fn copy_zones(zones: &Vec<Zone>) -> (copy: Vec<Zone>)
    ensures
        crate::zones::zone_models(copy@) == crate::zones::zone_models(zones@),
{
    let mut copy: Vec<Zone> = Vec::new();
    let ghost models: Seq<ZoneModel> = crate::zones::zone_models(zones@);
    let mut i: usize = 0;
    while i < zones.len()
        invariant
            models == crate::zones::zone_models(zones@),
            i <= zones@.len(),
            copy@.len() == i,
            forall|j: int| 0 <= j < i ==> (#[trigger] copy@[j])@ == models[j],
        decreases zones@.len() - i,
    {
        let zone: &Zone = &zones[i];
        let mut polygon: Vec<(i32, i32)> = Vec::new();
        let mut k: usize = 0;
        while k < zone.polygon.len()
            invariant
                k <= zone.polygon@.len(),
                polygon@ == zone.polygon@.take(k as int),
            decreases zone.polygon@.len() - k,
        {
            polygon.push(zone.polygon[k]);
            k = k + 1;
            assert(zone.polygon@.take(k as int) =~= zone.polygon@.take(k - 1).push(
                zone.polygon@[k - 1],
            ));
        }
        assert(zone.polygon@.take(k as int) =~= zone.polygon@);
        copy.push(Zone { mode: zone.mode, polygon });
        i = i + 1;
    }
    assert(crate::zones::zone_models(copy@) =~= models);
    copy
}

/// A copy of a paint grid.
fn copy_paint(grid: &PaintGrid) -> (copy: PaintGrid)
    ensures
        paint_model(copy) == paint_model(*grid),
{
    let mut cells: Vec<u8> = Vec::new();
    let mut i: usize = 0;
    while i < grid.cells.len()
        invariant
            i <= grid.cells@.len(),
            cells@ == grid.cells@.take(i as int),
        decreases grid.cells@.len() - i,
    {
        cells.push(grid.cells[i]);
        i = i + 1;
        assert(grid.cells@.take(i as int) =~= grid.cells@.take(i - 1).push(grid.cells@[i - 1]));
    }
    assert(grid.cells@.take(i as int) =~= grid.cells@);
    PaintGrid { width: grid.width, height: grid.height, cells }
}

/// Put an edit on a stack, and drop the oldest one when there are too many.
fn push_edit(stack: &mut VecDeque<UndoEntry>, entry: UndoEntry)
    requires
        old(stack)@.len() <= UNDO_CAP,
    ensures
        timeline(final(stack)@) == pushed(timeline(old(stack)@), entry_model(entry)),
        final(stack)@.len() <= UNDO_CAP,
        final(stack)@.len() <= old(stack)@.len() + 1,
{
    let ghost was: Seq<UndoEntry> = stack@;
    stack.push_back(entry);
    assert(timeline(stack@) =~= timeline(was).push(entry_model(entry)));
    if stack.len() > UNDO_CAP {
        let ghost all: Seq<UndoEntry> = stack@;
        let _oldest: Option<UndoEntry> = stack.pop_front();
        assert(timeline(stack@) =~= timeline(all).skip(1));
    }
}

proof fn lemma_pushed_fits(stack: Seq<EditModel>, edit: EditModel, field: Option<FieldModel>)
    requires
        edits_fit(stack, field),
        edit_fits(edit, field),
    ensures
        edits_fit(pushed(stack, edit), field),
{
    let all = stack.push(edit);
    assert forall|i: int| 0 <= i < all.len() implies edit_fits(#[trigger] all[i], field) by {
        if i < stack.len() {
            assert(all[i] == stack[i]);
        }
    }
    let kept = pushed(stack, edit);
    assert forall|i: int| 0 <= i < kept.len() implies edit_fits(#[trigger] kept[i], field) by {
        if all.len() > UNDO_CAP {
            assert(kept[i] == all[i + (all.len() - UNDO_CAP)]);
        }
    }
}

impl SculptState {
    /// Snapshot the current zones onto the undo stack before a zone mutation,
    /// clearing redo (same discipline as a height stroke commit). Bounded by the
    /// shared [`UNDO_CAP`].
    pub fn record_zone_edit(&mut self)
        requires
            old(self).wf(),
        ensures
            final(self).wf(),
            *final(self) == (SculptState {
                undo: final(self).undo,
                redo: final(self).redo,
                ..*old(self)
            }),
            final(self).undos() == pushed(
                old(self).undos(),
                EditModel::Zones(old(self).canvas().zones),
            ),
            final(self).redos().len() == 0,
    {
        let zones: Vec<Zone> = copy_zones(&self.zones);
        proof {
            lemma_pushed_fits(
                self.undos(),
                EditModel::Zones(self.canvas().zones),
                field_model(self.field),
            );
        }
        push_edit(&mut self.undo, UndoEntry::Zones(zones));
        self.redo.clear();
    }

    /// Snapshot the whole paint grid onto the undo stack before a paint stroke,
    /// clearing redo (same discipline as a height/zone commit). Bounded by the
    /// shared [`UNDO_CAP`].
    pub fn record_paint_edit(&mut self)
        requires
            old(self).wf(),
        ensures
            final(self).wf(),
            *final(self) == (SculptState {
                undo: final(self).undo,
                redo: final(self).redo,
                ..*old(self)
            }),
            final(self).undos() == pushed(
                old(self).undos(),
                EditModel::Paint(old(self).canvas().paint),
            ),
            final(self).redos().len() == 0,
    {
        let paint: PaintGrid = copy_paint(&self.paint);
        proof {
            lemma_pushed_fits(
                self.undos(),
                EditModel::Paint(self.canvas().paint),
                field_model(self.field),
            );
        }
        push_edit(&mut self.undo, UndoEntry::Paint(paint));
        self.redo.clear();
    }

    /// The zones were edited from `old`: the timeline notes it, and nothing else changed but the
    /// loop that is being drawn.
    pub open spec fn zones_edited(&self, old: &SculptState, zones: Seq<ZoneModel>) -> bool {
        &&& *self == (SculptState {
            zones: self.zones,
            zone_draft: self.zone_draft,
            undo: self.undo,
            redo: self.redo,
            ..*old
        })
        &&& crate::zones::zone_models(self.zones@) == zones
        &&& self.undos() == pushed(old.undos(), EditModel::Zones(old.canvas().zones))
        &&& self.redos().len() == 0
    }

    /// Append a freedraw zone (undoable).
    pub fn add_zone(&mut self, zone: Zone)
        requires
            old(self).wf(),
        ensures
            final(self).wf(),
            final(self).zones_edited(old(self), old(self).canvas().zones.push(zone@)),
            final(self).zone_draft == old(self).zone_draft,
    {
        self.record_zone_edit();
        let ghost was: Seq<Zone> = self.zones@;
        self.zones.push(zone);
        assert(crate::zones::zone_models(self.zones@) =~= crate::zones::zone_models(was).push(
            zone@,
        ));
    }

    /// Delete the zone at `idx` (undoable); no-op if out of range.
    pub fn delete_zone(&mut self, idx: usize)
        requires
            old(self).wf(),
        ensures
            final(self).wf(),
            idx >= old(self).zones@.len() ==> *final(self) == *old(self),
            idx < old(self).zones@.len() ==> final(self).zones_edited(
                old(self),
                old(self).canvas().zones.remove(idx as int),
            ),
            final(self).zone_draft == old(self).zone_draft,
    {
        if idx < self.zones.len() {
            let ghost models: Seq<ZoneModel> = self.canvas().zones;
            self.record_zone_edit();
            assert(self.canvas().zones == models);
            assert(self.zones@.len() == models.len());
            let _gone: Zone = self.zones.remove(idx);
            assert(crate::zones::zone_models(self.zones@) =~= models.remove(idx as int));
        }
    }

    /// Drop every zone (undoable); no-op if already empty (so it never pushes an
    /// empty no-op entry onto the history).
    pub fn clear_zones(&mut self)
        requires
            old(self).wf(),
        ensures
            final(self).wf(),
            old(self).zones@.len() == 0 ==> *final(self) == *old(self),
            old(self).zones@.len() > 0 ==> final(self).zones_edited(old(self), Seq::empty()),
            final(self).zone_draft == old(self).zone_draft,
    {
        if self.zones.len() > 0 {
            self.record_zone_edit();
            self.zones.clear();
            assert(crate::zones::zone_models(self.zones@) =~= Seq::<ZoneModel>::empty());
        }
    }

    /// A drawn loop became a zone of `old`, or was discarded where it has fewer than 3 vertices.
    pub open spec fn draft_committed(&self, old: &SculptState, draft: Seq<(i32, i32)>) -> bool {
        &&& *self == (SculptState {
            zones: self.zones,
            zone_draft: self.zone_draft,
            undo: self.undo,
            redo: self.redo,
            ..*old
        })
        &&& self.zone_draft@.len() == 0
        &&& if draft.len() < 3 {
            &&& self.zones == old.zones
            &&& self.undo == old.undo
            &&& self.redo == old.redo
        } else {
            self.zones_edited(
                old,
                old.canvas().zones.push(ZoneModel { mode: old.zone_mode, polygon: draft }),
            )
        }
    }

    /// Close the in-progress draft into a committed (undoable) zone, or discard it if
    /// it has fewer than 3 vertices (a degenerate loop encloses nothing).
    pub fn commit_zone_draft(&mut self)
        requires
            old(self).wf(),
        ensures
            final(self).wf(),
            final(self).draft_committed(old(self), old(self).zone_draft@),
    {
        let mut polygon: Vec<(i32, i32)> = Vec::new();
        std::mem::swap(&mut polygon, &mut self.zone_draft);
        if polygon.len() >= 3 {
            let mode: ZoneMode = self.zone_mode;
            self.add_zone(Zone { mode, polygon });
        }
    }

    /// Mark a cell rect (inclusive `x0,x1,y0,y1`) changed since the last render,
    /// unioning into any pending sub-rect, and flag the texture dirty. If a full
    /// rebuild is already pending it stays full.
    pub fn mark_dirty_rect(&mut self, rect: (u32, u32, u32, u32))
        ensures
            *final(self) == (SculptState {
                dirty: true,
                dirty_rect: dirtied(old(self).dirty, old(self).dirty_rect, rect),
                ..*old(self)
            }),
    {
        let pending_full: bool = self.dirty && self.dirty_rect.is_none();
        self.dirty = true;
        if pending_full {
            return;
        }
        self.dirty_rect = Some(
            match self.dirty_rect {
                None => rect,
                Some(cur) => (
                    if cur.0 < rect.0 {
                        cur.0
                    } else {
                        rect.0
                    },
                    if cur.1 > rect.1 {
                        cur.1
                    } else {
                        rect.1
                    },
                    if cur.2 < rect.2 {
                        cur.2
                    } else {
                        rect.2
                    },
                    if cur.3 > rect.3 {
                        cur.3
                    } else {
                        rect.3
                    },
                ),
            },
        );
    }

    /// Flag the whole texture for a full rebuild on the next render — for
    /// non-local changes (undo/redo, load) where a sub-rect cannot describe what
    /// moved.
    pub fn mark_dirty_all(&mut self)
        ensures
            *final(self) == (SculptState { dirty: true, dirty_rect: None, ..*old(self) }),
    {
        self.dirty = true;
        self.dirty_rect = None;
    }
}

/// The rectangle that has to be rendered again after one more rectangle changed.
pub open spec fn dirtied(
    dirty: bool,
    pending: Option<(u32, u32, u32, u32)>,
    rect: (u32, u32, u32, u32),
) -> Option<(u32, u32, u32, u32)> {
    match pending {
        None => if dirty {
            None
        } else {
            Some(rect)
        },
        Some(cur) => Some(covering(cur, rect)),
    }
}

/// The inclusive rectangle `(x0, x1, y0, y1)` that covers two others.
pub open spec fn covering(a: (u32, u32, u32, u32), b: (u32, u32, u32, u32)) -> (
    u32,
    u32,
    u32,
    u32,
) {
    (
        if a.0 < b.0 {
            a.0
        } else {
            b.0
        },
        if a.1 > b.1 {
            a.1
        } else {
            b.1
        },
        if a.2 < b.2 {
            a.2
        } else {
            b.2
        },
        if a.3 > b.3 {
            a.3
        } else {
            b.3
        },
    )
}

impl SculptState {
    /// Load a field into the workspace, resetting history and everything that is tied to the cells:
    /// paint, layers, zones. `micro` is the brick size that comes with the field.
    pub fn set_field(&mut self, field: CellField, micro: bool)
        requires
            old(self).wf(),
            field.wf(),
        ensures
            final(self).wf(),
            *final(self) == (SculptState {
                field: Some(field),
                micro,
                dirty: true,
                dirty_rect: None,
                paint: final(self).paint,
                layers: final(self).layers,
                undo: final(self).undo,
                redo: final(self).redo,
                active_stroke: final(self).active_stroke,
                zones: final(self).zones,
                zone_draft: final(self).zone_draft,
                ..*old(self)
            }),
            final(self).paint.width == field.width,
            final(self).paint.height == field.height,
            final(self).paint.cells@ == Seq::new(
                (field.width * field.height) as nat,
                |i: int| 0u8,
            ),
            final(self).layers.is_fresh(field.width * field.height),
            final(self).undo@.len() == 0,
            final(self).redo@.len() == 0,
            final(self).active_stroke@.len() == 0,
            final(self).zones@.len() == 0,
            final(self).zone_draft@.len() == 0,
    {
        assert(field.cells.len() <= usize::MAX);
        self.micro = micro;
        self.paint = PaintGrid::blank(field.width, field.height);
        self.layers = LayerStack::new(field.width, field.height);
        self.field = Some(field);
        self.mark_dirty_all();
        self.undo.clear();
        self.redo.clear();
        self.active_stroke.clear();
        self.zones.clear();
        self.zone_draft.clear();
    }

    /// Capture a dab's own pre-edit rect and append it to the in-progress
    /// stroke's per-dab snapshot list. Call it BEFORE the dab edits the field, so each
    /// snapshot holds the field values immediately prior to that dab.
    pub fn extend_stroke_snapshot(&mut self, rect: CellRect)
        requires
            old(self).wf(),
            old(self).field matches Some(f) && rect.fits(f.width, f.height),
        ensures
            final(self).wf(),
            *final(self) == (SculptState {
                active_stroke: final(self).active_stroke,
                ..*old(self)
            }),
            super::snapshot::snapshot_models(final(self).active_stroke@)
                == super::snapshot::snapshot_models(old(self).active_stroke@).push(
                super::snapshot::captured(
                    old(self).field->0.cells@,
                    old(self).field->0.width as int,
                    rect,
                ),
            ),
    {
        if let Some(field) = &self.field {
            let snap: RectSnapshot = RectSnapshot::capture(field, rect);
            let ghost was: Seq<RectSnapshot> = self.active_stroke@;
            let ghost models: Seq<SnapshotModel> = super::snapshot::snapshot_models(was);
            self.active_stroke.push(snap);
            proof {
                let now = super::snapshot::snapshot_models(self.active_stroke@);
                assert(now =~= models.push(snap@));
                assert forall|i: int| 0 <= i < now.len() implies (#[trigger] now[i]).fits(
                    old(self).field->0.width,
                    old(self).field->0.height,
                ) by {
                    if i < models.len() {
                        assert(now[i] == models[i]);
                    }
                }
            }
        }
    }

    /// The snapshot of the stroke in progress.
    pub open spec fn stroke_snapshot(&self) -> SnapshotModel {
        let dabs = super::snapshot::snapshot_models(self.active_stroke@);
        super::snapshot::collapsed(
            self.canvas().field->0.cells,
            self.canvas().field->0.width as int,
            super::snapshot::bound(dabs),
            dabs,
        )
    }

    /// Collapse the in-progress stroke's per-dab snapshots into one
    /// (over the bounding rect of every dab) and commit it to the undo history.
    pub fn commit_stroke(&mut self)
        requires
            old(self).wf(),
        ensures
            final(self).wf(),
            final(self).active_stroke@.len() == 0,
            *final(self) == (SculptState {
                active_stroke: final(self).active_stroke,
                undo: final(self).undo,
                redo: final(self).redo,
                ..*old(self)
            }),
            old(self).active_stroke@.len() == 0 ==> final(self).undos() == old(self).undos()
                && final(self).redos() == old(self).redos(),
            old(self).active_stroke@.len() > 0 ==> final(self).undos() == pushed(
                old(self).undos(),
                EditModel::Height(old(self).stroke_snapshot()),
            ) && final(self).redos().len() == 0,
    {
        if let Some(field) = &self.field {
            if let Some(snap) = collapse_stroke_snapshots(field, &self.active_stroke) {
                proof {
                    lemma_pushed_fits(
                        self.undos(),
                        EditModel::Height(snap@),
                        field_model(self.field),
                    );
                }
                push_edit(&mut self.undo, UndoEntry::Height(snap));
                self.redo.clear();
            }
        }
        self.active_stroke.clear();
    }

    /// Apply one history entry and return the inverse entry (to push onto
    /// the opposite stack). Shared by undo and redo — the operation is its own
    /// inverse, so the only difference between the two is which stack is the source.
    fn invert_entry(&mut self, entry: UndoEntry) -> (inverse: UndoEntry)
        requires
            old(self).field matches Some(f) ==> f.wf(),
            paint_matches(paint_model(old(self).paint), field_model(old(self).field)),
            edit_fits(entry_model(entry), field_model(old(self).field)),
        ensures
            final(self).field matches Some(f) ==> f.wf(),
            paint_matches(paint_model(final(self).paint), field_model(final(self).field)),
            (final(self).canvas(), entry_model(inverse)) == inverted(
                old(self).canvas(),
                entry_model(entry),
            ),
            edit_fits(entry_model(inverse), field_model(final(self).field)),
            same_dims(field_model(final(self).field), field_model(old(self).field)),
            *final(self) == (SculptState {
                field: final(self).field,
                zones: final(self).zones,
                paint: final(self).paint,
                dirty: final(self).dirty,
                dirty_rect: final(self).dirty_rect,
                ..*old(self)
            }),
            entry is Zones ==> final(self).dirty == old(self).dirty && final(self).dirty_rect
                == old(self).dirty_rect,
            !(entry is Zones) ==> final(self).is_all_dirty(),
    {
        match entry {
            UndoEntry::Height(snap) => {
                let inverse: RectSnapshot = swap_heights(&mut self.field, snap);
                self.mark_dirty_all();
                UndoEntry::Height(inverse)
            },
            UndoEntry::Zones(prev) => {
                let mut zones: Vec<Zone> = prev;
                std::mem::swap(&mut zones, &mut self.zones);
                UndoEntry::Zones(zones)
            },
            UndoEntry::Paint(prev) => {
                let mut paint: PaintGrid = prev;
                std::mem::swap(&mut paint, &mut self.paint);
                self.mark_dirty_all();
                UndoEntry::Paint(paint)
            },
        }
    }

    /// Take the newest edit back; it can then be redone.
    pub fn do_undo(&mut self)
        requires
            old(self).wf(),
        ensures
            final(self).wf(),
            final(self).same_panel(old(self)),
            final(self).zone_draft == old(self).zone_draft,
            final(self).active_stroke@ == old(self).active_stroke@,
            old(self).undo@.len() == 0 ==> *final(self) == *old(self),
            old(self).undo@.len() > 0 ==> {
                let (canvas, inverse) = inverted(old(self).canvas(), old(self).undos().last());
                &&& final(self).canvas() == canvas
                &&& final(self).undos() == old(self).undos().drop_last()
                &&& final(self).redos() == old(self).redos().push(inverse)
                &&& !(old(self).undos().last() is Zones) ==> final(self).is_all_dirty()
                &&& old(self).undos().last() is Zones ==> final(self).dirty == old(self).dirty
                    && final(self).dirty_rect == old(self).dirty_rect
            },
    {
        if self.undo.len() == 0 {
            return;
        }
        let ghost was: Seq<EditModel> = self.undos();
        let ghost before: Option<FieldModel> = self.canvas().field;
        if let Some(entry) = self.undo.pop_back() {
            proof {
                assert(was.last() == entry_model(entry));
                assert(edit_fits(was[was.len() - 1], before));
                assert(timeline(self.undo@) =~= was.drop_last());
            }
            let inverse: UndoEntry = self.invert_entry(entry);
            proof {
                let after = self.canvas().field;
                lemma_fits_same_dims(was.drop_last(), before, after);
                lemma_fits_same_dims(self.redos(), before, after);
                lemma_pushed_fits(self.redos(), entry_model(inverse), after);
            }
            push_edit(&mut self.redo, inverse);
        }
    }

    /// Bring the last undone edit back; it can then be undone.
    pub fn do_redo(&mut self)
        requires
            old(self).wf(),
        ensures
            final(self).wf(),
            final(self).same_panel(old(self)),
            final(self).zone_draft == old(self).zone_draft,
            final(self).active_stroke@ == old(self).active_stroke@,
            old(self).redo@.len() == 0 ==> *final(self) == *old(self),
            old(self).redo@.len() > 0 ==> {
                let (canvas, inverse) = inverted(old(self).canvas(), old(self).redos().last());
                &&& final(self).canvas() == canvas
                &&& final(self).redos() == old(self).redos().drop_last()
                &&& final(self).undos() == old(self).undos().push(inverse)
                &&& !(old(self).redos().last() is Zones) ==> final(self).is_all_dirty()
                &&& old(self).redos().last() is Zones ==> final(self).dirty == old(self).dirty
                    && final(self).dirty_rect == old(self).dirty_rect
            },
    {
        if self.redo.len() == 0 {
            return;
        }
        let ghost was: Seq<EditModel> = self.redos();
        let ghost before: Option<FieldModel> = self.canvas().field;
        if let Some(entry) = self.redo.pop_back() {
            proof {
                assert(was.last() == entry_model(entry));
                assert(edit_fits(was[was.len() - 1], before));
                assert(timeline(self.redo@) =~= was.drop_last());
            }
            let inverse: UndoEntry = self.invert_entry(entry);
            proof {
                let after = self.canvas().field;
                lemma_fits_same_dims(was.drop_last(), before, after);
                lemma_fits_same_dims(self.undos(), before, after);
                lemma_pushed_fits(self.undos(), entry_model(inverse), after);
            }
            push_edit(&mut self.undo, inverse);
        }
    }
}

/// Put the cells of a snapshot back into the field and hand out those that stood there.
pub(crate) fn swap_heights(field: &mut Option<CellField>, snap: RectSnapshot) -> (prior: RectSnapshot)
    requires
        (*old(field)) matches Some(f) && f.wf() && snap@.fits(f.width, f.height),
    ensures
        (*final(field)) is Some,
        (*final(field))->0.wf(),
        (*final(field))->0.width == (*old(field))->0.width,
        (*final(field))->0.height == (*old(field))->0.height,
        (*final(field))->0.cells@ == super::snapshot::restored(
            (*old(field))->0.cells@,
            (*old(field))->0.width as int,
            snap@,
        ),
        prior@ == super::snapshot::captured(
            (*old(field))->0.cells@,
            (*old(field))->0.width as int,
            snap@.rect,
        ),
        prior@.fits((*old(field))->0.width, (*old(field))->0.height),
{
    let mut taken: Option<CellField> = None;
    std::mem::swap(&mut taken, field);
    match taken {
        Some(f) => {
            let mut f: CellField = f;
            let prior: RectSnapshot = snap.restore_into(&mut f);
            *field = Some(f);
            prior
        },
        None => snap,
    }
}

/// Both fields are missing, or have the same size.
pub open spec fn same_dims(a: Option<FieldModel>, b: Option<FieldModel>) -> bool {
    match (a, b) {
        (Some(f), Some(g)) => f.width == g.width && f.height == g.height,
        (None, None) => true,
        _ => false,
    }
}

pub(crate) proof fn lemma_fits_same_dims(
    stack: Seq<EditModel>,
    a: Option<FieldModel>,
    b: Option<FieldModel>,
)
    requires
        same_dims(b, a),
        forall|i: int| 0 <= i < stack.len() ==> edit_fits(#[trigger] stack[i], a),
    ensures
        edits_fit(stack, b),
{
    assert forall|i: int| 0 <= i < stack.len() implies edit_fits(#[trigger] stack[i], b) by {
        assert(edit_fits(stack[i], a));
    }
}

/// Undo and redo are inverse: taking an edit back and bringing it back gives the canvas and the
/// edit as they were.
pub proof fn undo_and_redo_are_inverse(canvas: Canvas, edit: EditModel)
    requires
        canvas.field matches Some(f) ==> f.cells.len() == f.width * f.height,
        edit_fits(edit, canvas.field),
    ensures
        inverted(inverted(canvas, edit).0, inverted(canvas, edit).1) == (canvas, edit),
{
    if let EditModel::Height(snap) = edit {
        let f = canvas.field->0;
        super::snapshot::restore_is_its_own_inverse(f.cells, f.width, f.height, snap);
    }
}

/// Undoing a recorded edit gives the canvas from before it, whichever kind it is: an edit of the
/// zones, an edit of the paint, or a height stroke of which `fields` are the fields before and after
/// each dab.
pub proof fn recorded_edits_are_undone(
    canvas: Canvas,
    zones: Seq<ZoneModel>,
    paint: PaintModel,
    fields: Seq<Seq<u32>>,
    dabs: Seq<SnapshotModel>,
)
    requires
        canvas.field matches Some(f) && super::snapshot::is_stroke(
            fields,
            f.width,
            f.height,
            dabs,
        ) && fields[0] == f.cells,
        dabs.len() > 0,
    ensures
        inverted(Canvas { zones, ..canvas }, EditModel::Zones(canvas.zones)).0 == canvas,
        inverted(Canvas { paint, ..canvas }, EditModel::Paint(canvas.paint)).0 == canvas,
        inverted(
            Canvas {
                field: Some(FieldModel { cells: fields.last(), ..canvas.field->0 }),
                ..canvas
            },
            EditModel::Height(
                super::snapshot::collapsed(
                    fields.last(),
                    canvas.field->0.width as int,
                    super::snapshot::bound(dabs),
                    dabs,
                ),
            ),
        ).0 == canvas,
{
    let f = canvas.field->0;
    super::snapshot::stroke_undo_is_exact(fields, f.width, f.height, dabs);
}

/// The canvas after the newest `n` edits of a stack were undone.
pub open spec fn undone(canvas: Canvas, undos: Seq<EditModel>, n: nat) -> Canvas
    decreases n,
{
    if n == 0 {
        canvas
    } else {
        undone(inverted(canvas, undos.last()).0, undos.drop_last(), (n - 1) as nat)
    }
}

/// The canvases before and after each edit of a stack: undoing an edit gives the canvas before it.
pub open spec fn is_history(canvases: Seq<Canvas>, undos: Seq<EditModel>) -> bool {
    &&& canvases.len() == undos.len() + 1
    &&& forall|i: int|
        0 <= i < undos.len() ==> inverted(canvases[i + 1], #[trigger] undos[i]).0 == canvases[i]
}

/// Undo walks back through whatever was done last, in order: after `n` undos the canvas is the one
/// from before the newest `n` edits, whatever kinds of edits they are.
pub proof fn undo_walks_back(canvases: Seq<Canvas>, undos: Seq<EditModel>, n: nat)
    requires
        is_history(canvases, undos),
        n <= undos.len(),
    ensures
        undone(canvases.last(), undos, n) == canvases[undos.len() - n],
    decreases n,
{
    if n > 0 {
        let last = undos.len() - 1;
        let before = canvases.drop_last();
        let fewer = undos.drop_last();
        assert(inverted(canvases[last + 1], undos[last]).0 == canvases[last]);
        assert forall|i: int| 0 <= i < fewer.len() implies inverted(
            before[i + 1],
            #[trigger] fewer[i],
        ).0 == before[i] by {
            assert(fewer[i] == undos[i]);
        }
        undo_walks_back(before, fewer, (n - 1) as nat);
    }
}

/// An inclusive rectangle grown by `pad` cells on every side and kept inside a field of `fw × fh`
/// cells.
pub open spec fn expanded(rect: (u32, u32, u32, u32), pad: u32, fw: u32, fh: u32) -> (
    u32,
    u32,
    u32,
    u32,
) {
    (
        if rect.0 > pad {
            (rect.0 - pad) as u32
        } else {
            0
        },
        if rect.1 + pad < fw - 1 {
            (rect.1 + pad) as u32
        } else {
            (fw - 1) as u32
        },
        if rect.2 > pad {
            (rect.2 - pad) as u32
        } else {
            0
        },
        if rect.3 + pad < fh - 1 {
            (rect.3 + pad) as u32
        } else {
            (fh - 1) as u32
        },
    )
}

/// Expand an inclusive cell rect by `pad` cells on every side, clamped to the
/// field bounds `[0, fw-1] × [0, fh-1]`.
pub fn expand_rect(rect: (u32, u32, u32, u32), pad: u32, fw: u32, fh: u32) -> (grown: (
    u32,
    u32,
    u32,
    u32,
))
    requires
        fw > 0,
        fh > 0,
        rect.1 + pad <= u32::MAX,
        rect.3 + pad <= u32::MAX,
    ensures
        grown == expanded(rect, pad, fw, fh),
{
    let (x0, x1, y0, y1) = rect;
    (
        x0.saturating_sub(pad),
        if x1 + pad < fw - 1 {
            x1 + pad
        } else {
            fw - 1
        },
        y0.saturating_sub(pad),
        if y1 + pad < fh - 1 {
            y1 + pad
        } else {
            fh - 1
        },
    )
}

/// The history keeps the newest 32 edits, in order: a recorded edit is the newest, and of the others only
/// the oldest goes when there are too many.
pub proof fn history_keeps_the_newest_edits(stack: Seq<EditModel>, edit: EditModel, i: int)
    requires
        stack.len() <= 32,
        0 <= i < stack.len(),
    ensures
        pushed(stack, edit).last() == edit,
        stack.len() < 32 ==> pushed(stack, edit).len() == stack.len() + 1,
        stack.len() < 32 ==> pushed(stack, edit)[i] == stack[i],
        stack.len() == 32 ==> pushed(stack, edit).len() == 32,
        stack.len() == 32 && i > 0 ==> pushed(stack, edit)[i - 1] == stack[i],
{
}

/// An inclusive rectangle `(x0, x1, y0, y1)` holds the cell.
pub open spec fn holds_cell(rect: (u32, u32, u32, u32), x: int, y: int) -> bool {
    rect.0 <= x <= rect.1 && rect.2 <= y <= rect.3
}

/// What has changed is rendered again: a changed cell lies in the rectangle to render, as does one that
/// was to be rendered before, and a rectangle that holds both changes holds the one to render. Where all
/// is to be rendered, it stays that way.
pub proof fn changes_are_rendered_again(
    dirty: bool,
    pending: Option<(u32, u32, u32, u32)>,
    rect: (u32, u32, u32, u32),
    x: int,
    y: int,
    outer: (u32, u32, u32, u32),
)
    ensures
        dirty && pending is None ==> dirtied(dirty, pending, rect) is None,
        !dirty && pending is None ==> dirtied(dirty, pending, rect) == Some(rect),
        pending matches Some(cur) ==> dirtied(dirty, pending, rect) is Some && {
            let now = dirtied(dirty, pending, rect)->0;
            &&& holds_cell(rect, x, y) ==> holds_cell(now, x, y)
            &&& holds_cell(cur, x, y) ==> holds_cell(now, x, y)
            &&& outer.0 <= cur.0 && outer.0 <= rect.0 ==> outer.0 <= now.0
            &&& cur.1 <= outer.1 && rect.1 <= outer.1 ==> now.1 <= outer.1
            &&& outer.2 <= cur.2 && outer.2 <= rect.2 ==> outer.2 <= now.2
            &&& cur.3 <= outer.3 && rect.3 <= outer.3 ==> now.3 <= outer.3
        },
{
}

/// A rectangle that is grown holds the cells of the field that lie within the padding of it and no others.
pub proof fn grown_rectangles_hold_the_padding(
    rect: (u32, u32, u32, u32),
    pad: u32,
    fw: u32,
    fh: u32,
    x: int,
    y: int,
)
    requires
        0 <= x < fw,
        0 <= y < fh,
        rect.1 + pad <= u32::MAX,
        rect.3 + pad <= u32::MAX,
    ensures
        holds_cell(expanded(rect, pad, fw, fh), x, y) <==> rect.0 - pad <= x <= rect.1 + pad && rect.2
            - pad <= y <= rect.3 + pad,
        expanded(rect, pad, fw, fh).1 < fw,
        expanded(rect, pad, fw, fh).3 < fh,
{
}

/// A loop that was drawn becomes a zone of the chosen mode on top of the others where it has at least
/// three vertices, and changes nothing otherwise; either way the draft is gone.
pub proof fn drawn_loops_become_zones(
    now: &SculptState,
    old: &SculptState,
    draft: Seq<(i32, i32)>,
)
    requires
        now.draft_committed(old, draft),
    ensures
        now.zone_draft@.len() == 0,
        now.field == old.field,
        now.paint == old.paint,
        draft.len() < 3 ==> now.zones == old.zones && now.undo == old.undo,
        draft.len() >= 3 ==> {
            &&& now.zones@.len() == old.zones@.len() + 1
            &&& now.zones@.last().mode == old.zone_mode
            &&& now.zones@.last().polygon@ == draft
            &&& forall|i: int|
                0 <= i < old.zones@.len() ==> (#[trigger] now.zones@[i]).mode == old.zones@[i].mode
                    && now.zones@[i].polygon@ == old.zones@[i].polygon@
            &&& now.undos().last() == EditModel::Zones(crate::zones::zone_models(old.zones@))
        },
{
    if draft.len() >= 3 {
        let models = crate::zones::zone_models(now.zones@);
        let was = crate::zones::zone_models(old.zones@);
        assert(models == was.push(ZoneModel { mode: old.zone_mode, polygon: draft }));
        assert(models.len() == now.zones@.len());
        assert(models[now.zones@.len() - 1] == now.zones@.last()@);
        assert forall|i: int| 0 <= i < old.zones@.len() implies (#[trigger] now.zones@[i]).mode
            == old.zones@[i].mode && now.zones@[i].polygon@ == old.zones@[i].polygon@ by {
            assert(models[i] == now.zones@[i]@);
            assert(was[i] == old.zones@[i]@);
        }
    }
}

/// Taking an edit back touches nothing but what the edit is about.
pub proof fn undo_touches_what_the_edit_is_about(canvas: Canvas, edit: EditModel)
    ensures
        ({
            let (back, other) = inverted(canvas, edit);
            &&& !(edit is Height) ==> back.field == canvas.field
            &&& !(edit is Zones) ==> back.zones == canvas.zones
            &&& !(edit is Paint) ==> back.paint == canvas.paint
            &&& edit matches EditModel::Zones(zones) ==> back.zones == zones && other
                == EditModel::Zones(canvas.zones)
            &&& edit matches EditModel::Paint(paint) ==> back.paint == paint && other
                == EditModel::Paint(canvas.paint)
        }),
{
}

/// An edit of the zones can be taken back: the newest edit of the history brings the zones from before back,
/// and the terrain and the paint stay as they are.
pub proof fn zone_edits_can_be_taken_back(
    now: &SculptState,
    old: &SculptState,
    zones: Seq<ZoneModel>,
)
    requires
        now.zones_edited(old, zones),
    ensures
        now.undos().len() > 0,
        now.canvas().zones == zones,
        inverted(now.canvas(), now.undos().last()).0 == old.canvas(),
        now.redo@.len() == 0,
{
    let all = old.undos().push(EditModel::Zones(old.canvas().zones));
    assert(pushed(old.undos(), EditModel::Zones(old.canvas().zones)).last() == all.last());
}

} // verus!
