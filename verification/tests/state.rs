use heightmap::files::ImageFile;
use heightmap::sculpt::layers::LayerId;
use heightmap::sculpt::modes::{
    modifier_step, DragModifiers, DragStep, PickTarget, SculptMode, SculptTool, ZoneStyle,
};
use heightmap::sculpt::panel::stroke_rect;
use heightmap::sculpt::snapshot::{CellField, CellRect};
use heightmap::sculpt::state::{expand_rect, SculptState, UNDO_CAP};
use heightmap::zones::{Zone, ZoneMode};
use std::io::Cursor;

fn heights(width: u32, height: u32, f: impl Fn(u32, u32) -> f32) -> CellField {
    let mut cells = Vec::new();
    for y in 0..height {
        for x in 0..width {
            cells.push(f(x, y).to_bits());
        }
    }
    CellField { width, height, cells }
}

fn flat(width: u32, height: u32) -> CellField {
    CellField::flat(width, height)
}

fn cells(state: &SculptState) -> Vec<u32> {
    state.field.as_ref().unwrap().cells.clone()
}

/// A dab of a round raising brush with a smooth falloff.
fn raise(state: &mut SculptState, center: (f32, f32), radius: f32, strength: f32) {
    let field = state.field.as_ref().unwrap();
    let min = ((center.0 - radius).floor() as i64, (center.1 - radius).floor() as i64);
    let max = ((center.0 + radius).ceil() as i64, (center.1 + radius).ceil() as i64);
    let Some(rect) = stroke_rect(min, max, field.width, field.height) else {
        return;
    };
    let mut after = Vec::new();
    for y in rect.y0..rect.y0 + rect.h {
        for x in rect.x0..rect.x0 + rect.w {
            let (dx, dy) = (x as f32 - center.0, y as f32 - center.1);
            let t = 1.0 - ((dx * dx + dy * dy).sqrt() / radius).clamp(0.0, 1.0);
            let weight = t * t * (3.0 - 2.0 * t);
            let was = f32::from_bits(field.cells[(y * field.width + x) as usize]);
            after.push((was + strength * weight).max(0.0).to_bits());
        }
    }
    state.apply_dab(rect, after);
}

/// Snapshot a rect, edit it, then undo — the field must return to its exact
/// prior state (bit-for-bit f32), and redo must re-apply the edit exactly.
#[test]
fn undo_restores_exact_prior_state() {
    let mut state = SculptState::new();
    // A varied field so an off-by-one in the snapshot rect would show.
    let field = heights(40, 40, |x, y| ((x * 3 + y * 7) % 17) as f32);
    let original = field.cells.clone();
    state.set_field(field, false);

    // Simulate a multi-dab stroke: begin, several dabs along a path, commit.
    raise(&mut state, (10.0, 10.0), 6.0, 12.0);
    raise(&mut state, (18.0, 14.0), 6.0, 12.0);
    raise(&mut state, (25.0, 22.0), 6.0, 12.0);
    state.commit_stroke();

    let after_edit = cells(&state);
    assert_ne!(after_edit, original, "the stroke must have actually changed the field");
    assert_eq!(state.undo.len(), 1, "one stroke → one undo entry");

    // Undo: exact restoration to the original.
    state.do_undo();
    assert_eq!(cells(&state), original, "undo must restore the EXACT prior state (bit-for-bit)");
    assert!(state.undo.is_empty(), "undo stack drained");
    assert_eq!(state.redo.len(), 1, "undo pushes a redo entry");

    // Redo: re-apply the exact post-stroke state.
    state.do_redo();
    assert_eq!(cells(&state), after_edit, "redo must reproduce the exact post-stroke state");
}

fn test_zone(mode: ZoneMode) -> Zone {
    Zone { mode, polygon: vec![(0, 0), (4 * 256, 0), (4 * 256, 4 * 256), (0, 4 * 256)] }
}

/// Adding a zone is undoable: undo restores the prior (empty) list, redo
/// re-adds it.
#[test]
fn zone_add_undo_redo() {
    let mut state = SculptState::new();
    state.add_zone(test_zone(ZoneMode::Omit));
    assert_eq!(state.zones.len(), 1, "zone added");
    assert_eq!(state.undo.len(), 1, "one zone edit → one undo entry");

    state.do_undo();
    assert!(state.zones.is_empty(), "undo restores the empty zones list");
    assert_eq!(state.redo.len(), 1, "undo pushes a redo entry");

    state.do_redo();
    assert_eq!(state.zones.len(), 1, "redo re-adds the zone");
}

/// Delete and clear-all are undoable.
#[test]
fn zone_delete_and_clear_are_undoable() {
    let mut state = SculptState::new();
    state.add_zone(test_zone(ZoneMode::Omit));
    state.add_zone(test_zone(ZoneMode::Include));
    assert_eq!(state.zones.len(), 2);

    state.delete_zone(0);
    assert_eq!(state.zones.len(), 1, "one deleted");
    assert_eq!(state.zones[0].mode, ZoneMode::Include, "the right one survived");
    state.do_undo();
    assert_eq!(state.zones.len(), 2, "delete undone");

    state.clear_zones();
    assert!(state.zones.is_empty(), "cleared");
    state.do_undo();
    assert_eq!(state.zones.len(), 2, "clear undone");
}

/// Clearing an already-empty zone list must not push a no-op undo entry.
#[test]
fn clear_empty_zones_records_no_history() {
    let mut state = SculptState::new();
    state.clear_zones();
    assert!(state.undo.is_empty(), "clearing nothing records no edit");
}

/// A height stroke and a zone edit share one timeline: undo pops the most
/// recent first (zone), then the height stroke — strict LIFO across types.
#[test]
fn interleaved_height_and_zone_undo_is_lifo() {
    let mut state = SculptState::new();
    state.set_field(flat(20, 20), false);
    let original = cells(&state);

    // 1) a height stroke, then 2) a zone add.
    raise(&mut state, (5.0, 5.0), 3.0, 5.0);
    state.commit_stroke();
    let after_height = cells(&state);
    assert_ne!(after_height, original, "stroke changed the field");
    state.add_zone(test_zone(ZoneMode::Omit));
    assert_eq!(state.undo.len(), 2, "height + zone on one timeline");

    // Undo #1 pops the zone (last in), leaving the height edit applied.
    state.do_undo();
    assert!(state.zones.is_empty(), "zone undone first (LIFO)");
    assert_eq!(cells(&state), after_height, "the height edit is untouched by the zone undo");

    // Undo #2 pops the height stroke, restoring the original field.
    state.do_undo();
    assert_eq!(cells(&state), original, "height stroke undone second, field back to original");
}

/// A single dab outside the field is a no-op (off-grid rect → None).
#[test]
fn off_grid_dab_is_noop() {
    let mut state = SculptState::new();
    state.set_field(flat(10, 10), false);
    let original = cells(&state);
    raise(&mut state, (100.0, 100.0), 2.0, 5.0);
    assert_eq!(cells(&state), original, "an off-grid dab must not touch any cell");
    assert!(state.active_stroke.is_empty(), "off-grid dab captures no snapshot");
}

/// Undo history is bounded: committing more than UNDO_CAP strokes saturates
/// the deque at EXACTLY UNDO_CAP (not fewer — an over-trim regression must
/// fail) and the retained entries still undo cleanly (the oldest kept stroke
/// is restorable, i.e. eviction dropped the front, not corrupted the rest).
#[test]
fn undo_history_is_bounded() {
    let mut state = SculptState::new();
    state.set_field(flat(20, 20), false);
    for i in 0..(UNDO_CAP + 10) {
        let c = (5.0 + (i % 10) as f32, 5.0 + (i % 7) as f32);
        raise(&mut state, c, 3.0, 1.0);
        state.commit_stroke();
    }
    // Saturated at the cap exactly — over-trim (e.g. to 0) would fail here.
    assert_eq!(
        state.undo.len(),
        UNDO_CAP,
        "undo deque must saturate AT the cap after overflowing it",
    );
    // Integrity: every retained entry undoes without panicking, draining the
    // deque to empty (eviction removed the front, leaving a valid timeline).
    for _ in 0..UNDO_CAP {
        state.do_undo();
    }
    assert!(state.undo.is_empty(), "all retained entries undo cleanly");
    assert_eq!(state.redo.len(), UNDO_CAP, "each undo pushed a redo entry");
}

/// A stroke whose dabs OVERLAP each other must still undo to
/// the exact pre-stroke state. The per-dab snapshot list is collapsed with
/// "earliest dab wins" for any cell several dabs touched, so the union
/// snapshot holds each cell's true pre-stroke value — even though a later
/// dab's snapshot captured an already-edited value for the overlap.
#[test]
fn overlapping_dab_stroke_undo_is_exact() {
    let mut state = SculptState::new();
    let field = heights(30, 30, |x, y| ((x * 5 + y * 11) % 13) as f32);
    let original = field.cells.clone();
    state.set_field(field, false);

    // Heavily overlapping dabs: each center is within a radius of the last, so
    // their rects share many cells. A later dab thus snapshots cells the
    // earlier dab already raised — only earliest-wins collapse restores them.
    for c in [(12.0, 12.0), (13.5, 12.5), (15.0, 13.0), (16.0, 14.0)] {
        raise(&mut state, c, 5.0, 9.0);
    }
    state.commit_stroke();

    let after = cells(&state);
    assert_ne!(after, original, "the overlapping stroke must edit the field");
    assert_eq!(state.undo.len(), 1, "a stroke collapses to one undo entry");

    state.do_undo();
    assert_eq!(
        cells(&state),
        original,
        "undo of an overlapping-dab stroke must restore the exact pre-stroke field",
    );
    state.do_redo();
    assert_eq!(cells(&state), after, "redo must reproduce the exact post-stroke field");
}

/// Paint stroke undo/redo: a recorded paint edit restores the prior grid on
/// undo and re-applies the painted indices on redo, on the shared timeline.
#[test]
fn paint_stroke_undo_redo() {
    let mut state = SculptState::new();
    state.set_field(flat(8, 8), false);
    assert!(state.paint.is_blank(), "a fresh field starts unpainted");

    // Record (as the stroke press would) then paint two cells with swatch 2.
    state.record_paint_edit();
    state.paint.set_block(3, 3, 1, 2);
    state.paint.set_block(4, 3, 1, 2);
    assert_eq!(state.undo.len(), 1, "one paint stroke = one undo entry");

    state.do_undo();
    assert!(state.paint.is_blank(), "undo restores the unpainted grid");
    state.do_redo();
    assert_eq!(state.paint.at(3, 3), 2, "redo re-applies the painted swatch");
    assert_eq!(state.paint.at(4, 3), 2);

    // A field swap re-blanks the grid to the new dims (cell-aligned invariant).
    state.set_field(flat(5, 5), false);
    assert_eq!((state.paint.width, state.paint.height), (5, 5), "grid tracks field dims");
    assert!(state.paint.is_blank(), "a new field clears paint");
}

/// Ctrl ⇒ fine (×0.1), Alt ⇒ coarse (×10), none ⇒ base (×1.0), and BOTH held ⇒ Ctrl wins (fine).
#[test]
fn modifier_drag_step_selection() {
    let none = modifier_step(DragModifiers { ctrl: false, alt: false });
    let fine = modifier_step(DragModifiers { ctrl: true, alt: false });
    let coarse = modifier_step(DragModifiers { ctrl: false, alt: true });
    let both = modifier_step(DragModifiers { ctrl: true, alt: true });
    assert_eq!(none, DragStep::Base, "no modifier must leave the base speed (×1)");
    assert_eq!(fine, DragStep::Fine, "Ctrl must select the fine (×0.1) step");
    assert_eq!(coarse, DragStep::Coarse, "Alt must select the coarse (×10) step");
    assert_eq!(both, DragStep::Fine, "Ctrl+Alt: Ctrl wins (fine) — documented precedence");
}

/// The eyedropper: sampling a cell writes that cell's height (meters
/// above floor) into the active Set/Flatten target.
#[test]
fn eyedropper_sample_sets_target_height() {
    let mut state = SculptState::new();
    let field = heights(4, 4, |x, y| if (x, y) == (2, 1) { 42.5 } else { 0.0 });
    state.set_field(field, false);
    let target = |s: &SculptState| f32::from_bits(s.target_height);

    state.sample_height_into_target(2, 1);
    assert_eq!(target(&state), 42.5, "the eyedropper samples the hovered height into Set/Flatten");
    // A fractional pointer inside the same cell floors to it (nearest-cell).
    state.target_height = 0;
    state.sample_height_into_target(2.9f32.floor() as i64, 1.1f32.floor() as i64);
    assert_eq!(target(&state), 42.5, "fractional pointer samples the same cell");
    // An untouched cell is at the floor (0 m).
    state.sample_height_into_target(0, 0);
    assert_eq!(target(&state), 0.0, "an unedited cell samples to the floor");
}

/// Click-to-arm pick routes the sampled height into the SPECIFIC field armed —
/// Set/Sea level/Floor level — never crossing wires.
#[test]
fn armed_pick_routes_height_to_each_field() {
    let mut state = SculptState::new();
    let field = heights(4, 4, |x, y| if x == y { 11.0 * x as f32 } else { 0.0 });
    state.set_field(field, false);

    state.sample_into(PickTarget::SetHeight, 1, 1);
    assert_eq!(f32::from_bits(state.target_height), 11.0, "SetHeight pick fills target_height");
    state.sample_into(PickTarget::SeaLevel, 2, 2);
    assert_eq!(f32::from_bits(state.omit_below), 22.0, "SeaLevel pick fills omit_below");
    state.sample_into(PickTarget::FloorLevel, 3, 3);
    assert_eq!(f32::from_bits(state.floor_level), 33.0, "FloorLevel pick fills floor_level");

    // Each pick is independent — the others are untouched by the last.
    assert_eq!(f32::from_bits(state.target_height), 11.0, "earlier picks are not disturbed");
    assert_eq!(f32::from_bits(state.omit_below), 22.0, "earlier picks are not disturbed");
}

/// The nearest-cell read saturates at the edges of the field.
#[test]
fn sampling_off_the_field_reads_its_edge() {
    let field = heights(3, 2, |x, y| (10 * y + x) as f32);
    let at = |x: i64, y: i64| f32::from_bits(field.sample_cell(x, y));
    assert_eq!(at(-5, -1), 0.0);
    assert_eq!(at(99, 0), 2.0);
    assert_eq!(at(1, 99), 11.0);
    assert_eq!(at(2, 1), 12.0);
}

/// `mark_dirty_rect` unions sub-rects but a pending FULL rebuild (no rect)
/// subsumes them, so a partial upload never silently overrides a needed full
/// re-render (e.g. after undo).
#[test]
fn dirty_rect_union_and_full_subsumption() {
    let mut state = SculptState::new();
    state.set_field(flat(64, 64), false);
    // set_field forces a full rebuild (dirty, no rect).
    assert!(state.dirty && state.dirty_rect.is_none());
    // A sub-rect mark while a full rebuild is pending stays full.
    state.mark_dirty_rect((10, 12, 10, 12));
    assert!(state.dirty_rect.is_none(), "a pending full rebuild subsumes sub-rects");

    // After a render, sub-rects union together.
    state.dirty = false;
    state.dirty_rect = None;
    state.mark_dirty_rect((10, 12, 20, 22));
    state.mark_dirty_rect((30, 32, 8, 9));
    assert_eq!(
        state.dirty_rect,
        Some((10, 32, 8, 22)),
        "two dirtied dab rects must union to their bounding rect",
    );
}

#[test]
fn expanded_rect_stays_in_the_field() {
    assert_eq!(expand_rect((20, 27, 14, 19), 1, 48, 36), (19, 28, 13, 20));
    assert_eq!(expand_rect((0, 47, 0, 35), 3, 48, 36), (0, 47, 0, 35));
}

#[test]
fn a_new_workspace_has_its_defaults() {
    let state = SculptState::new();
    assert!(state.field.is_none());
    assert_eq!(f32::from_bits(state.target_height), 20.0);
    assert_eq!((state.new_w, state.new_h, state.tile_cells), (256, 256, 256));
    assert_eq!(state.output_name, "sculpt");
    assert_eq!(state.max_brick_units, 250);
    assert!(state.out.brdb && !state.out.brz && state.out.skip_floor);
    assert_eq!(state.palette.len(), 5);
    assert_eq!(state.active_swatch, 1);
    assert_eq!(state.available_ram, u64::MAX);
}

#[test]
fn loading_a_field_resets_what_is_tied_to_cells() {
    let mut state = SculptState::new();
    state.set_field(flat(4, 4), false);
    state.add_zone(test_zone(ZoneMode::Omit));
    state.layers.add_layer(4, 4);
    state.zone_draft.push((0, 0));
    state.set_field(flat(3, 2), true);
    assert!(state.zones.is_empty() && state.undo.is_empty() && state.zone_draft.is_empty());
    assert_eq!(state.layers.layers.len(), 1);
    assert_eq!(state.layers.layers[0].id, LayerId(0));
    assert_eq!(state.layers.layers[0].box_mask, vec![false; 6]);
    assert!(state.micro);
}

#[test]
fn modes_remember_the_height_brush_and_drop_the_draft() {
    let mut state = SculptState::new();
    state.select_shape_tool(SculptTool::Smooth);
    state.select_mode(SculptMode::Zone);
    assert_eq!(state.tool, SculptTool::Zone);
    state.zone_draft.push((1, 1));
    state.select_mode(SculptMode::Zone);
    assert_eq!(state.zone_draft.len(), 1, "staying in the mode keeps the draft");
    state.select_mode(SculptMode::Shape);
    assert_eq!(state.tool, SculptTool::Smooth);
    assert!(state.zone_draft.is_empty());
}

#[test]
fn switching_the_zone_style_drops_the_draft() {
    let mut state = SculptState::new();
    state.zone_draft.push((1, 1));
    state.select_zone_style(ZoneStyle::Lasso);
    assert_eq!(state.zone_draft.len(), 1);
    state.select_zone_style(ZoneStyle::Polygon);
    assert!(state.zone_draft.is_empty());
}

#[test]
fn swatches_are_added_up_to_the_limit() {
    let mut state = SculptState::new();
    for _ in 0..20 {
        state.add_swatch();
    }
    assert_eq!(state.palette.len(), 16);
    assert_eq!(state.active_swatch, 15);
    assert_eq!(state.palette[15], [0xC0, 0xC0, 0xC0, 0xFF]);
    state.select_swatch(3);
    state.recolor_swatch([1, 2, 3, 4]);
    assert_eq!(state.palette[3], [1, 2, 3, 4]);
    assert!(state.dirty && state.dirty_rect.is_none());
}

#[test]
fn a_stroke_marks_its_rectangles() {
    let mut state = SculptState::new();
    state.set_field(flat(10, 10), false);
    state.dirty = false;
    state.apply_dab(CellRect { x0: 2, y0: 3, w: 2, h: 1 }, vec![7, 8]);
    assert_eq!(state.dirty_rect, Some((2, 3, 3, 3)));
    assert_eq!(cells(&state)[32..34], [7, 8]);
    state.commit_stroke();
    state.do_undo();
    assert!(cells(&state).iter().all(|&c| c == 0));
}

#[test]
fn a_paint_dab_widens_to_whole_blocks() {
    let mut state = SculptState::new();
    state.set_field(flat(5, 5), false);
    state.dirty = false;
    state.splat_res = 2;
    state.paint_dab(CellRect { x0: 1, y0: 1, w: 2, h: 1 }, &vec![false, true]);
    // Only the block of cell (2, 1) is painted.
    assert_eq!(state.paint.at(2, 0), 1);
    assert_eq!(state.paint.at(3, 1), 1);
    assert_eq!(state.paint.at(1, 1), 0);
    assert_eq!(state.paint.cells.iter().filter(|&&c| c == 1).count(), 4);
    assert_eq!(state.dirty_rect, Some((0, 3, 0, 1)));
}

#[test]
fn the_bucket_fills_and_is_undoable() {
    let mut state = SculptState::new();
    state.set_field(flat(3, 1), false);
    state.bucket_fill(0, 0, &vec![true, false, true]);
    assert_eq!(state.paint.cells, vec![1, 0, 0]);
    state.bucket_global = true;
    state.bucket_fill(0, 0, &vec![true, false, true]);
    assert_eq!(state.paint.cells, vec![1, 0, 1]);
    state.do_undo();
    state.do_undo();
    assert!(state.paint.is_blank());
    state.bucket_fill(3, 0, &vec![true; 3]);
    assert!(state.paint.is_blank() && state.undo.is_empty(), "off the field nothing happens");
}

#[test]
fn gradient_fill_sets_the_palette() {
    let mut state = SculptState::new();
    let ramp = [[9u8; 3]; 8];
    state.fill_splat_from_gradient(&ramp, &vec![]);
    assert_eq!(state.palette.len(), 5, "without terrain nothing happens");
    state.set_field(flat(2, 1), false);
    state.fill_splat_from_gradient(&ramp, &vec![1, 8]);
    assert_eq!(state.palette.len(), 9);
    assert_eq!(state.palette[8], [9, 9, 9, 0xFF]);
    assert_eq!(state.paint.cells, vec![1, 8]);
    assert_eq!(state.undo.len(), 1);
}

#[test]
fn dabs_are_clipped_to_the_field() {
    assert_eq!(
        stroke_rect((-2, 1), (1, 9), 4, 5),
        Some(CellRect { x0: 0, y0: 1, w: 2, h: 4 })
    );
    assert_eq!(stroke_rect((-3, 0), (-1, 2), 4, 5), None);
    assert_eq!(stroke_rect((4, 0), (6, 2), 4, 5), None);
    assert_eq!(stroke_rect((0, 0), (1, 1), 0, 5), None);
}

/// A splatmap file replaces the paint, undoably; one that cannot be read leaves it as it is.
#[test]
fn a_splatmap_file_replaces_the_paint() {
    let mut img = image::RgbaImage::new(2, 1);
    img.put_pixel(0, 0, image::Rgba([0, 200, 0, 0]));
    img.put_pixel(1, 0, image::Rgba([0, 0, 90, 10]));
    let mut bytes = Cursor::new(Vec::new());
    img.write_to(&mut bytes, image::ImageFormat::Png).expect("test PNG must encode");
    let file = |bytes: Option<Vec<u8>>| ImageFile {
        name: "splat.png".to_string(),
        ext: Some("png".to_string()),
        bytes,
    };

    let mut state = SculptState::new();
    let good = file(Some(bytes.into_inner()));
    assert!(state.load_splatmap_file(&good).is_ok(), "without terrain nothing happens");
    assert!(state.paint.cells.is_empty());

    state.set_field(flat(2, 1), false);
    let before = state.paint.cells.clone();
    let missing = state.load_splatmap_file(&file(None));
    assert_eq!(
        missing.err().as_deref(),
        Some("could not read splatmap: The file could not be read")
    );
    let broken = state.load_splatmap_file(&file(Some(vec![1, 2, 3])));
    assert!(broken.err().expect("must be refused").starts_with("could not read splatmap: "));
    assert_eq!(state.paint.cells, before, "a refused file changes nothing");

    assert!(state.load_splatmap_file(&good).is_ok());
    assert_eq!(state.paint.cells, vec![2, 3]);
    state.do_undo();
    assert_eq!(state.paint.cells, before);
}
