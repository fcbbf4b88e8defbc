//! The tools and modes of the sculpting workspace.
use vstd::prelude::*;

verus! {

/// The footprint of a brush dab.
#[derive(Clone, Copy, Debug, PartialEq, Eq, Structural)]
pub enum BrushShape {
    /// Euclidean disc — the default round brush.
    Circle,
    /// Axis-aligned square; fills the bounding box.
    Square,
    /// 45°-rotated square; vertices at `(±r, 0)` and `(0, ±r)`.
    Diamond,
    /// Flat-side hexagon with vertices touching the box edges.
    Hexagon,
}

impl BrushShape {
    /// The tooltip.
    pub open spec fn help_text(self) -> Seq<char> {
        match self {
            BrushShape::Circle => "Circle — round falloff, the all-purpose brush for organic terrain."@,
            BrushShape::Square => "Square — fills its bounding box with crisp right-angle edges."@,
            BrushShape::Diamond => "Diamond — 45° rhombus footprint; good for ridgelines and chamfers."@,
            BrushShape::Hexagon => "Hexagon — flat-sided hex footprint that tiles cleanly for honeycomb terrain."@,
        }
    }

    /// Full tooltip: the footprint and what it's good for (also carries the name).
    pub fn help(self) -> (text: &'static str)
        ensures
            text@ == self.help_text(),
    {
        match self {
            BrushShape::Circle => "Circle — round falloff, the all-purpose brush for organic terrain.",
            BrushShape::Square => "Square — fills its bounding box with crisp right-angle edges.",
            BrushShape::Diamond => "Diamond — 45° rhombus footprint; good for ridgelines and chamfers.",
            BrushShape::Hexagon => "Hexagon — flat-sided hex footprint that tiles cleanly for honeycomb terrain.",
        }
    }
}

/// A parametric terrain primitive: which silhouette a stamp deposits.
#[derive(Clone, Copy, Debug, PartialEq, Eq, Structural)]
pub enum StampKind {
    /// Peak at center, linear slope to zero at the footprint edge.
    Cone,
    /// Flat top out to the inner ratio, then eased shoulder down to the edge.
    Mesa,
    /// Sunken bowl with a raised rim near the inner ratio, fading out past it.
    Crater,
    /// Linear gradient along an angle, bounded by the footprint.
    Ramp,
}

impl StampKind {
    /// The tooltip.
    pub open spec fn help_text(self) -> Seq<char> {
        match self {
            StampKind::Cone => "Cone — sharp peak at center sloping straight to the edge. A simple hill or mountain."@,
            StampKind::Mesa => "Mesa — flat top with an eased shoulder down to the edge. Plateaus and table-mountains; Inner ratio sets the flat width."@,
            StampKind::Crater => "Crater — sunken bowl with a raised rim. Impact craters and calderas; Inner ratio positions the rim."@,
            StampKind::Ramp => "Ramp — straight linear slope along the angle. Roads, embankments, and access ramps."@,
        }
    }

    /// Full tooltip: the landform this primitive stamps and the knob that shapes it.
    pub fn help(self) -> (text: &'static str)
        ensures
            text@ == self.help_text(),
    {
        match self {
            StampKind::Cone => "Cone — sharp peak at center sloping straight to the edge. A simple hill or mountain.",
            StampKind::Mesa => "Mesa — flat top with an eased shoulder down to the edge. Plateaus and table-mountains; Inner ratio sets the flat width.",
            StampKind::Crater => "Crater — sunken bowl with a raised rim. Impact craters and calderas; Inner ratio positions the rim.",
            StampKind::Ramp => "Ramp — straight linear slope along the angle. Roads, embankments, and access ramps.",
        }
    }
}

/// Top-level workspace mode (the tab bar). Groups the tools so the panel shows
/// only one mode's controls at a time instead of one long tool dropdown.
#[derive(Clone, Copy, Debug, PartialEq, Eq, Structural)]
pub enum SculptMode {
    /// Height brushes (Raise/Lower/Smooth/Flatten/Set).
    Shape,
    /// Parametric terrain primitives (cone/mesa/crater/ramp).
    Stamp,
    /// Splat color painting.
    Paint,
    /// Freedraw omit/include zones.
    Zone,
    /// Export layers: carve the map into parts that export separately and overlay.
    Layers,
}

impl SculptMode {
    /// The tooltip.
    pub open spec fn help_text(self) -> Seq<char> {
        match self {
            SculptMode::Shape => "Sculpt — freehand height brushes (Raise, Lower, Smooth, Flatten, Set). Drag on the map to reshape the land."@,
            SculptMode::Stamp => "Stamp — drop a ready-made landform (cone, mesa, crater, ramp) in one click. Fast hills, plateaus, and pits without brushing."@,
            SculptMode::Paint => "Paint — color the terrain with palette swatches (a splatmap). Affects brick color only, never height."@,
            SculptMode::Zone => "Mask — draw regions that limit the export: Omit cuts holes, Include keeps only what's inside. Heights are untouched; it only decides which bricks are written."@,
            SculptMode::Layers => "Layers — carve the map into parts that export as separate saves and snap back together in-game, so you can build worlds too big for one save."@,
        }
    }

    /// Full tooltip: what this mode does, in one or two plain sentences.
    pub fn help(self) -> (text: &'static str)
        ensures
            text@ == self.help_text(),
    {
        match self {
            SculptMode::Shape => "Sculpt — freehand height brushes (Raise, Lower, Smooth, Flatten, Set). Drag on the map to reshape the land.",
            SculptMode::Stamp => "Stamp — drop a ready-made landform (cone, mesa, crater, ramp) in one click. Fast hills, plateaus, and pits without brushing.",
            SculptMode::Paint => "Paint — color the terrain with palette swatches (a splatmap). Affects brick color only, never height.",
            SculptMode::Zone => "Mask — draw regions that limit the export: Omit cuts holes, Include keeps only what's inside. Heights are untouched; it only decides which bricks are written.",
            SculptMode::Layers => "Layers — carve the map into parts that export as separate saves and snap back together in-game, so you can build worlds too big for one save.",
        }
    }
}

/// The tools of the workspace.
#[derive(Clone, Copy, Debug, PartialEq, Eq, Structural)]
pub enum SculptTool {
    Raise,
    Lower,
    Smooth,
    Flatten,
    SetTo,
    /// Stamp a parametric terrain primitive (cone/mesa/crater/ramp) on press —
    /// a single dab, not a continuous stroke.
    Stamp,
    /// Paint the active palette swatch into the splat grid (color, not height).
    Paint,
    /// Freedraw omit/include zones — not a brush; it draws loops, not heights.
    Zone,
    /// Export-layer selection — not a brush; it picks grid boxes into layers.
    Layers,
}

impl SculptTool {
    /// The mode that the tool belongs to.
    pub open spec fn its_mode(self) -> SculptMode {
        match self {
            SculptTool::Stamp => SculptMode::Stamp,
            SculptTool::Paint => SculptMode::Paint,
            SculptTool::Zone => SculptMode::Zone,
            SculptTool::Layers => SculptMode::Layers,
            _ => SculptMode::Shape,
        }
    }

    /// Which workspace mode this tool lives under (drives the active tab).
    pub fn mode(self) -> (mode: SculptMode)
        ensures
            mode == self.its_mode(),
    {
        match self {
            SculptTool::Raise
            | SculptTool::Lower
            | SculptTool::Smooth
            | SculptTool::Flatten
            | SculptTool::SetTo => SculptMode::Shape,
            SculptTool::Stamp => SculptMode::Stamp,
            SculptTool::Paint => SculptMode::Paint,
            SculptTool::Zone => SculptMode::Zone,
            SculptTool::Layers => SculptMode::Layers,
        }
    }

    /// The tooltip.
    pub open spec fn help_text(self) -> Seq<char> {
        match self {
            SculptTool::Raise => "Raise — adds real metres under the brush (strength = m per pass).\nIn-game: taller brick stacks (height in flats; 1 brick ≈ 3 flats). Hold-drag to build hills."@,
            SculptTool::Lower => "Lower — removes metres under the brush (strength = m per pass).\nIn-game: shorter stacks; can open to native Brickadia floor if you dig to 0 with skip-floor export."@,
            SculptTool::Smooth => "Smooth — blends neighbour heights (strength 0–1 blend per pass).\nIn-game: fewer jagged steps; greedy mesher merges larger quads on soft slopes."@,
            SculptTool::Flatten => "Flatten — eases toward “Set to” height (strength 0–1).\nIn-game: plateaus / build pads at a chosen brick height. Set target first (E sample or eyedropper)."@,
            SculptTool::SetTo => "Set height — hard-stamps “Set to” (no blend).\nIn-game: flat shelves at exact flats/bricks. Hold E to sample, then click."@,
            SculptTool::Stamp => "Stamp — one-click landform (cone/mesa/crater/ramp).\nIn-game: same as sculpted height — becomes brick columns on export."@,
            SculptTool::Paint => "Paint — splatmap color only (not material, not height).\nIn-game: brick color; blank paint → default brick color."@,
            SculptTool::Zone => "Mask — omit/include loops on export (heights unchanged).\nIn-game: holes or cookie-cut pieces; orthogonal to omit-below water."@,
            SculptTool::Layers => "Layers — box-select regions → separate .brdb/.brz that snap together.\nIn-game: load each part (or prefabs) to beat single-save size limits."@,
        }
    }

    /// Full tooltip: purpose + strength + Brickadia effect.
    pub fn help(self) -> (text: &'static str)
        ensures
            text@ == self.help_text(),
    {
        match self {
            SculptTool::Raise => "Raise — adds real metres under the brush (strength = m per pass).\nIn-game: taller brick stacks (height in flats; 1 brick ≈ 3 flats). Hold-drag to build hills.",
            SculptTool::Lower => "Lower — removes metres under the brush (strength = m per pass).\nIn-game: shorter stacks; can open to native Brickadia floor if you dig to 0 with skip-floor export.",
            SculptTool::Smooth => "Smooth — blends neighbour heights (strength 0–1 blend per pass).\nIn-game: fewer jagged steps; greedy mesher merges larger quads on soft slopes.",
            SculptTool::Flatten => "Flatten — eases toward “Set to” height (strength 0–1).\nIn-game: plateaus / build pads at a chosen brick height. Set target first (E sample or eyedropper).",
            SculptTool::SetTo => "Set height — hard-stamps “Set to” (no blend).\nIn-game: flat shelves at exact flats/bricks. Hold E to sample, then click.",
            SculptTool::Stamp => "Stamp — one-click landform (cone/mesa/crater/ramp).\nIn-game: same as sculpted height — becomes brick columns on export.",
            SculptTool::Paint => "Paint — splatmap color only (not material, not height).\nIn-game: brick color; blank paint → default brick color.",
            SculptTool::Zone => "Mask — omit/include loops on export (heights unchanged).\nIn-game: holes or cookie-cut pieces; orthogonal to omit-below water.",
            SculptTool::Layers => "Layers — box-select regions → separate .brdb/.brz that snap together.\nIn-game: load each part (or prefabs) to beat single-save size limits.",
        }
    }

    /// Strength is meters-per-dab for Raise/Lower; a 0..=1 blend factor for the
    /// pull-toward-a-value tools (Smooth/Flatten/Set). Different default ranges
    /// keep one slider sensible across all five.
    pub fn strength_is_blend(self) -> (blend: bool)
        ensures
            blend == (self is Smooth || self is Flatten || self is SetTo),
    {
        matches!(self, SculptTool::Smooth | SculptTool::Flatten | SculptTool::SetTo)
    }
}

/// How a zone loop is captured on the canvas.
#[derive(Clone, Copy, Debug, PartialEq, Eq, Structural)]
pub enum ZoneStyle {
    /// Press-drag a freehand loop; auto-closed on release.
    Lasso,
    /// Click vertices; close on a click near the first vertex or a double-click.
    Polygon,
}

/// The paint method inside Paint mode: freehand brush vs flood-fill bucket.
#[derive(Clone, Copy, Debug, PartialEq, Eq, Structural)]
pub enum PaintTool {
    /// Freehand brush: drag to paint the active swatch.
    Brush,
    /// Paint bucket: click to flood-fill an elevation region/step.
    Bucket,
}

/// Which height field a click-to-arm map pick writes into.
#[derive(Clone, Copy, Debug, PartialEq, Eq, Structural)]
pub enum PickTarget {
    SetHeight,
    SeaLevel,
    FloorLevel,
}

impl PickTarget {
    /// The field's display name.
    pub open spec fn label_text(self) -> Seq<char> {
        match self {
            PickTarget::SetHeight => "Set to"@,
            PickTarget::SeaLevel => "Sea level"@,
            PickTarget::FloorLevel => "Floor level"@,
        }
    }

    /// The field's display name (also the on-canvas pick prompt).
    pub fn field_label(self) -> (text: &'static str)
        ensures
            text@ == self.label_text(),
    {
        match self {
            PickTarget::SetHeight => "Set to",
            PickTarget::SeaLevel => "Sea level",
            PickTarget::FloorLevel => "Floor level",
        }
    }
}

/// Per-frame keyboard-modifier state read for the step scaling.
#[derive(Clone, Copy, Debug, PartialEq, Eq, Structural)]
pub struct DragModifiers {
    pub ctrl: bool,
    pub alt: bool,
}

/// How much a drag changes a value.
#[derive(Clone, Copy, Debug, PartialEq, Eq, Structural)]
pub enum DragStep {
    /// A tenth of the base step.
    Fine,
    Base,
    /// Ten base steps.
    Coarse,
}

/// Choose the step for a drag from the held modifiers: Ctrl is fine, Alt is coarse. When BOTH are
/// held, Ctrl wins — fine adjustment is the safer default when a user fumbles both.
pub fn modifier_step(m: DragModifiers) -> (step: DragStep)
    ensures
        m.ctrl ==> step is Fine,
        !m.ctrl && m.alt ==> step is Coarse,
        !m.ctrl && !m.alt ==> step is Base,
{
    if m.ctrl {
        DragStep::Fine
    } else if m.alt {
        DragStep::Coarse
    } else {
        DragStep::Base
    }
}

} // verus!
