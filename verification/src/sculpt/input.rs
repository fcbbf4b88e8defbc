//! What the pointer does on the canvas.
use super::modes::{PaintTool, PickTarget, SculptTool};
use super::state::{expand_rect, SculptState};
use vstd::prelude::*;

verus! {

/// Least distance between two points of a lasso, in parts of a cell: three quarters of a cell.
pub const LASSO_STEP: i64 = 192;

/// What the primary button and the keys did on the canvas this frame.
#[derive(Clone, Copy, Debug, PartialEq, Eq, Structural)]
pub struct PointerInput {
    pub clicked: bool,
    pub double_clicked: bool,
    pub drag_started: bool,
    pub dragged: bool,
    pub drag_stopped: bool,
    /// Esc was pressed.
    pub escape: bool,
    /// The eyedropper key is held.
    pub eyedropper: bool,
    /// The pointer has a position on the canvas.
    pub has_position: bool,
}

/// What the input asks for.
#[derive(Clone, Copy, Debug, PartialEq, Eq, Structural)]
pub enum SculptAction {
    Nothing,
    /// Disarm the pick.
    CancelPick,
    /// Sample the height under the pointer into the armed field, and disarm.
    Pick(PickTarget),
    /// Sample the height under the pointer into the target of the height brushes.
    SampleTarget,
    /// Commit the stroke in progress.
    CommitStroke,
    /// Place one stamp, as a stroke of its own.
    Stamp,
    /// Pour paint at the pointer.
    Pour,
    /// Go on with a paint stroke.
    PaintStroke(StrokeStep),
    /// Go on with a height stroke.
    HeightStroke(StrokeStep),
}

/// The steps of a stroke that a frame takes, in this order.
#[derive(Clone, Copy, Debug, PartialEq, Eq, Structural)]
pub struct StrokeStep {
    /// Begin a stroke.
    pub begin: bool,
    /// Lay dabs up to the pointer.
    pub dab: bool,
    /// End the stroke.
    pub end: bool,
}

impl PointerInput {
    /// The button went down at a place, whether or not a drag follows.
    pub open spec fn presses(self) -> bool {
        (self.clicked || self.drag_started) && self.has_position
    }

    /// The part of a stroke that this frame takes.
    pub open spec fn stroke_step(self) -> StrokeStep {
        StrokeStep {
            begin: self.drag_started,
            dab: (self.dragged || self.drag_started) && self.has_position,
            end: self.drag_stopped,
        }
    }
}

/// Action of an input while a pick is armed: Esc cancels it, a press takes it, and nothing is
/// sculpted meanwhile.
pub open spec fn armed_action(target: PickTarget, input: PointerInput) -> SculptAction {
    if input.escape {
        SculptAction::CancelPick
    } else if input.presses() {
        SculptAction::Pick(target)
    } else {
        SculptAction::Nothing
    }
}

/// Action of an input while the eyedropper key is held: the end of a drag commits the stroke that
/// was in progress, any other press samples.
pub open spec fn eyedropper_action(input: PointerInput) -> SculptAction {
    if input.drag_stopped {
        SculptAction::CommitStroke
    } else if (input.clicked || input.dragged) && input.has_position {
        SculptAction::SampleTarget
    } else {
        SculptAction::Nothing
    }
}

/// Action of an input with a tool in hand.
pub open spec fn tool_action(
    tool: SculptTool,
    paint_tool: PaintTool,
    input: PointerInput,
) -> SculptAction {
    match (tool, paint_tool) {
        (SculptTool::Stamp, _) => if input.presses() {
            SculptAction::Stamp
        } else {
            SculptAction::Nothing
        },
        (SculptTool::Paint, PaintTool::Bucket) => if input.presses() {
            SculptAction::Pour
        } else {
            SculptAction::Nothing
        },
        (SculptTool::Paint, PaintTool::Brush) => SculptAction::PaintStroke(input.stroke_step()),
        _ => SculptAction::HeightStroke(input.stroke_step()),
    }
}

/// Decide what an input on the canvas does: an armed pick comes before the eyedropper, and the
/// eyedropper before the tool in hand.
pub fn sculpt_action(
    armed: Option<PickTarget>,
    tool: SculptTool,
    paint_tool: PaintTool,
    input: PointerInput,
) -> (action: SculptAction)
    ensures
        armed matches Some(target) ==> action == armed_action(target, input),
        armed is None && input.eyedropper ==> action == eyedropper_action(input),
        armed is None && !input.eyedropper ==> action == tool_action(tool, paint_tool, input),
{
    let pressed: bool = (input.clicked || input.drag_started) && input.has_position;
    if let Some(target) = armed {
        return if input.escape {
            SculptAction::CancelPick
        } else if pressed {
            SculptAction::Pick(target)
        } else {
            SculptAction::Nothing
        };
    }
    if input.eyedropper {
        return if input.drag_stopped {
            SculptAction::CommitStroke
        } else if (input.clicked || input.dragged) && input.has_position {
            SculptAction::SampleTarget
        } else {
            SculptAction::Nothing
        };
    }
    let step: StrokeStep = StrokeStep {
        begin: input.drag_started,
        dab: (input.dragged || input.drag_started) && input.has_position,
        end: input.drag_stopped,
    };
    if tool == SculptTool::Stamp {
        if pressed {
            SculptAction::Stamp
        } else {
            SculptAction::Nothing
        }
    } else if tool == SculptTool::Paint {
        if paint_tool == PaintTool::Brush {
            SculptAction::PaintStroke(step)
        } else if pressed {
            SculptAction::Pour
        } else {
            SculptAction::Nothing
        }
    } else {
        SculptAction::HeightStroke(step)
    }
}

/// Two points are at least as far apart as points of a lasso have to be.
pub open spec fn far_apart(a: (i32, i32), b: (i32, i32)) -> bool {
    (b.0 - a.0) * (b.0 - a.0) + (b.1 - a.1) * (b.1 - a.1) >= LASSO_STEP * LASSO_STEP
}

fn is_far(a: (i32, i32), b: (i32, i32)) -> (far: bool)
    ensures
        far == far_apart(a, b),
{
    let dx: i128 = b.0 as i128 - a.0 as i128;
    let dy: i128 = b.1 as i128 - a.1 as i128;
    proof {
        assert(0 <= dx * dx <= 0x1_0000_0000 * 0x1_0000_0000) by (nonlinear_arith)
            requires
                -0x1_0000_0000 <= dx <= 0x1_0000_0000,
        ;
        assert(0 <= dy * dy <= 0x1_0000_0000 * 0x1_0000_0000) by (nonlinear_arith)
            requires
                -0x1_0000_0000 <= dy <= 0x1_0000_0000,
        ;
    }
    dx * dx + dy * dy >= 192 * 192
}

/// The loop that a lasso has drawn after an input at `at`: a new drag starts a new loop, and a drag
/// adds the point where it is far enough from the last one.
pub open spec fn lassoed(
    draft: Seq<(i32, i32)>,
    input: PointerInput,
    at: Option<(i32, i32)>,
) -> Seq<(i32, i32)> {
    if input.drag_started {
        match at {
            Some(p) => seq![p],
            None => seq![],
        }
    } else if input.dragged && at is Some && (draft.len() == 0 || far_apart(
        draft.last(),
        at->0,
    )) {
        draft.push(at->0)
    } else {
        draft
    }
}

fn draw_lasso(draft: &mut Vec<(i32, i32)>, input: PointerInput, at: Option<(i32, i32)>)
    ensures
        final(draft)@ == lassoed(old(draft)@, input, at),
{
    if input.drag_started {
        draft.clear();
        if let Some(p) = at {
            draft.push(p);
        }
    } else if input.dragged {
        if let Some(p) = at {
            let n: usize = draft.len();
            if n == 0 || is_far(draft[n - 1], p) {
                draft.push(p);
            }
        }
    }
}

impl SculptState {
    /// Draw with the lasso: a drag records points that are at least [`LASSO_STEP`] apart, and its end
    /// closes the loop into a zone.
    pub fn lasso_input(&mut self, input: PointerInput, at: Option<(i32, i32)>)
        requires
            old(self).wf(),
        ensures
            final(self).wf(),
            input.drag_stopped ==> final(self).draft_committed(
                old(self),
                lassoed(old(self).zone_draft@, input, at),
            ),
            !input.drag_stopped ==> {
                &&& *final(self) == (SculptState {
                    zone_draft: final(self).zone_draft,
                    ..*old(self)
                })
                &&& final(self).zone_draft@ == lassoed(old(self).zone_draft@, input, at)
            },
    {
        draw_lasso(&mut self.zone_draft, input, at);
        if input.drag_stopped {
            self.commit_zone_draft();
        }
    }

    /// Draw a polygon: Esc drops it, a double click closes it, and so does a click near its first
    /// vertex once it has three (`near_first`); any other click adds a vertex at `at`.
    pub fn polygon_input(&mut self, input: PointerInput, at: Option<(i32, i32)>, near_first: bool)
        requires
            old(self).wf(),
        ensures
            final(self).wf(),
            ({
                let draft = old(self).zone_draft@;
                let clicks = input.clicked && at is Some;
                if input.escape {
                    &&& *final(self) == (SculptState {
                        zone_draft: final(self).zone_draft,
                        ..*old(self)
                    })
                    &&& final(self).zone_draft@.len() == 0
                } else if input.double_clicked || (clicks && draft.len() >= 3 && near_first) {
                    final(self).draft_committed(old(self), draft)
                } else if clicks {
                    &&& *final(self) == (SculptState {
                        zone_draft: final(self).zone_draft,
                        ..*old(self)
                    })
                    &&& final(self).zone_draft@ == draft.push(at->0)
                } else {
                    *final(self) == *old(self)
                }
            }),
    {
        if input.escape {
            self.zone_draft.clear();
            return;
        }
        if input.double_clicked {
            self.commit_zone_draft();
            return;
        }
        if input.clicked {
            if let Some(p) = at {
                if self.zone_draft.len() >= 3 && near_first {
                    self.commit_zone_draft();
                    return;
                }
                self.zone_draft.push(p);
            }
        }
    }
}

/// What has to be rendered.
#[derive(Clone, Copy, Debug, PartialEq, Eq)]
pub enum RenderPlan {
    /// The inclusive rectangle `(x0, x1, y0, y1)`, into the texture that is there.
    Partial((u32, u32, u32, u32)),
    /// All of it.
    Full,
}

/// Decide what to render of a terrain of `fw × fh` cells: only the changed rectangle, grown by a
/// cell for the shading of its border, when there is a texture and the change leaves the range of
/// heights as it was; all of it otherwise.
pub fn render_plan(
    has_texture: bool,
    dirty_rect: Option<(u32, u32, u32, u32)>,
    same_extent: bool,
    fw: u32,
    fh: u32,
) -> (plan: RenderPlan)
    requires
        fw > 0,
        fh > 0,
        dirty_rect matches Some(r) ==> r.1 < fw && r.3 < fh,
    ensures
        plan is Full <==> !(has_texture && dirty_rect is Some && same_extent),
        plan matches RenderPlan::Partial(halo) ==> halo == super::state::expanded(
            dirty_rect->0,
            1,
            fw,
            fh,
        ),
{
    match dirty_rect {
        Some(rect) => {
            if has_texture && same_extent {
                RenderPlan::Partial(expand_rect(rect, 1, fw, fh))
            } else {
                RenderPlan::Full
            }
        },
        None => RenderPlan::Full,
    }
}

/// An armed pick keeps the tools at rest: an input cancels it, takes it or does nothing, and Esc cancels it
/// whatever else happened.
pub proof fn armed_picks_come_first(target: PickTarget, input: PointerInput)
    ensures
        input.escape ==> armed_action(target, input) is CancelPick,
        !input.escape && input.has_position && (input.clicked || input.drag_started)
            ==> armed_action(target, input) == SculptAction::Pick(target),
        !input.escape && !(input.has_position && (input.clicked || input.drag_started))
            ==> armed_action(target, input) is Nothing,
{
}

/// While the eyedropper is held nothing is sculpted: a drag that ends commits the stroke from before, and a
/// click or a drag on the canvas samples.
pub proof fn the_eyedropper_samples(input: PointerInput)
    ensures
        input.drag_stopped ==> eyedropper_action(input) is CommitStroke,
        !input.drag_stopped && input.has_position && (input.clicked || input.dragged)
            ==> eyedropper_action(input) is SampleTarget,
        !input.drag_stopped && !(input.has_position && (input.clicked || input.dragged))
            ==> eyedropper_action(input) is Nothing,
{
}

/// Each tool does its own work: stamps and the bucket act once, where the button goes down on the canvas;
/// the paint brush paints; every other tool works on heights. A stroke begins with the drag, lays dabs
/// while the pointer is on the canvas, and ends with the drag.
pub proof fn tools_do_their_own_work(
    tool: SculptTool,
    paint_tool: PaintTool,
    input: PointerInput,
)
    ensures
        ({
            let action = tool_action(tool, paint_tool, input);
            let down = input.has_position && (input.clicked || input.drag_started);
            &&& tool is Stamp ==> (down ==> action is Stamp) && (!down ==> action is Nothing)
            &&& tool is Paint && paint_tool is Bucket ==> (down ==> action is Pour) && (!down
                ==> action is Nothing)
            &&& tool is Paint && paint_tool is Brush ==> action is PaintStroke
            &&& !(tool is Stamp) && !(tool is Paint) ==> action is HeightStroke
            &&& action matches SculptAction::PaintStroke(step) ==> is_step_of(step, input)
            &&& action matches SculptAction::HeightStroke(step) ==> is_step_of(step, input)
        }),
{
}

/// The steps that an input takes a stroke.
pub open spec fn is_step_of(step: StrokeStep, input: PointerInput) -> bool {
    &&& step.begin <==> input.drag_started
    &&& step.dab <==> input.has_position && (input.dragged || input.drag_started)
    &&& step.end <==> input.drag_stopped
}

/// The points of a lasso are at least three quarters of a cell apart, one from the next, and a drag neither
/// moves nor drops the points before.
pub proof fn lasso_points_are_apart(
    draft: Seq<(i32, i32)>,
    input: PointerInput,
    at: Option<(i32, i32)>,
    i: int,
)
    requires
        forall|k: int|
            #![trigger draft[k]]
            0 <= k < draft.len() - 1 ==> spaced(draft[k], draft[k + 1]),
        0 <= i < lassoed(draft, input, at).len() - 1,
    ensures
        spaced(lassoed(draft, input, at)[i], lassoed(draft, input, at)[i + 1]),
        !input.drag_started ==> lassoed(draft, input, at)[i] == draft[i],
{
    assert(draft[i] == draft[i]);
}

/// Two points are at least three quarters of a cell apart; a cell has 256 parts.
pub open spec fn spaced(a: (i32, i32), b: (i32, i32)) -> bool {
    (b.0 - a.0) * (b.0 - a.0) + (b.1 - a.1) * (b.1 - a.1) >= 192 * 192
}

} // verus!
