use heightmap::sculpt::input::{
    render_plan, sculpt_action, PointerInput, RenderPlan, SculptAction, StrokeStep,
};
use heightmap::sculpt::modes::{PaintTool, PickTarget, SculptTool};
use heightmap::sculpt::state::SculptState;

fn idle() -> PointerInput {
    PointerInput {
        clicked: false,
        double_clicked: false,
        drag_started: false,
        dragged: false,
        drag_stopped: false,
        escape: false,
        eyedropper: false,
        has_position: true,
    }
}

#[test]
fn an_armed_pick_takes_the_next_press() {
    let armed = Some(PickTarget::SeaLevel);
    let act = |input| sculpt_action(armed, SculptTool::Raise, PaintTool::Brush, input);
    assert_eq!(act(PointerInput { clicked: true, ..idle() }), SculptAction::Pick(PickTarget::SeaLevel));
    assert_eq!(
        act(PointerInput { drag_started: true, ..idle() }),
        SculptAction::Pick(PickTarget::SeaLevel)
    );
    assert_eq!(act(PointerInput { escape: true, clicked: true, ..idle() }), SculptAction::CancelPick);
    assert_eq!(act(PointerInput { dragged: true, ..idle() }), SculptAction::Nothing);
    assert_eq!(
        act(PointerInput { clicked: true, has_position: false, ..idle() }),
        SculptAction::Nothing
    );
}

#[test]
fn the_eyedropper_commits_before_it_samples() {
    let act = |input| sculpt_action(None, SculptTool::Raise, PaintTool::Brush, input);
    let held = PointerInput { eyedropper: true, ..idle() };
    assert_eq!(
        act(PointerInput { drag_stopped: true, dragged: true, ..held }),
        SculptAction::CommitStroke
    );
    assert_eq!(act(PointerInput { dragged: true, ..held }), SculptAction::SampleTarget);
    assert_eq!(act(held), SculptAction::Nothing);
}

#[test]
fn tools_answer_the_press_in_their_own_way() {
    let press = PointerInput { drag_started: true, ..idle() };
    let act = |tool, paint| sculpt_action(None, tool, paint, press);
    assert_eq!(act(SculptTool::Stamp, PaintTool::Brush), SculptAction::Stamp);
    assert_eq!(act(SculptTool::Paint, PaintTool::Bucket), SculptAction::Pour);
    let step = StrokeStep { begin: true, dab: true, end: false };
    assert_eq!(act(SculptTool::Paint, PaintTool::Brush), SculptAction::PaintStroke(step));
    assert_eq!(act(SculptTool::Lower, PaintTool::Bucket), SculptAction::HeightStroke(step));
    let stop = PointerInput { drag_stopped: true, ..idle() };
    assert_eq!(
        sculpt_action(None, SculptTool::Stamp, PaintTool::Brush, stop),
        SculptAction::Nothing
    );
    assert_eq!(
        sculpt_action(None, SculptTool::Raise, PaintTool::Brush, stop),
        SculptAction::HeightStroke(StrokeStep { begin: false, dab: false, end: true })
    );
}

#[test]
fn a_lasso_keeps_points_that_are_far_enough_apart() {
    let mut state = SculptState::new();
    let drag = PointerInput { dragged: true, ..idle() };
    state.zone_draft.push((5, 5));
    state.lasso_input(PointerInput { drag_started: true, ..idle() }, Some((0, 0)));
    assert_eq!(state.zone_draft, vec![(0, 0)], "a new drag starts a new loop");
    state.lasso_input(drag, Some((191, 0)));
    assert_eq!(state.zone_draft.len(), 1);
    state.lasso_input(drag, Some((192, 0)));
    state.lasso_input(drag, Some((192, 600)));
    assert_eq!(state.zone_draft.len(), 3);
    state.lasso_input(PointerInput { drag_stopped: true, ..idle() }, None);
    assert!(state.zone_draft.is_empty());
    assert_eq!(state.zones.len(), 1);
    assert_eq!(state.zones[0].polygon, vec![(0, 0), (192, 0), (192, 600)]);
}

#[test]
fn a_lasso_of_two_points_is_dropped() {
    let mut state = SculptState::new();
    state.zone_draft = vec![(0, 0), (500, 0)];
    state.lasso_input(PointerInput { drag_stopped: true, ..idle() }, None);
    assert!(state.zone_draft.is_empty() && state.zones.is_empty() && state.undo.is_empty());
}

#[test]
fn a_polygon_closes_near_its_first_vertex() {
    let mut state = SculptState::new();
    let click = PointerInput { clicked: true, ..idle() };
    state.polygon_input(click, Some((0, 0)), false);
    state.polygon_input(click, Some((900, 0)), true);
    assert_eq!(state.zone_draft.len(), 2, "two vertices cannot close");
    state.polygon_input(click, Some((900, 900)), false);
    state.polygon_input(click, Some((3, 3)), true);
    assert_eq!(state.zones.len(), 1);
    assert_eq!(state.zones[0].polygon.len(), 3);
    state.polygon_input(click, Some((7, 7)), false);
    state.polygon_input(PointerInput { escape: true, ..idle() }, None, false);
    assert!(state.zone_draft.is_empty());
    state.zone_draft = vec![(0, 0), (1, 0), (1, 1), (0, 1)];
    state.polygon_input(PointerInput { double_clicked: true, clicked: true, ..idle() }, Some((9, 9)), false);
    assert_eq!(state.zones[1].polygon.len(), 4, "the closing click adds no vertex");
}

#[test]
fn a_partial_render_needs_a_texture_and_the_same_extent() {
    let rect = Some((20, 27, 14, 19));
    assert_eq!(render_plan(true, rect, true, 48, 36), RenderPlan::Partial((19, 28, 13, 20)));
    assert_eq!(render_plan(false, rect, true, 48, 36), RenderPlan::Full);
    assert_eq!(render_plan(true, rect, false, 48, 36), RenderPlan::Full);
    assert_eq!(render_plan(true, None, true, 48, 36), RenderPlan::Full);
}
