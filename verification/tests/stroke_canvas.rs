use kay::stroke_canvas::{Stroke, StrokeCanvas, StrokeState};
use kay::{Compact, Region};

type Point = (f32, f32);

#[test]
fn a_new_canvas_has_no_points() {
    let canvas: StrokeCanvas<Point> = StrokeCanvas::new();
    assert!(canvas.points().is_empty());
    assert_eq!(canvas.last_point(), None);
    assert!(canvas.is_still_compact());
}

#[test]
fn hovering_previews_the_stroke_and_changes_nothing() {
    let mut canvas: StrokeCanvas<Point> = StrokeCanvas::new();
    let preview = canvas.on_hover((1.0, 2.0));
    assert_eq!(preview.0.as_slice(), &[(1.0, 2.0)]);
    assert_eq!(preview.1, StrokeState::Preview);
    assert!(canvas.points().is_empty());

    canvas.on_drag_started((0.0, 0.0), false);
    let preview = canvas.on_hover((1.0, 2.0));
    assert_eq!(preview.0.as_slice(), &[(0.0, 0.0), (1.0, 2.0)]);
    assert_eq!(canvas.points(), &[(0.0, 0.0)]);
}

#[test]
fn the_first_point_is_set_without_a_stroke() {
    let mut canvas: StrokeCanvas<Point> = StrokeCanvas::new();
    assert!(canvas.on_drag_started((0.0, 0.0), true).is_none());
    assert_eq!(canvas.points(), &[(0.0, 0.0)]);
    assert_eq!(canvas.last_point(), Some((0.0, 0.0)));
}

#[test]
fn further_points_give_an_intermediate_stroke() {
    let mut canvas: StrokeCanvas<Point> = StrokeCanvas::new();
    canvas.on_drag_started((0.0, 0.0), false);
    let Stroke(points, state) = canvas.on_drag_started((10.0, 0.0), false).unwrap();
    assert_eq!(points.as_slice(), &[(0.0, 0.0), (10.0, 0.0)]);
    assert_eq!(state, StrokeState::Intermediate);
    let Stroke(points, state) = canvas.on_drag_started((20.0, 0.0), false).unwrap();
    assert_eq!(points.len(), 3);
    assert_eq!(state, StrokeState::Intermediate);
    assert_eq!(canvas.last_point(), Some((20.0, 0.0)));
}

#[test]
fn a_point_close_to_the_last_one_finishes_the_stroke() {
    let mut canvas: StrokeCanvas<Point> = StrokeCanvas::new();
    canvas.on_drag_started((0.0, 0.0), false);
    canvas.on_drag_started((10.0, 0.0), false);
    let Stroke(points, state) = canvas.on_drag_started((10.5, 0.0), true).unwrap();
    assert_eq!(points.as_slice(), &[(0.0, 0.0), (10.0, 0.0)]);
    assert_eq!(state, StrokeState::Finished);
    assert!(canvas.points().is_empty());
    assert!(canvas.on_drag_started((3.0, 3.0), true).is_none());
    assert_eq!(canvas.points(), &[(3.0, 3.0)]);
}

#[test]
fn canvas_and_stroke_are_compacted_with_their_points() {
    let mut canvas: StrokeCanvas<Point> = StrokeCanvas::new();
    canvas.on_drag_started((0.0, 0.0), false);
    canvas.on_drag_started((1.0, 0.0), false);
    let stroke = canvas.on_drag_started((2.0, 0.0), false).unwrap();
    assert!(!canvas.is_still_compact());
    assert_eq!(canvas.dynamic_size_bytes(), 4 * 8);
    assert_eq!(stroke.dynamic_size_bytes(), 4 * 8);

    let mut copy: StrokeCanvas<Point> = StrokeCanvas::new();
    let mut region = Region::new(32);
    copy.compact_from(&canvas, &mut region);
    assert!(copy.is_still_compact());
    assert_eq!(copy.points(), canvas.points());
    assert_eq!(region.remaining(), 0);
    assert_eq!(copy.decompact().points(), canvas.points());

    let mut packed = Stroke(kay::CompactVec::new(), StrokeState::Preview);
    let mut region = Region::new(32);
    packed.compact_from(&stroke, &mut region);
    assert!(packed.is_still_compact());
    assert_eq!(packed.1, StrokeState::Intermediate);
    assert_eq!(packed.0.len(), 3);
    assert_eq!(packed.decompact().0.as_slice(), stroke.0.as_slice());
}
