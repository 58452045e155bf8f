//! Tests of the point store, the segment preparer and the mode
//! controller.

use curvedots::engine::sample_curve;
use curvedots::fixed::SCALE;
use curvedots::point::Point;
use curvedots::prepare::{prepare_sequence, sort_points};
use curvedots::session::{curve_selection_enabled, CurveAlgorithm, EditorSession};
use curvedots::store::PointStore;

fn fx(v: i64) -> i64 {
    v * SCALE
}

fn pt(x: i64, y: i64) -> Point {
    Point { x: fx(x), y: fx(y) }
}

#[test]
fn store_add_appends_without_dedup() {
    let mut store = PointStore::new();
    store.add(pt(10, 10));
    store.add(pt(10, 10));
    store.add(pt(100, 100));
    assert_eq!(store.len(), 3);
    assert_eq!(store.get(0), pt(10, 10));
    assert_eq!(store.get(1), pt(10, 10));
    assert_eq!(store.get(2), pt(100, 100));
}

#[test]
fn store_remove_near_hits_within_tolerance() {
    let mut store = PointStore::new();
    store.add(pt(10, 10));
    store.add(pt(100, 100));
    // (12, 12) is within 10 units of (10, 10) on both axes
    let removed = store.remove_near(pt(12, 12), fx(10), fx(10));
    assert!(removed);
    assert_eq!(store.len(), 1);
    assert_eq!(store.get(0), pt(100, 100));
}

#[test]
fn store_remove_near_misses_out_of_tolerance() {
    let mut store = PointStore::new();
    store.add(pt(10, 10));
    store.add(pt(100, 100));
    // (50, 50) is farther than 10 units from both stored points
    let removed = store.remove_near(pt(50, 50), fx(10), fx(10));
    assert!(!removed);
    assert_eq!(store.len(), 2);
}

#[test]
fn store_remove_near_takes_first_in_storage_order() {
    let mut store = PointStore::new();
    store.add(pt(20, 20));
    store.add(pt(21, 21));
    let removed = store.remove_near(pt(22, 22), fx(10), fx(10));
    assert!(removed);
    assert_eq!(store.len(), 1);
    assert_eq!(store.get(0), pt(21, 21));
}

#[test]
fn store_clear_empties() {
    let mut store = PointStore::new();
    store.add(pt(1, 2));
    store.clear();
    assert_eq!(store.len(), 0);
    assert!(!store.remove_near(pt(1, 2), fx(10), fx(10)));
}

#[test]
fn preparer_empty_input_gives_empty_output() {
    let out = prepare_sequence(&vec![], fx(200));
    assert_eq!(out.len(), 0);
}

#[test]
fn preparer_sorts_and_clamps_boundaries() {
    let points = vec![pt(30, 40), pt(10, 20), pt(50, 5)];
    let out = prepare_sequence(&points, fx(200));
    assert_eq!(out.len(), 5);
    for w in out.windows(2) {
        assert!(w[0].x <= w[1].x);
    }
    // left boundary carries the y of the minimum-x point, right boundary
    // the y of the maximum-x point
    assert_eq!(out[0], pt(0, 20));
    assert_eq!(out[4], pt(200, 5));
    assert_eq!(out[1], pt(10, 20));
    assert_eq!(out[2], pt(30, 40));
    assert_eq!(out[3], pt(50, 5));
}

#[test]
fn sort_is_stable_for_equal_x() {
    let a = pt(10, 1);
    let b = pt(10, 2);
    let c = pt(5, 3);
    let sorted = sort_points(&vec![a, b, c]);
    assert_eq!(sorted, vec![c, a, b]);
}

#[test]
fn curve_button_needs_two_points() {
    assert!(!curve_selection_enabled(0));
    assert!(!curve_selection_enabled(1));
    assert!(curve_selection_enabled(2));
    assert!(curve_selection_enabled(3));
}

#[test]
fn curve_selector_cycles_through_all_schemes() {
    let mut session = EditorSession::new();
    assert_eq!(session.curve_mode, None);
    session.cycle_curve();
    assert_eq!(session.curve_mode, Some(CurveAlgorithm::CatmullRomUniform));
    session.cycle_curve();
    assert_eq!(session.curve_mode, Some(CurveAlgorithm::CatmullRomCentripetal));
    session.cycle_curve();
    assert_eq!(session.curve_mode, Some(CurveAlgorithm::MonotonicSpline));
    session.cycle_curve();
    assert_eq!(session.curve_mode, Some(CurveAlgorithm::NaturalCubicSpline));
    session.cycle_curve();
    assert_eq!(session.curve_mode, None);
}

#[test]
fn straight_mode_toggles() {
    let mut session = EditorSession::new();
    assert!(!session.straight_mode);
    session.toggle_straight();
    assert!(session.straight_mode);
    session.toggle_straight();
    assert!(!session.straight_mode);
}

#[test]
fn clear_resets_modes_and_points() {
    let mut session = EditorSession::new();
    session.add_dot(pt(1, 1));
    session.toggle_straight();
    session.cycle_curve();
    session.toggle_delete();
    session.clear();
    assert_eq!(session.store.len(), 0);
    assert!(!session.straight_mode);
    assert_eq!(session.curve_mode, None);
    // delete mode is an input-interpretation flag, not curve state
    assert!(session.delete_mode);
}

#[test]
fn deletion_only_acts_in_delete_mode() {
    let mut session = EditorSession::new();
    session.add_dot(pt(10, 10));
    assert!(!session.delete_dot_near(pt(10, 10)));
    assert_eq!(session.store.len(), 1);
    session.toggle_delete();
    assert!(session.delete_dot_near(pt(12, 12)));
    assert_eq!(session.store.len(), 0);
}

#[test]
fn mutations_invalidate_the_render_cache() {
    let mut session = EditorSession::new();
    assert!(session.take_redraw());
    assert!(!session.take_redraw());
    session.add_dot(pt(1, 1));
    assert!(session.take_redraw());
    session.toggle_straight();
    assert!(session.take_redraw());
    session.cycle_curve();
    assert!(session.take_redraw());
    // toggling delete mode changes no geometry and schedules no redraw
    session.toggle_delete();
    assert!(!session.take_redraw());
}

#[test]
fn full_pipeline_from_store_to_polyline() {
    let mut session = EditorSession::new();
    session.add_dot(pt(30, 40));
    session.add_dot(pt(10, 20));
    session.add_dot(pt(50, 5));
    session.cycle_curve();
    assert_eq!(session.curve_mode, Some(CurveAlgorithm::CatmullRomUniform));
    let prepared = prepare_sequence(session.store.points(), fx(200));
    assert_eq!(prepared.len(), 5);
    let samples = sample_curve(&prepared, CurveAlgorithm::CatmullRomUniform);
    assert_eq!(samples.len(), 200);
    // the polyline starts on the left boundary point and ends on the
    // right one
    assert_eq!(samples[0], pt(0, 20));
    assert_eq!(samples[199], pt(200, 5));
}
