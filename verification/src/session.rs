//! The mode/policy controller and the editor session.
//!
//! Two independent mode axes: a straight-line toggle and a cyclic curve
//! selector over the four interpolation schemes. Every transition and
//! every change to the points invalidates the render cache, modelled as a
//! dirty flag that the drawer takes lazily.

use vstd::prelude::*;
use crate::point::Point;
use crate::store::{first_near_index, PointStore};

verus! {

/// The curve interpolation schemes, in the order the selector cycles
/// through them.
#[derive(Clone, Copy, PartialEq, Eq, Structural, Debug)]
pub enum CurveAlgorithm {
    CatmullRomUniform,
    CatmullRomCentripetal,
    MonotonicSpline,
    NaturalCubicSpline,
}

/// The next selection of the cyclic curve selector: off, each scheme in
/// order, then off again.
pub open spec fn next_algorithm(cur: Option<CurveAlgorithm>) -> Option<CurveAlgorithm> {
    match cur {
        Option::None => Option::Some(CurveAlgorithm::CatmullRomUniform),
        Option::Some(CurveAlgorithm::CatmullRomUniform) => Option::Some(
            CurveAlgorithm::CatmullRomCentripetal,
        ),
        Option::Some(CurveAlgorithm::CatmullRomCentripetal) => Option::Some(
            CurveAlgorithm::MonotonicSpline,
        ),
        Option::Some(CurveAlgorithm::MonotonicSpline) => Option::Some(
            CurveAlgorithm::NaturalCubicSpline,
        ),
        Option::Some(CurveAlgorithm::NaturalCubicSpline) => Option::None,
    }
}

/// Whether the curve selector is offered: it takes at least two control
/// points to draw a curve.
pub fn curve_selection_enabled(point_count: usize) -> (e: bool)
    ensures
        e <==> point_count >= 2,
{
    point_count >= 2
}

/// Tolerance of point removal on each axis: ten real units, in fixed
/// point.
pub const REMOVE_TOLERANCE: i64 = 2560;

/// The editor session: the store, the two mode axes, the delete-mode
/// flag, and the render-cache dirty flag.
pub struct EditorSession {
    pub store: PointStore,
    pub straight_mode: bool,
    pub curve_mode: Option<CurveAlgorithm>,
    pub delete_mode: bool,
    pub needs_redraw: bool,
}

impl EditorSession {
    /// Every stored point lies within the coordinate bound.
    pub open spec fn wf(&self) -> bool {
        self.store.wf()
    }

    /// A fresh session: no points, every mode off, one initial draw due.
    pub fn new() -> (s: EditorSession)
        ensures
            s.store@ == Seq::<Point>::empty(),
            !s.straight_mode,
            s.curve_mode is None,
            !s.delete_mode,
            s.needs_redraw,
            s.wf(),
    {
        EditorSession {
            store: PointStore::new(),
            straight_mode: false,
            curve_mode: None,
            delete_mode: false,
            needs_redraw: true,
        }
    }

    /// Appends a control point and invalidates the render cache.
    pub fn add_dot(&mut self, p: Point)
        requires
            old(self).wf(),
            p.in_range(),
        ensures
            final(self).store@ == old(self).store@.push(p),
            final(self).straight_mode == old(self).straight_mode,
            final(self).curve_mode == old(self).curve_mode,
            final(self).delete_mode == old(self).delete_mode,
            final(self).needs_redraw,
            final(self).wf(),
    {
        self.store.add(p);
        self.needs_redraw = true;
    }

    /// In delete mode, removes the first point within the removal
    /// tolerance of the position and invalidates the cache when one was
    /// removed; outside delete mode it does nothing.
    pub fn delete_dot_near(&mut self, q: Point) -> (removed: bool)
        requires
            old(self).wf(),
            q.in_range(),
        ensures
            !old(self).delete_mode ==> !removed && final(self).store@ == old(self).store@
                && final(self).needs_redraw == old(self).needs_redraw,
            old(self).delete_mode && first_near_index(
                old(self).store@,
                q,
                REMOVE_TOLERANCE,
                REMOVE_TOLERANCE,
            ) >= 0 ==> removed && final(self).store@ == old(self).store@.remove(
                first_near_index(old(self).store@, q, REMOVE_TOLERANCE, REMOVE_TOLERANCE),
            ) && final(self).needs_redraw,
            old(self).delete_mode && first_near_index(
                old(self).store@,
                q,
                REMOVE_TOLERANCE,
                REMOVE_TOLERANCE,
            ) < 0 ==> !removed && final(self).store@ == old(self).store@
                && final(self).needs_redraw == old(self).needs_redraw,
            final(self).straight_mode == old(self).straight_mode,
            final(self).curve_mode == old(self).curve_mode,
            final(self).delete_mode == old(self).delete_mode,
            final(self).wf(),
    {
        if self.delete_mode {
            let removed = self.store.remove_near(q, REMOVE_TOLERANCE, REMOVE_TOLERANCE);
            if removed {
                self.needs_redraw = true;
            }
            removed
        } else {
            false
        }
    }

    /// Empties the store and resets both curve axes to their defaults;
    /// delete mode is kept.
    pub fn clear(&mut self)
        requires
            old(self).wf(),
        ensures
            final(self).store@ == Seq::<Point>::empty(),
            !final(self).straight_mode,
            final(self).curve_mode is None,
            final(self).delete_mode == old(self).delete_mode,
            final(self).needs_redraw,
            final(self).wf(),
    {
        self.store.clear();
        self.straight_mode = false;
        self.curve_mode = None;
        self.needs_redraw = true;
    }

    /// Flips straight-line mode and invalidates the cache.
    pub fn toggle_straight(&mut self)
        requires
            old(self).wf(),
        ensures
            final(self).straight_mode == !old(self).straight_mode,
            final(self).store@ == old(self).store@,
            final(self).curve_mode == old(self).curve_mode,
            final(self).delete_mode == old(self).delete_mode,
            final(self).needs_redraw,
            final(self).wf(),
    {
        self.straight_mode = !self.straight_mode;
        self.needs_redraw = true;
    }

    /// Advances the curve selector one step around its cycle and
    /// invalidates the cache.
    pub fn cycle_curve(&mut self)
        requires
            old(self).wf(),
        ensures
            final(self).curve_mode == next_algorithm(old(self).curve_mode),
            final(self).store@ == old(self).store@,
            final(self).straight_mode == old(self).straight_mode,
            final(self).delete_mode == old(self).delete_mode,
            final(self).needs_redraw,
            final(self).wf(),
    {
        self.curve_mode = match self.curve_mode {
            None => Some(CurveAlgorithm::CatmullRomUniform),
            Some(CurveAlgorithm::CatmullRomUniform) => Some(
                CurveAlgorithm::CatmullRomCentripetal,
            ),
            Some(CurveAlgorithm::CatmullRomCentripetal) => Some(CurveAlgorithm::MonotonicSpline),
            Some(CurveAlgorithm::MonotonicSpline) => Some(CurveAlgorithm::NaturalCubicSpline),
            Some(CurveAlgorithm::NaturalCubicSpline) => None,
        };
        self.needs_redraw = true;
    }

    /// Flips delete mode; the geometry is unchanged, so no redraw is due.
    pub fn toggle_delete(&mut self)
        requires
            old(self).wf(),
        ensures
            final(self).delete_mode == !old(self).delete_mode,
            final(self).store@ == old(self).store@,
            final(self).straight_mode == old(self).straight_mode,
            final(self).curve_mode == old(self).curve_mode,
            final(self).needs_redraw == old(self).needs_redraw,
            final(self).wf(),
    {
        self.delete_mode = !self.delete_mode;
    }

    /// Reports whether a redraw is due and marks the cache clean: the
    /// memoization step of the lazy drawer.
    pub fn take_redraw(&mut self) -> (due: bool)
        requires
            old(self).wf(),
        ensures
            due == old(self).needs_redraw,
            !final(self).needs_redraw,
            final(self).store@ == old(self).store@,
            final(self).straight_mode == old(self).straight_mode,
            final(self).curve_mode == old(self).curve_mode,
            final(self).delete_mode == old(self).delete_mode,
            final(self).wf(),
    {
        let due = self.needs_redraw;
        self.needs_redraw = false;
        due
    }
}

} // verus!
