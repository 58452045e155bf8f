//! The point store: the ordered, mutable sequence of control points.
//!
//! Points are appended unconditionally, removed by proximity to a query
//! position (the first stored point within tolerance on both axes), and
//! cleared all at once. Every operation is total.

use vstd::prelude::*;
use crate::point::{all_in_range, Point};

verus! {

/// Whether `p` lies strictly within the given tolerances of `q` on both
/// axes.
pub open spec fn near(p: Point, q: Point, tol_x: i64, tol_y: i64) -> bool {
    -tol_x < p.x - q.x < tol_x && -tol_y < p.y - q.y < tol_y
}

/// Index of the first point at or after `from` that is near the query,
/// or -1 when none is.
pub open spec fn first_near_from(
    s: Seq<Point>,
    q: Point,
    tol_x: i64,
    tol_y: i64,
    from: int,
) -> int
    decreases s.len() - from,
{
    if from < 0 || from >= s.len() {
        -1
    } else if near(s[from], q, tol_x, tol_y) {
        from
    } else {
        first_near_from(s, q, tol_x, tol_y, from + 1)
    }
}

/// Index of the first stored point near the query, or -1 when none is.
pub open spec fn first_near_index(s: Seq<Point>, q: Point, tol_x: i64, tol_y: i64) -> int {
    first_near_from(s, q, tol_x, tol_y, 0)
}

/// The ordered store of control points.
pub struct PointStore {
    /// The points in capture order.
    pub points: Vec<Point>,
}

impl View for PointStore {
    type V = Seq<Point>;

    /// The stored points, in capture order.
    open spec fn view(&self) -> Seq<Point> {
        self.points@
    }
}

impl PointStore {
    /// Every stored point lies within the coordinate bound.
    pub open spec fn wf(&self) -> bool {
        all_in_range(self@)
    }

    /// An empty store.
    pub fn new() -> (s: PointStore)
        ensures
            s@ == Seq::<Point>::empty(),
            s.wf(),
    {
        let s = PointStore { points: Vec::new() };
        proof {
            assert(s@ =~= Seq::<Point>::empty());
        }
        s
    }

    /// Number of stored points.
    pub fn len(&self) -> (n: usize)
        ensures
            n == self@.len(),
    {
        self.points.len()
    }

    /// The point at `i`.
    pub fn get(&self, i: usize) -> (p: Point)
        requires
            i < self@.len(),
        ensures
            p == self@[i as int],
    {
        self.points[i]
    }

    /// The stored points as a vector, for the preparer.
    pub fn points(&self) -> (v: &Vec<Point>)
        ensures
            v@ == self@,
    {
        &self.points
    }

    /// Appends a point unconditionally: no deduplication.
    pub fn add(&mut self, p: Point)
        requires
            old(self).wf(),
            p.in_range(),
        ensures
            final(self)@ == old(self)@.push(p),
            final(self).wf(),
    {
        self.points.push(p);
    }

    /// Removes the first stored point whose coordinate-wise distance from
    /// `q` is strictly within the tolerances, if any; reports whether one
    /// was removed.
    pub fn remove_near(&mut self, q: Point, tol_x: i64, tol_y: i64) -> (removed: bool)
        requires
            old(self).wf(),
            q.in_range(),
            0 <= tol_x,
            0 <= tol_y,
        ensures
            first_near_index(old(self)@, q, tol_x, tol_y) >= 0 ==> removed && final(self)@ == old(
                self,
            )@.remove(first_near_index(old(self)@, q, tol_x, tol_y)),
            first_near_index(old(self)@, q, tol_x, tol_y) < 0 ==> !removed && final(self)@ == old(
                self,
            )@,
            final(self).wf(),
    {
        let n = self.points.len();
        let mut i: usize = 0;
        while i < n
            invariant
                self@ == old(self)@,
                self.wf(),
                q.in_range(),
                n == self@.len(),
                i <= n,
                first_near_index(self@, q, tol_x, tol_y) == first_near_from(
                    self@,
                    q,
                    tol_x,
                    tol_y,
                    i as int,
                ),
            decreases n - i,
        {
            let p = self.points[i];
            proof {
                assert(self@[i as int].in_range());
            }
            if p.x - q.x < tol_x && q.x - p.x < tol_x && p.y - q.y < tol_y && q.y - p.y < tol_y {
                let ghost pre = self@;
                self.points.remove(i);
                proof {
                    assert(first_near_from(pre, q, tol_x, tol_y, i as int) == i as int);
                    assert(self@ == pre.remove(i as int));
                    assert forall|k: int| 0 <= k < self@.len() implies (
                    #[trigger] self@[k]).in_range() by {
                        if k < i as int {
                            assert(self@[k] == pre[k]);
                        } else {
                            assert(self@[k] == pre[k + 1]);
                        }
                    }
                }
                return true;
            }
            i = i + 1;
        }
        false
    }

    /// Empties the store.
    pub fn clear(&mut self)
        ensures
            final(self)@ == Seq::<Point>::empty(),
            final(self).wf(),
    {
        self.points = Vec::new();
        proof {
            assert(self@ =~= Seq::<Point>::empty());
        }
    }
}

} // verus!
