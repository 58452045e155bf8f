//! The segment preparer: sorts the control points by x, synthesizes the
//! two phantom boundary points clamped to the drawing surface's left and
//! right edges, and re-sorts — producing the sequence the interpolation
//! engine consumes.
//!
//! The sort is a stable insertion sort: a point is inserted after every
//! point of equal x, so ties keep their capture order.

use vstd::prelude::*;
use crate::fixed::MAX_COORD;
use crate::point::{all_in_range, Point};

verus! {

/// Non-decreasing in x.
pub open spec fn sorted_by_x(s: Seq<Point>) -> bool {
    forall|i: int, j: int| 0 <= i < j < s.len() ==> #[trigger] s[i].x <= #[trigger] s[j].x
}

/// Stable insertion of `p` into `s`: after every element of x at most
/// `p.x`, before every element of greater x.
pub open spec fn insert_sorted(s: Seq<Point>, p: Point) -> Seq<Point>
    decreases s.len(),
{
    if s.len() == 0 {
        seq![p]
    } else if s.last().x <= p.x {
        s.push(p)
    } else {
        insert_sorted(s.drop_last(), p).push(s.last())
    }
}

/// Stable sort by x: insertion sort over the sequence.
pub open spec fn sort_by_x(s: Seq<Point>) -> Seq<Point>
    decreases s.len(),
{
    if s.len() == 0 {
        Seq::empty()
    } else {
        insert_sorted(sort_by_x(s.drop_last()), s.last())
    }
}

/// The prepared sequence: the points sorted by x, then the left boundary
/// point at x = 0 with the first anchor's y and the right boundary point
/// at x = surface width with the last anchor's y, re-sorted. Empty input
/// gives empty output.
pub open spec fn prepare_spec(s: Seq<Point>, surface_width: i64) -> Seq<Point> {
    if s.len() == 0 {
        Seq::empty()
    } else {
        let sorted = sort_by_x(s);
        let lo = Point { x: 0, y: sorted.first().y };
        let hi = Point { x: surface_width, y: sorted.last().y };
        sort_by_x(sorted.push(lo).push(hi))
    }
}

/// Shape of a stable insertion: one longer, still sorted, same contents
/// plus the new point, every element either old or the new one.
pub proof fn lemma_insert_sorted_props(s: Seq<Point>, p: Point)
    ensures
        insert_sorted(s, p).len() == s.len() + 1,
        sorted_by_x(s) ==> sorted_by_x(insert_sorted(s, p)),
        insert_sorted(s, p).to_multiset() == s.to_multiset().insert(p),
        forall|i: int|
            0 <= i < insert_sorted(s, p).len() ==> s.contains(#[trigger] insert_sorted(s, p)[i])
                || insert_sorted(s, p)[i] == p,
    decreases s.len(),
{
    broadcast use vstd::seq_lib::group_to_multiset_ensures;

    if s.len() == 0 {
        assert(insert_sorted(s, p) =~= Seq::empty().push(p));
        assert(insert_sorted(s, p).to_multiset() =~= s.to_multiset().insert(p));
    } else if s.last().x <= p.x {
        assert(forall|i: int| 0 <= i < s.len() ==> s.contains(#[trigger] s[i]));
    } else {
        lemma_insert_sorted_props(s.drop_last(), p);
        let inner = insert_sorted(s.drop_last(), p);
        assert(s.drop_last().push(s.last()) =~= s);
        assert(s.drop_last().to_multiset().insert(s.last()) =~= s.to_multiset());
        assert(insert_sorted(s, p).to_multiset() =~= s.to_multiset().insert(p)) by {
            assert(inner.push(s.last()).to_multiset() =~= inner.to_multiset().insert(s.last()));
        }
        assert(forall|i: int|
            0 <= i < s.drop_last().len() ==> s.drop_last()[i] == s[i] && s.contains(
                #[trigger] s[i]));
        if sorted_by_x(s) {
            assert(sorted_by_x(s.drop_last()));
            assert forall|i: int, j: int|
                0 <= i < j < insert_sorted(s, p).len() implies (
            #[trigger] insert_sorted(s, p)[i]).x <= (#[trigger] insert_sorted(s, p)[j]).x by {
                if j == insert_sorted(s, p).len() - 1 {
                    let q = insert_sorted(s, p)[i];
                    assert(q == inner[i]);
                    assert(s.drop_last().contains(q) || q == p);
                    if s.drop_last().contains(q) {
                        let w = choose|w: int| 0 <= w < s.drop_last().len() && s.drop_last()[w] == q;
                        assert(s[w] == q);
                        assert(q.x <= s.last().x);
                    }
                }
            }
        }
    }
}

/// Shape of the stable sort: same length and contents, sorted, every
/// element an element of the input.
pub proof fn lemma_sort_props(s: Seq<Point>)
    ensures
        sort_by_x(s).len() == s.len(),
        sorted_by_x(sort_by_x(s)),
        sort_by_x(s).to_multiset() == s.to_multiset(),
        forall|i: int| 0 <= i < sort_by_x(s).len() ==> s.contains(#[trigger] sort_by_x(s)[i]),
    decreases s.len(),
{
    broadcast use vstd::seq_lib::group_to_multiset_ensures;

    if s.len() > 0 {
        lemma_sort_props(s.drop_last());
        lemma_insert_sorted_props(sort_by_x(s.drop_last()), s.last());
        assert(s.drop_last().push(s.last()) =~= s);
        assert(s.drop_last().to_multiset().insert(s.last()) =~= s.to_multiset());
        assert forall|i: int| 0 <= i < sort_by_x(s).len() implies s.contains(
            #[trigger] sort_by_x(s)[i],
        ) by {
            let q = sort_by_x(s)[i];
            if sort_by_x(s.drop_last()).contains(q) {
                let w = choose|w: int|
                    0 <= w < sort_by_x(s.drop_last()).len() && sort_by_x(s.drop_last())[w] == q;
                let v = choose|v: int| 0 <= v < s.drop_last().len() && s.drop_last()[v] == q;
                assert(s[v] == q);
            } else {
                assert(q == s.last());
                assert(s[s.len() - 1] == q);
            }
        }
    }
}

/// Inserting at the position the scan found is the stable insertion.
proof fn lemma_insert_sorted_at(s: Seq<Point>, p: Point, idx: int)
    requires
        0 <= idx <= s.len(),
        forall|m: int| idx <= m < s.len() ==> (#[trigger] s[m]).x > p.x,
        idx > 0 ==> s[idx - 1].x <= p.x,
    ensures
        insert_sorted(s, p) == s.insert(idx, p),
    decreases s.len(),
{
    if s.len() == 0 {
        assert(insert_sorted(s, p) =~= s.insert(0, p));
    } else if idx == s.len() {
        assert(insert_sorted(s, p) =~= s.insert(idx, p));
    } else {
        assert(s.last().x > p.x);
        lemma_insert_sorted_at(s.drop_last(), p, idx);
        assert(insert_sorted(s.drop_last(), p).push(s.last()) =~= s.insert(idx, p));
    }
}

/// Inserts a point into a vector sorted by x, after every point of equal
/// or smaller x.
fn insert_point(v: &mut Vec<Point>, p: Point)
    requires
        sorted_by_x(old(v)@),
    ensures
        final(v)@ == insert_sorted(old(v)@, p),
{
    let mut idx: usize = v.len();
    while idx > 0 && v[idx - 1].x > p.x
        invariant
            idx <= v@.len(),
            v@ == old(v)@,
            forall|m: int| idx as int <= m < v@.len() ==> (#[trigger] v@[m]).x > p.x,
        decreases idx,
    {
        idx = idx - 1;
    }
    v.insert(idx, p);
    proof {
        lemma_insert_sorted_at(old(v)@, p, idx as int);
    }
}

/// Stable sort of the points by x.
pub fn sort_points(points: &Vec<Point>) -> (r: Vec<Point>)
    ensures
        r@ == sort_by_x(points@),
{
    let n = points.len();
    let mut out: Vec<Point> = Vec::new();
    let mut i: usize = 0;
    while i < n
        invariant
            n == points@.len(),
            i <= n,
            out@ == sort_by_x(points@.take(i as int)),
        decreases n - i,
    {
        proof {
            lemma_sort_props(points@.take(i as int));
        }
        insert_point(&mut out, points[i]);
        i = i + 1;
        proof {
            assert(points@.take(i as int).drop_last() =~= points@.take(i as int - 1));
            assert(points@.take(i as int).last() == points@[i as int - 1]);
        }
    }
    proof {
        assert(points@.take(n as int) =~= points@);
    }
    out
}

/// Builds the prepared sequence: sort, clamp a phantom point to each edge
/// of the surface, re-sort.
pub fn prepare_sequence(points: &Vec<Point>, surface_width: i64) -> (r: Vec<Point>)
    requires
        all_in_range(points@),
        0 <= surface_width <= MAX_COORD,
    ensures
        r@ == prepare_spec(points@, surface_width),
        points@.len() == 0 ==> r@.len() == 0,
        points@.len() > 0 ==> r@.len() == points@.len() + 2,
        sorted_by_x(r@),
        all_in_range(r@),
{
    if points.len() == 0 {
        let r: Vec<Point> = Vec::new();
        proof {
            assert(r@ =~= prepare_spec(points@, surface_width));
        }
        return r;
    }
    proof {
        lemma_sort_props(points@);
    }
    let mut sorted = sort_points(points);
    let first_y = sorted[0].y;
    let last_y = sorted[sorted.len() - 1].y;
    let lo = Point { x: 0, y: first_y };
    let hi = Point { x: surface_width, y: last_y };
    let ghost mid = sorted@;
    sorted.push(lo);
    sorted.push(hi);
    proof {
        assert(all_in_range(mid)) by {
            assert(forall|i: int|
                0 <= i < mid.len() ==> points@.contains(#[trigger] mid[i]));
            assert forall|i: int| 0 <= i < mid.len() implies (#[trigger] mid[i]).in_range() by {
                let w = choose|w: int| 0 <= w < points@.len() && points@[w] == mid[i];
            }
        }
        crate::fixed::lemma_scale_values();
        assert(mid[0].in_range());
        assert(mid[mid.len() - 1].in_range());
        assert(lo.in_range() && hi.in_range());
        assert(all_in_range(sorted@));
        lemma_sort_props(sorted@);
    }
    let r = sort_points(&sorted);
    proof {
        assert(forall|i: int|
            0 <= i < r@.len() ==> sorted@.contains(#[trigger] r@[i]));
        assert forall|i: int| 0 <= i < r@.len() implies (#[trigger] r@[i]).in_range() by {
            let w = choose|w: int| 0 <= w < sorted@.len() && sorted@[w] == r@[i];
        }
    }
    r
}

/// When every control point lies strictly inside the surface, the
/// prepared sequence starts with the left boundary point (x = 0, the
/// first anchor's y) and ends with the right one (x = the surface width,
/// the last anchor's y).
pub proof fn lemma_prepare_ends(s: Seq<Point>, surface_width: i64)
    requires
        0 < s.len(),
        all_in_range(s),
        0 <= surface_width <= MAX_COORD,
        forall|i: int| 0 <= i < s.len() ==> 0 < (#[trigger] s[i]).x < surface_width,
    ensures
        prepare_spec(s, surface_width).first() == (Point { x: 0, y: sort_by_x(s).first().y }),
        prepare_spec(s, surface_width).last() == (Point {
            x: surface_width,
            y: sort_by_x(s).last().y,
        }),
{
    broadcast use vstd::seq_lib::group_to_multiset_ensures;

    let sorted = sort_by_x(s);
    lemma_sort_props(s);
    let lo = Point { x: 0, y: sorted.first().y };
    let hi = Point { x: surface_width, y: sorted.last().y };
    let pushed = sorted.push(lo).push(hi);
    let r = sort_by_x(pushed);
    lemma_sort_props(pushed);
    // every element of the result is a control point, `lo`, or `hi`, and
    // every control point keeps a strictly interior x
    assert forall|i: int| 0 <= i < r.len() implies r[i] == lo || r[i] == hi || (0 < (
    #[trigger] r[i]).x < surface_width) by {
        assert(pushed.contains(r[i]));
        let w = choose|w: int| 0 <= w < pushed.len() && pushed[w] == r[i];
        if w < sorted.len() {
            assert(sorted[w] == r[i]);
            assert(s.contains(sorted[w]));
            let v = choose|v: int| 0 <= v < s.len() && s[v] == sorted[w];
        }
    }
    // `lo` occurs in the result, and only `lo` can stand first
    assert(pushed[sorted.len() as int] == lo);
    assert(pushed.contains(lo));
    assert(pushed.to_multiset().count(lo) > 0);
    assert(r.to_multiset().count(lo) > 0);
    assert(r.contains(lo));
    let kl = choose|k: int| 0 <= k < r.len() && r[k] == lo;
    assert(0 < hi.x) by {
        assert(0 < s[0].x < surface_width);
    }
    if r[0] != lo {
        assert(kl != 0);
        assert(r[0].x <= r[kl].x);
        assert(r[0] == lo || r[0] == hi || 0 < r[0].x < surface_width);
        assert(false);
    }
    assert(r.first() == lo);
    // `hi` occurs in the result, and only `hi` can stand last
    assert(pushed[sorted.len() as int + 1] == hi);
    assert(pushed.contains(hi));
    assert(pushed.to_multiset().count(hi) > 0);
    assert(r.to_multiset().count(hi) > 0);
    assert(r.contains(hi));
    let kh = choose|k: int| 0 <= k < r.len() && r[k] == hi;
    if r[r.len() - 1] != hi {
        assert(kh != r.len() - 1);
        assert(r[kh].x <= r[r.len() - 1].x);
        assert(r[r.len() - 1] == lo || r[r.len() - 1] == hi || 0 < r[r.len() - 1].x
            < surface_width);
        assert(false);
    }
    assert(r.last() == hi);
}

} // verus!
