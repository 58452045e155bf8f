//! Natural cubic spline coefficients by the standard tridiagonal solve.
//!
//! The solve assumes unit spacing between consecutive knots (`h[i] = 1`)
//! whatever the actual x-distances: a deliberate simplification of this
//! editor, kept for the curve shapes it gives, rather than a true
//! natural-cubic-spline-in-x. The boundary condition is natural: zero
//! second derivative at both ends, so two knots give an exactly linear
//! segment.
//!
//! Scale powers appear as literals: 256 is `SCALE`, 65536 is `SCALE^2`,
//! 0x100_0000 is `SCALE^3`; 1024 is `4*SCALE`.

use vstd::prelude::*;
use crate::fixed::{
    div_fl, lemma_div_bound_by, lemma_div_exact, lemma_div_mag, lemma_mul_mag,
    lemma_scale_values,
};
use crate::hermite::coords_in_range;
use vstd::arithmetic::div_mod::{
    lemma_div_is_ordered_by_denominator, lemma_div_of0, lemma_div_pos_is_pos,
};

verus! {

/// Per-segment coefficients of a cubic `a + b*t + c*t^2 + d*t^3` in the
/// local parameter `t` of the segment, all in fixed point.
#[derive(Clone, Copy, PartialEq, Eq, Structural, Debug)]
pub struct SplineCoefficients {
    pub a: i64,
    pub b: i64,
    pub c: i64,
    pub d: i64,
}

/// Right-hand side of the tridiagonal system at interior knot `i`:
/// `3*(a[i+1]-a[i]) - 3*(a[i]-a[i-1])` for unit spacing.
pub open spec fn alpha_at(pts: Seq<i64>, i: int) -> int {
    3 * (pts[i + 1] - pts[i]) - 3 * (pts[i] - pts[i - 1])
}

/// Forward elimination state at knot `i`: the triple `(l, mu, z)` of the
/// standard solve, in fixed point (`l[0] = 1`, `mu[0] = z[0] = 0`, then
/// `l[i] = 4 - mu[i-1]`, `mu[i] = 1/l[i]`, `z[i] = (alpha[i]-z[i-1])/l[i]`).
pub open spec fn lmz(pts: Seq<i64>, i: int) -> (int, int, int)
    decreases i,
{
    if i <= 0 {
        (256int, 0int, 0int)
    } else {
        let prev = lmz(pts, i - 1);
        let l = 1024 - prev.1;
        let mu = 65536int / l;
        let z = ((alpha_at(pts, i) - prev.2) * 256) / l;
        (l, mu, z)
    }
}

/// Back substitution: the second-derivative coefficient at knot `i` of a
/// spline over `n` segments (`c[n] = 0`, `c[i] = z[i] - mu[i]*c[i+1]`).
pub open spec fn c_of(pts: Seq<i64>, i: int, n: int) -> int
    decreases n - i,
{
    if i >= n {
        0
    } else {
        lmz(pts, i).2 - (lmz(pts, i).1 * c_of(pts, i + 1, n)) / 256
    }
}

/// The coefficients of segment `i`.
pub open spec fn coeff_at(pts: Seq<i64>, i: int) -> SplineCoefficients {
    let n = pts.len() - 1;
    SplineCoefficients {
        a: pts[i],
        b: ((pts[i + 1] - pts[i]) - (c_of(pts, i + 1, n) + 2 * c_of(pts, i, n)) / 3) as i64,
        c: c_of(pts, i, n) as i64,
        d: ((c_of(pts, i + 1, n) - c_of(pts, i, n)) / 3) as i64,
    }
}

/// The per-segment coefficient array of the whole channel.
pub open spec fn natural_coeffs(pts: Seq<i64>) -> Seq<SplineCoefficients> {
    Seq::new((pts.len() - 1) as nat, |i: int| coeff_at(pts, i))
}

/// All four coefficients of a segment stay within `2^26`.
pub open spec fn coeffs_in_range(cs: Seq<SplineCoefficients>) -> bool {
    forall|i: int|
        0 <= i < cs.len() ==> {
            let co = #[trigger] cs[i];
            -0x400_0000 <= co.a <= 0x400_0000 && -0x400_0000 <= co.b <= 0x400_0000
                && -0x400_0000 <= co.c <= 0x400_0000 && -0x400_0000 <= co.d <= 0x400_0000
        }
}

/// Bounds of the forward elimination state: `l` close to 4, `mu` close to
/// 1/4, `z` bounded by the right-hand sides.
pub proof fn lemma_lmz_bounds(pts: Seq<i64>, i: int)
    requires
        coords_in_range(pts),
        2 <= pts.len(),
        0 <= i <= pts.len() - 2,
    ensures
        256 <= lmz(pts, i).0 <= 1024,
        0 <= lmz(pts, i).1 <= 85,
        -0x200_0000 <= lmz(pts, i).2 <= 0x200_0000,
    decreases i,
{
    lemma_scale_values();
    if i > 0 {
        lemma_lmz_bounds(pts, i - 1);
        let prev = lmz(pts, i - 1);
        let l = 1024 - prev.1;
        assert(939 <= l <= 1024);
        lemma_div_pos_is_pos(65536, l);
        lemma_div_is_ordered_by_denominator(65536, 939, l);
        assert(65536int / 939 == 69) by (nonlinear_arith);
        assert(-0x300_0000 <= alpha_at(pts, i) <= 0x300_0000);
        let num = (alpha_at(pts, i) - prev.2) * 256;
        assert(-0x5_0000_0000 <= num <= 0x5_0000_0000);
        assert(-(0x200_0000 * l) <= num && num <= 0x200_0000 * l) by (nonlinear_arith)
            requires
                939 <= l,
                -0x5_0000_0000 <= num <= 0x5_0000_0000,
        ;
        lemma_div_bound_by(num, l, 0x200_0000);
    }
}

/// The second-derivative coefficients stay within `0x300_0000`.
pub proof fn lemma_c_bounds(pts: Seq<i64>, i: int, n: int)
    requires
        coords_in_range(pts),
        n == pts.len() - 1,
        1 <= n,
        0 <= i,
    ensures
        -0x300_0000 <= c_of(pts, i, n) <= 0x300_0000,
    decreases n - i,
{
    if i < n {
        lemma_c_bounds(pts, i + 1, n);
        lemma_lmz_bounds(pts, i);
        let cn = c_of(pts, i + 1, n);
        let mu = lmz(pts, i).1;
        lemma_mul_mag(mu, cn, 85, 0x300_0000);
        lemma_div_bound_by(mu * cn, 256, 0x100_0000);
    }
}

/// All coefficients of in-range knots are in range.
pub proof fn lemma_coeffs_in_range(pts: Seq<i64>)
    requires
        coords_in_range(pts),
        2 <= pts.len(),
    ensures
        coeffs_in_range(natural_coeffs(pts)),
{
    lemma_scale_values();
    let n = pts.len() - 1;
    assert forall|i: int| 0 <= i < natural_coeffs(pts).len() implies {
        let co = #[trigger] natural_coeffs(pts)[i];
        -0x400_0000 <= co.a <= 0x400_0000 && -0x400_0000 <= co.b <= 0x400_0000
            && -0x400_0000 <= co.c <= 0x400_0000 && -0x400_0000 <= co.d <= 0x400_0000
    } by {
        lemma_c_bounds(pts, i, n);
        lemma_c_bounds(pts, i + 1, n);
        lemma_div_bound_by(c_of(pts, i + 1, n) + 2 * c_of(pts, i, n), 3, 0x300_0000);
        lemma_div_bound_by(c_of(pts, i + 1, n) - c_of(pts, i, n), 3, 0x200_0000);
    }
}

/// Computes the natural cubic spline coefficients of one channel: one
/// `[a, b, c, d]` per consecutive pair of knots, by forward elimination
/// and back substitution of the unit-spacing tridiagonal system.
pub fn compute_natural_cubic_spline(points: &Vec<i64>) -> (r: Vec<SplineCoefficients>)
    requires
        coords_in_range(points@),
        1 <= points@.len(),
    ensures
        r@ == natural_coeffs(points@),
{
    proof {
        lemma_scale_values();
    }
    let n = points.len() - 1;
    if n == 0 {
        let out: Vec<SplineCoefficients> = Vec::new();
        proof {
            assert(out@ =~= natural_coeffs(points@));
        }
        return out;
    }
    // forward elimination
    let mut mu_v: Vec<i64> = Vec::new();
    let mut z_v: Vec<i64> = Vec::new();
    mu_v.push(0);
    z_v.push(0);
    let mut i: usize = 1;
    while i < n
        invariant
            coords_in_range(points@),
            n == points@.len() - 1,
            1 <= n,
            1 <= i <= n,
            mu_v@.len() == i as int,
            z_v@.len() == i as int,
            forall|k: int|
                0 <= k < i as int ==> (#[trigger] mu_v@[k]) as int == lmz(points@, k).1,
            forall|k: int| 0 <= k < i as int ==> (#[trigger] z_v@[k]) as int == lmz(points@, k).2,
        decreases n - i,
    {
        proof {
            lemma_lmz_bounds(points@, i as int - 1);
            lemma_lmz_bounds(points@, i as int);
        }
        let l: i128 = 1024 - mu_v[i - 1] as i128;
        let mu: i128 = div_fl(65536, l);
        let al: i128 = 3 * (points[i + 1] as i128 - points[i] as i128) - 3 * (points[i] as i128
            - points[i - 1] as i128);
        let z: i128 = div_fl((al - z_v[i - 1] as i128) * 256, l);
        mu_v.push(mu as i64);
        z_v.push(z as i64);
        i = i + 1;
    }
    // back substitution of the second-derivative coefficients
    let mut c_v: Vec<i64> = Vec::new();
    let mut f: usize = 0;
    while f <= n
        invariant
            c_v@.len() == f as int,
            f <= n + 1,
            n < usize::MAX,
            forall|k: int| 0 <= k < f as int ==> (#[trigger] c_v@[k]) == 0i64,
        decreases n + 1 - f,
    {
        c_v.push(0);
        f = f + 1;
    }
    let mut j: usize = n;
    while j > 0
        invariant
            coords_in_range(points@),
            n == points@.len() - 1,
            1 <= n,
            j <= n,
            mu_v@.len() == n as int,
            z_v@.len() == n as int,
            forall|k: int| 0 <= k < n as int ==> (#[trigger] mu_v@[k]) as int == lmz(points@, k).1,
            forall|k: int| 0 <= k < n as int ==> (#[trigger] z_v@[k]) as int == lmz(points@, k).2,
            c_v@.len() == n as int + 1,
            forall|k: int|
                j as int <= k <= n as int ==> (#[trigger] c_v@[k]) as int == c_of(
                    points@,
                    k,
                    n as int,
                ),
        decreases j,
    {
        let idx = j - 1;
        proof {
            lemma_lmz_bounds(points@, idx as int);
            lemma_c_bounds(points@, idx as int + 1, n as int);
            lemma_c_bounds(points@, idx as int, n as int);
            lemma_mul_mag(
                mu_v@[idx as int] as int,
                c_v@[idx as int + 1] as int,
                85,
                0x300_0000,
            );
            lemma_div_bound_by(
                mu_v@[idx as int] as int * c_v@[idx as int + 1] as int,
                256,
                0x100_0000,
            );
        }
        let cv: i128 = z_v[idx] as i128 - div_fl(mu_v[idx] as i128 * c_v[idx + 1] as i128, 256);
        c_v.set(idx, cv as i64);
        j = idx;
    }
    // assemble the per-segment coefficients
    let mut out: Vec<SplineCoefficients> = Vec::new();
    let mut s: usize = 0;
    while s < n
        invariant
            coords_in_range(points@),
            n == points@.len() - 1,
            1 <= n,
            s <= n,
            c_v@.len() == n as int + 1,
            forall|k: int|
                0 <= k <= n as int ==> (#[trigger] c_v@[k]) as int == c_of(points@, k, n as int),
            out@.len() == s as int,
            forall|k: int| 0 <= k < s as int ==> #[trigger] out@[k] == coeff_at(points@, k),
        decreases n - s,
    {
        proof {
            lemma_c_bounds(points@, s as int, n as int);
            lemma_c_bounds(points@, s as int + 1, n as int);
            lemma_div_bound_by((c_v@[s as int + 1] as int + 2 * c_v@[s as int] as int), 3, 0x300_0000);
            lemma_div_bound_by((c_v@[s as int + 1] as int - c_v@[s as int] as int), 3, 0x200_0000);
        }
        let bv: i128 = (points[s + 1] as i128 - points[s] as i128) - div_fl(
            c_v[s + 1] as i128 + 2 * c_v[s] as i128,
            3,
        );
        let dv: i128 = div_fl(c_v[s + 1] as i128 - c_v[s] as i128, 3);
        out.push(
            SplineCoefficients { a: points[s], b: bv as i64, c: c_v[s], d: dv as i64 },
        );
        s = s + 1;
    }
    proof {
        assert(out@ =~= natural_coeffs(points@));
    }
    out
}

/// Value of a segment's cubic at local parameter `t`, in fixed point:
/// `a + b*t + c*t^2 + d*t^3`.
pub open spec fn evaluate_cubic_at(co: SplineCoefficients, t: int) -> int {
    co.a + (co.b * t) / 256 + (co.c * t * t) / 65536 + (co.d * t * t * t) / 0x100_0000
}

/// Evaluates a segment's cubic at local parameter `t`.
pub fn evaluate_cubic(co: &SplineCoefficients, t: i64) -> (v: i64)
    requires
        0 <= t <= 256,
        -0x400_0000 <= co.a <= 0x400_0000,
        -0x400_0000 <= co.b <= 0x400_0000,
        -0x400_0000 <= co.c <= 0x400_0000,
        -0x400_0000 <= co.d <= 0x400_0000,
    ensures
        v as int == evaluate_cubic_at(*co, t as int),
{
    let ti: i128 = t as i128;
    proof {
        lemma_mul_mag(co.b as int, ti as int, 0x400_0000, 256);
        lemma_mul_mag(co.c as int, ti as int, 0x400_0000, 256);
        lemma_mul_mag(co.c as int * ti as int, ti as int, 0x4_0000_0000, 256);
        lemma_mul_mag(co.d as int, ti as int, 0x400_0000, 256);
        lemma_mul_mag(co.d as int * ti as int, ti as int, 0x4_0000_0000, 256);
        lemma_mul_mag(co.d as int * ti as int * ti as int, ti as int, 0x400_0000_0000, 256);
        lemma_div_mag((co.b as int) * (ti as int), 256);
        lemma_div_mag((co.c as int) * (ti as int) * (ti as int), 65536);
        lemma_div_mag((co.d as int) * (ti as int) * (ti as int) * (ti as int), 0x100_0000);
    }
    let v: i128 = co.a as i128 + div_fl((co.b as i128) * ti, 256) + div_fl(
        (co.c as i128) * ti * ti,
        65536,
    ) + div_fl((co.d as i128) * ti * ti * ti, 0x100_0000);
    v as i64
}

/// Evaluating a segment's cubic at the start of the segment gives the
/// segment's own knot value exactly; at the end it gives the sum of the
/// four coefficients.
pub proof fn lemma_evaluate_cubic_ends(co: SplineCoefficients)
    ensures
        evaluate_cubic_at(co, 0) == co.a,
        evaluate_cubic_at(co, 256) == co.a + co.b + co.c + co.d,
{
    lemma_div_of0(256);
    lemma_div_of0(65536);
    lemma_div_of0(0x100_0000);
    assert(co.b * 0 == 0 && co.c * 0 * 0 == 0 && co.d * 0 * 0 * 0 == 0) by (nonlinear_arith);
    lemma_div_exact(co.b as int, 256);
    assert(co.c * 256 * 256 == (co.c as int) * 65536) by (nonlinear_arith);
    lemma_div_exact(co.c as int, 65536);
    assert(co.d * 256 * 256 * 256 == (co.d as int) * 0x100_0000) by (nonlinear_arith);
    lemma_div_exact(co.d as int, 0x100_0000);
}

/// With exactly two knots the natural boundary conditions collapse the
/// single segment to the straight line between them: the coefficients are
/// `[a0, a1-a0, 0, 0]` and every sample lies on that line.
pub proof fn lemma_natural_two_points(pts: Seq<i64>)
    requires
        coords_in_range(pts),
        pts.len() == 2,
    ensures
        natural_coeffs(pts).len() == 1,
        natural_coeffs(pts)[0] == (SplineCoefficients {
            a: pts[0],
            b: (pts[1] - pts[0]) as i64,
            c: 0i64,
            d: 0i64,
        }),
        forall|t: int|
            #[trigger] evaluate_cubic_at(natural_coeffs(pts)[0], t) == pts[0] + ((pts[1] - pts[0])
                * t) / 256,
{
    lemma_scale_values();
    lemma_div_of0(3);
    lemma_div_of0(256);
    assert(c_of(pts, 1, 1) == 0);
    assert(lmz(pts, 0).1 * c_of(pts, 1, 1) == 0) by (nonlinear_arith)
        requires
            c_of(pts, 1, 1) == 0,
    ;
    assert(c_of(pts, 0, 1) == 0);
    let co = natural_coeffs(pts)[0];
    assert(co.c == 0i64 && co.d == 0i64);
    assert forall|t: int| #[trigger] evaluate_cubic_at(co, t) == pts[0] + ((pts[1] - pts[0]) * t)
        / 256 by {
        assert(co.c * t * t == 0 && co.d * t * t * t == 0) by (nonlinear_arith)
            requires
                co.c == 0i64,
                co.d == 0i64,
        ;
        assert(0int / 65536 == 0 && 0int / 0x100_0000 == 0) by {
            lemma_div_of0(65536);
            lemma_div_of0(0x100_0000);
        }
    }
}


/// Each segment's cubic reproduces its own knot at the start of the
/// segment and the next knot at the end, exactly: the floor divisions in
/// the coefficient assembly cancel, because the two rounded quantities
/// are congruent modulo three.
pub proof fn lemma_natural_segment_ends(pts: Seq<i64>, i: int)
    requires
        coords_in_range(pts),
        2 <= pts.len(),
        0 <= i < pts.len() - 1,
    ensures
        evaluate_cubic_at(coeff_at(pts, i), 0) == pts[i],
        evaluate_cubic_at(coeff_at(pts, i), 256) == pts[i + 1],
{
    lemma_scale_values();
    let n = pts.len() - 1;
    let co = coeff_at(pts, i);
    lemma_evaluate_cubic_ends(co);
    lemma_c_bounds(pts, i, n);
    lemma_c_bounds(pts, i + 1, n);
    let c0 = c_of(pts, i, n);
    let c1 = c_of(pts, i + 1, n);
    let u = c1 + 2 * c0;
    let v = c1 - c0;
    lemma_div_bound_by(u, 3, 0x300_0000);
    lemma_div_bound_by(v, 3, 0x200_0000);
    assert(co.a == pts[i] && co.b == (pts[i + 1] - pts[i]) - u / 3 && co.c == c0 && co.d == v
        / 3);
    vstd::arithmetic::div_mod::lemma_fundamental_div_mod(u, 3);
    vstd::arithmetic::div_mod::lemma_fundamental_div_mod(v, 3);
    // u - v == 3*c0, and both remainders lie in [0, 3), so they are equal
    // and the two floor divisions cancel against c0
    assert(u % 3 == v % 3) by (nonlinear_arith)
        requires
            u == 3 * (u / 3) + u % 3,
            v == 3 * (v / 3) + v % 3,
            0 <= u % 3 < 3,
            0 <= v % 3 < 3,
            u - v == 3 * c0,
    ;
    assert(co.a + co.b + co.c + co.d == pts[i + 1]) by (nonlinear_arith)
        requires
            co.a == pts[i],
            co.b == (pts[i + 1] - pts[i]) - u / 3,
            co.c == c0,
            co.d == v / 3,
            u == 3 * (u / 3) + u % 3,
            v == 3 * (v / 3) + v % 3,
            u % 3 == v % 3,
            u - v == 3 * c0,
    ;
}

} // verus!
