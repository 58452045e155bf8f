//! The interpolation engine: turns a prepared point sequence into a dense
//! sampled polyline, by one of the four schemes, through a single
//! dispatching entry point. The engine is a pure function of its inputs:
//! each sampler's result is pinned by a spec function of the sequence
//! alone, and fewer than two points always give the empty polyline.

use vstd::prelude::*;
use crate::catmull::{
    catmull_rom_centripetal, catmull_rom_centripetal_at, catmull_rom_uniform,
    catmull_rom_uniform_at,
};
use crate::fixed::{lemma_div_exact, lemma_mul_mag, lemma_scale_values};
use crate::hermite::{coords_in_range, monotonic_cubic_spline, monotonic_samples};
use crate::natural::{
    compute_natural_cubic_spline, evaluate_cubic, evaluate_cubic_at, lemma_coeffs_in_range,
    natural_coeffs, SplineCoefficients,
};
use crate::point::{all_in_range, Point};
use crate::session::CurveAlgorithm;
use vstd::arithmetic::div_mod::{
    lemma_div_is_ordered, lemma_div_pos_is_pos, lemma_fundamental_div_mod_converse_div,
    lemma_fundamental_div_mod_converse_mod, lemma_mod_division_less_than_divisor,
};

verus! {

/// The alpha exponent of the centripetal parameterization used by the
/// dispatching entry point, in tenths: 0.3.
pub const DEFAULT_ALPHA_TENTHS: u8 = 3;

/// The x-channel of a point sequence.
pub open spec fn xs_of(s: Seq<Point>) -> Seq<i64> {
    Seq::new(s.len(), |i: int| s[i].x)
}

/// The y-channel of a point sequence.
pub open spec fn ys_of(s: Seq<Point>) -> Seq<i64> {
    Seq::new(s.len(), |i: int| s[i].y)
}

/// Global parameter of sample `i` of 200, scaled by the segment count:
/// the fixed-point value of `(len-1) * i/199`.
pub open spec fn sample_param(len: int, i: int) -> int {
    ((len - 1) * i * 256) / 199
}

/// One sample of the uniform Catmull-Rom variant: the four control points
/// are gathered around the segment index with clamping at both ends, and
/// both channels are evaluated at the local parameter.
pub open spec fn uniform_point_at(s: Seq<Point>, i: int) -> Point {
    let u = sample_param(s.len() as int, i);
    let seg = u / 256;
    let lt = u % 256;
    let i0 = if seg == 0 {
        0
    } else {
        seg - 1
    };
    let i2 = if seg + 1 < s.len() {
        seg + 1
    } else {
        s.len() - 1
    };
    let i3 = if seg + 2 < s.len() {
        seg + 2
    } else {
        s.len() - 1
    };
    Point {
        x: catmull_rom_uniform_at(
            lt,
            s[i0].x as int,
            s[seg].x as int,
            s[i2].x as int,
            s[i3].x as int,
        ) as i64,
        y: catmull_rom_uniform_at(
            lt,
            s[i0].y as int,
            s[seg].y as int,
            s[i2].y as int,
            s[i3].y as int,
        ) as i64,
    }
}

/// The 200 samples of the uniform Catmull-Rom variant, or nothing for
/// fewer than two points.
pub open spec fn uniform_samples(s: Seq<Point>) -> Seq<Point> {
    if s.len() < 2 {
        Seq::empty()
    } else {
        Seq::new(200, |i: int| uniform_point_at(s, i))
    }
}

/// One sample of the centripetal Catmull-Rom variant.
pub open spec fn centripetal_point_at(s: Seq<Point>, i: int, alpha_tenths: int) -> Point {
    let u = sample_param(s.len() as int, i);
    let seg = u / 256;
    let lt = u % 256;
    let i0 = if seg == 0 {
        0
    } else {
        seg - 1
    };
    let i2 = if seg + 1 < s.len() {
        seg + 1
    } else {
        s.len() - 1
    };
    let i3 = if seg + 2 < s.len() {
        seg + 2
    } else {
        s.len() - 1
    };
    Point {
        x: catmull_rom_centripetal_at(
            lt,
            s[i0].x as int,
            s[seg].x as int,
            s[i2].x as int,
            s[i3].x as int,
            alpha_tenths,
        ) as i64,
        y: catmull_rom_centripetal_at(
            lt,
            s[i0].y as int,
            s[seg].y as int,
            s[i2].y as int,
            s[i3].y as int,
            alpha_tenths,
        ) as i64,
    }
}

/// The 200 samples of the centripetal Catmull-Rom variant, or nothing for
/// fewer than two points.
pub open spec fn centripetal_samples(s: Seq<Point>, alpha_tenths: int) -> Seq<Point> {
    if s.len() < 2 {
        Seq::empty()
    } else {
        Seq::new(200, |i: int| centripetal_point_at(s, i, alpha_tenths))
    }
}

/// The samples of the monotonic Hermite variant, as points.
pub open spec fn monotonic_points(s: Seq<Point>) -> Seq<Point> {
    if s.len() < 2 {
        Seq::empty()
    } else {
        let pts = monotonic_samples(xs_of(s), ys_of(s));
        Seq::new(pts.len(), |k: int| (Point { x: pts[k].0, y: pts[k].1 }))
    }
}

/// One sample of the natural cubic variant: segment `k/50`, local step
/// `k%50` of 50.
pub open spec fn natural_point_at(
    cx: Seq<SplineCoefficients>,
    cy: Seq<SplineCoefficients>,
    k: int,
) -> Point {
    let seg = k / 50;
    let t = ((k % 50) * 256) / 50;
    Point { x: evaluate_cubic_at(cx[seg], t) as i64, y: evaluate_cubic_at(cy[seg], t) as i64 }
}

/// The 50 samples per segment of the natural cubic variant, or nothing
/// for fewer than two points.
pub open spec fn natural_points(s: Seq<Point>) -> Seq<Point> {
    if s.len() < 2 {
        Seq::empty()
    } else {
        Seq::new(
            ((s.len() - 1) * 50) as nat,
            |k: int|
                natural_point_at(natural_coeffs(xs_of(s)), natural_coeffs(ys_of(s)), k),
        )
    }
}

/// The polyline of the selected scheme.
pub open spec fn curve_samples(s: Seq<Point>, alg: CurveAlgorithm) -> Seq<Point> {
    match alg {
        CurveAlgorithm::CatmullRomUniform => uniform_samples(s),
        CurveAlgorithm::CatmullRomCentripetal => centripetal_samples(
            s,
            DEFAULT_ALPHA_TENTHS as int,
        ),
        CurveAlgorithm::MonotonicSpline => monotonic_points(s),
        CurveAlgorithm::NaturalCubicSpline => natural_points(s),
    }
}

/// Bounds of the sample parameter arithmetic shared by both Catmull-Rom
/// samplers.
proof fn lemma_sample_param_bounds(len: int, i: int)
    requires
        2 <= len,
        0 <= i <= 199,
    ensures
        0 <= sample_param(len, i) <= (len - 1) * 256,
        0 <= sample_param(len, i) / 256 <= len - 1,
        0 <= sample_param(len, i) % 256 < 256,
{
    let num = (len - 1) * i * 256;
    assert(0 <= num && num <= ((len - 1) * 256) * 199) by (nonlinear_arith)
        requires
            2 <= len,
            0 <= i <= 199,
            num == (len - 1) * i * 256,
    ;
    lemma_div_pos_is_pos(num, 199);
    lemma_div_is_ordered(num, ((len - 1) * 256) * 199, 199);
    lemma_div_exact((len - 1) * 256, 199);
    let u = sample_param(len, i);
    lemma_div_pos_is_pos(u, 256);
    lemma_div_is_ordered(u, (len - 1) * 256, 256);
    lemma_div_exact(len - 1, 256);
    lemma_mod_division_less_than_divisor(u, 256);
}

/// Samples the uniform Catmull-Rom variant: 200 global steps, four-point
/// gather with index clamping at both ends.
pub fn sample_catmull_rom_uniform(seq: &Vec<Point>) -> (r: Vec<Point>)
    requires
        all_in_range(seq@),
    ensures
        r@ == uniform_samples(seq@),
        seq@.len() < 2 ==> r@.len() == 0,
{
    proof {
        lemma_scale_values();
    }
    let n = seq.len();
    let mut out: Vec<Point> = Vec::new();
    if n < 2 {
        proof {
            assert(out@ =~= uniform_samples(seq@));
        }
        return out;
    }
    let mut i: usize = 0;
    while i < 200
        invariant
            2 <= n == seq@.len(),
            all_in_range(seq@),
            i <= 200,
            out@ == Seq::new(i as nat, |k: int| uniform_point_at(seq@, k)),
        decreases 200 - i,
    {
        proof {
            lemma_mul_mag((n - 1) as int, i as int, 0xffff_ffff_ffff_ffff, 200);
            lemma_sample_param_bounds(n as int, i as int);
        }
        let u: u128 = ((n - 1) as u128) * (i as u128) * 256 / 199;
        let seg: usize = (u / 256) as usize;
        let lt: i64 = (u % 256) as i64;
        let i0: usize = if seg == 0 {
            0
        } else {
            seg - 1
        };
        let i2: usize = if n - seg > 1 {
            seg + 1
        } else {
            n - 1
        };
        let i3: usize = if n - seg > 2 {
            seg + 2
        } else {
            n - 1
        };
        proof {
            assert(seq@[i0 as int].in_range());
            assert(seq@[seg as int].in_range());
            assert(seq@[i2 as int].in_range());
            assert(seq@[i3 as int].in_range());
        }
        let p0 = seq[i0];
        let p1 = seq[seg];
        let p2 = seq[i2];
        let p3 = seq[i3];
        let vx = catmull_rom_uniform(lt, p0.x, p1.x, p2.x, p3.x);
        let vy = catmull_rom_uniform(lt, p0.y, p1.y, p2.y, p3.y);
        out.push(Point { x: vx, y: vy });
        i = i + 1;
        proof {
            assert(Point { x: vx, y: vy } == uniform_point_at(seq@, i as int - 1));
            assert(Seq::new(i as nat, |k: int| uniform_point_at(seq@, k)) =~= Seq::new(
                (i - 1) as nat,
                |k: int| uniform_point_at(seq@, k),
            ).push(uniform_point_at(seq@, i as int - 1)));
        }
    }
    proof {
        assert(out@ =~= uniform_samples(seq@));
    }
    out
}

/// Samples the centripetal Catmull-Rom variant with the given alpha
/// exponent (in tenths): the same gather as the uniform variant, with the
/// chord-length parameterization per channel.
#[verifier::rlimit(60)]
pub fn sample_catmull_rom_centripetal(seq: &Vec<Point>, alpha_tenths: u8) -> (r: Vec<Point>)
    requires
        all_in_range(seq@),
        3 <= alpha_tenths <= 5,
    ensures
        r@ == centripetal_samples(seq@, alpha_tenths as int),
        seq@.len() < 2 ==> r@.len() == 0,
{
    proof {
        lemma_scale_values();
    }
    let n = seq.len();
    let mut out: Vec<Point> = Vec::new();
    if n < 2 {
        proof {
            assert(out@ =~= centripetal_samples(seq@, alpha_tenths as int));
        }
        return out;
    }
    let mut i: usize = 0;
    while i < 200
        invariant
            2 <= n == seq@.len(),
            all_in_range(seq@),
            3 <= alpha_tenths <= 5,
            i <= 200,
            out@ == Seq::new(i as nat, |k: int| centripetal_point_at(seq@, k, alpha_tenths as int)),
        decreases 200 - i,
    {
        proof {
            lemma_mul_mag((n - 1) as int, i as int, 0xffff_ffff_ffff_ffff, 200);
            lemma_sample_param_bounds(n as int, i as int);
        }
        let u: u128 = ((n - 1) as u128) * (i as u128) * 256 / 199;
        let seg: usize = (u / 256) as usize;
        let lt: i64 = (u % 256) as i64;
        let i0: usize = if seg == 0 {
            0
        } else {
            seg - 1
        };
        let i2: usize = if n - seg > 1 {
            seg + 1
        } else {
            n - 1
        };
        let i3: usize = if n - seg > 2 {
            seg + 2
        } else {
            n - 1
        };
        proof {
            assert(seq@[i0 as int].in_range());
            assert(seq@[seg as int].in_range());
            assert(seq@[i2 as int].in_range());
            assert(seq@[i3 as int].in_range());
        }
        let p0 = seq[i0];
        let p1 = seq[seg];
        let p2 = seq[i2];
        let p3 = seq[i3];
        let vx = catmull_rom_centripetal(lt, p0.x, p1.x, p2.x, p3.x, alpha_tenths);
        let vy = catmull_rom_centripetal(lt, p0.y, p1.y, p2.y, p3.y, alpha_tenths);
        out.push(Point { x: vx, y: vy });
        i = i + 1;
        proof {
            assert(Point { x: vx, y: vy } == centripetal_point_at(
                seq@,
                i as int - 1,
                alpha_tenths as int,
            ));
            assert(Seq::new(i as nat, |k: int| centripetal_point_at(seq@, k, alpha_tenths as int))
                =~= Seq::new(
                (i - 1) as nat,
                |k: int| centripetal_point_at(seq@, k, alpha_tenths as int),
            ).push(centripetal_point_at(seq@, i as int - 1, alpha_tenths as int)));
        }
    }
    proof {
        assert(out@ =~= centripetal_samples(seq@, alpha_tenths as int));
    }
    out
}

/// Samples the monotonic Hermite variant: the two channels are handed to
/// the Fritsch-Carlson interpolation and its finite samples become the
/// polyline.
pub fn sample_monotonic(seq: &Vec<Point>) -> (r: Vec<Point>)
    requires
        all_in_range(seq@),
    ensures
        r@ == monotonic_points(seq@),
        seq@.len() < 2 ==> r@.len() == 0,
{
    let n = seq.len();
    let mut out: Vec<Point> = Vec::new();
    if n < 2 {
        proof {
            assert(out@ =~= monotonic_points(seq@));
        }
        return out;
    }
    let mut xs: Vec<i64> = Vec::new();
    let mut ys: Vec<i64> = Vec::new();
    let mut i: usize = 0;
    while i < n
        invariant
            n == seq@.len(),
            all_in_range(seq@),
            i <= n,
            xs@.len() == i as int,
            ys@.len() == i as int,
            forall|k: int| 0 <= k < i as int ==> #[trigger] xs@[k] == seq@[k].x,
            forall|k: int| 0 <= k < i as int ==> #[trigger] ys@[k] == seq@[k].y,
        decreases n - i,
    {
        let p = seq[i];
        xs.push(p.x);
        ys.push(p.y);
        i = i + 1;
    }
    proof {
        assert(xs@ =~= xs_of(seq@));
        assert(ys@ =~= ys_of(seq@));
        assert forall|k: int| 0 <= k < xs@.len() implies -crate::fixed::MAX_COORD <= (
        #[trigger] xs@[k]) <= crate::fixed::MAX_COORD by {
            assert(seq@[k].in_range());
        }
        assert forall|k: int| 0 <= k < ys@.len() implies -crate::fixed::MAX_COORD <= (
        #[trigger] ys@[k]) <= crate::fixed::MAX_COORD by {
            assert(seq@[k].in_range());
        }
    }
    let sampled = monotonic_cubic_spline(&xs, &ys);
    match sampled {
        Some(v) => {
            let m = v.len();
            let mut k: usize = 0;
            while k < m
                invariant
                    m == v@.len(),
                    k <= m,
                    v@ == monotonic_samples(xs_of(seq@), ys_of(seq@)),
                    out@.len() == k as int,
                    forall|j: int|
                        0 <= j < k as int ==> #[trigger] out@[j] == (Point {
                            x: v@[j].0,
                            y: v@[j].1,
                        }),
                decreases m - k,
            {
                let s = v[k];
                out.push(Point { x: s.0, y: s.1 });
                k = k + 1;
            }
            proof {
                assert(out@ =~= monotonic_points(seq@));
            }
            out
        },
        None => {
            proof {
                assert(false);
            }
            out
        },
    }
}

/// Samples the natural cubic variant: per-segment coefficients for each
/// channel, then 50 local steps per segment.
pub fn sample_natural(seq: &Vec<Point>) -> (r: Vec<Point>)
    requires
        all_in_range(seq@),
    ensures
        r@ == natural_points(seq@),
        seq@.len() < 2 ==> r@.len() == 0,
{
    proof {
        lemma_scale_values();
    }
    let n = seq.len();
    let mut out: Vec<Point> = Vec::new();
    if n < 2 {
        proof {
            assert(out@ =~= natural_points(seq@));
        }
        return out;
    }
    let mut xs: Vec<i64> = Vec::new();
    let mut ys: Vec<i64> = Vec::new();
    let mut i: usize = 0;
    while i < n
        invariant
            n == seq@.len(),
            all_in_range(seq@),
            i <= n,
            xs@.len() == i as int,
            ys@.len() == i as int,
            forall|k: int| 0 <= k < i as int ==> #[trigger] xs@[k] == seq@[k].x,
            forall|k: int| 0 <= k < i as int ==> #[trigger] ys@[k] == seq@[k].y,
        decreases n - i,
    {
        let p = seq[i];
        xs.push(p.x);
        ys.push(p.y);
        i = i + 1;
    }
    proof {
        assert(xs@ =~= xs_of(seq@));
        assert(ys@ =~= ys_of(seq@));
        assert forall|k: int| 0 <= k < xs@.len() implies -crate::fixed::MAX_COORD <= (
        #[trigger] xs@[k]) <= crate::fixed::MAX_COORD by {
            assert(seq@[k].in_range());
        }
        assert forall|k: int| 0 <= k < ys@.len() implies -crate::fixed::MAX_COORD <= (
        #[trigger] ys@[k]) <= crate::fixed::MAX_COORD by {
            assert(seq@[k].in_range());
        }
        lemma_coeffs_in_range(xs@);
        lemma_coeffs_in_range(ys@);
    }
    let cx = compute_natural_cubic_spline(&xs);
    let cy = compute_natural_cubic_spline(&ys);
    let ghost f = |k: int|
        natural_point_at(natural_coeffs(xs_of(seq@)), natural_coeffs(ys_of(seq@)), k);
    let mut s: usize = 0;
    while s < n - 1
        invariant
            2 <= n == seq@.len(),
            s <= n - 1,
            cx@ == natural_coeffs(xs_of(seq@)),
            cy@ == natural_coeffs(ys_of(seq@)),
            crate::natural::coeffs_in_range(cx@),
            crate::natural::coeffs_in_range(cy@),
            f == (|k: int|
                natural_point_at(natural_coeffs(xs_of(seq@)), natural_coeffs(ys_of(seq@)), k)),
            out@ == Seq::new((s as int * 50) as nat, f),
        decreases n - 1 - s,
    {
        let cox = cx[s];
        let coy = cy[s];
        let mut j: usize = 0;
        while j < 50
            invariant
                2 <= n == seq@.len(),
                s < n - 1,
                j <= 50,
                cx@ == natural_coeffs(xs_of(seq@)),
                cy@ == natural_coeffs(ys_of(seq@)),
                crate::natural::coeffs_in_range(cx@),
                crate::natural::coeffs_in_range(cy@),
                cox == cx@[s as int],
                coy == cy@[s as int],
                f == (|k: int|
                    natural_point_at(
                        natural_coeffs(xs_of(seq@)),
                        natural_coeffs(ys_of(seq@)),
                        k,
                    )),
                out@ == Seq::new((s as int * 50 + j as int) as nat, f),
            decreases 50 - j,
        {
            let t: i64 = ((j * 256) / 50) as i64;
            let vx = evaluate_cubic(&cox, t);
            let vy = evaluate_cubic(&coy, t);
            out.push(Point { x: vx, y: vy });
            j = j + 1;
            proof {
                let k = s as int * 50 + j as int - 1;
                lemma_fundamental_div_mod_converse_div(k, 50, s as int, j as int - 1);
                lemma_fundamental_div_mod_converse_mod(k, 50, s as int, j as int - 1);
                assert(Point { x: vx, y: vy } == f(k));
                assert(Seq::new((s as int * 50 + j as int) as nat, f) =~= Seq::new(
                    (s as int * 50 + j as int - 1) as nat,
                    f,
                ).push(f(k)));
            }
        }
        s = s + 1;
    }
    proof {
        assert(out@ =~= natural_points(seq@));
    }
    out
}

/// Samples the prepared sequence with the selected scheme: the engine's
/// single entry point. Fewer than two points give the empty polyline.
pub fn sample_curve(seq: &Vec<Point>, alg: CurveAlgorithm) -> (r: Vec<Point>)
    requires
        all_in_range(seq@),
    ensures
        r@ == curve_samples(seq@, alg),
        seq@.len() < 2 ==> r@.len() == 0,
{
    match alg {
        CurveAlgorithm::CatmullRomUniform => sample_catmull_rom_uniform(seq),
        CurveAlgorithm::CatmullRomCentripetal => sample_catmull_rom_centripetal(
            seq,
            DEFAULT_ALPHA_TENTHS,
        ),
        CurveAlgorithm::MonotonicSpline => sample_monotonic(seq),
        CurveAlgorithm::NaturalCubicSpline => sample_natural(seq),
    }
}

/// The engine is a pure function: calling it twice on identical prepared
/// sequences, with the same scheme selected, yields identical output
/// polylines.
pub proof fn lemma_engine_deterministic(s1: Seq<Point>, s2: Seq<Point>, alg: CurveAlgorithm)
    requires
        s1 == s2,
    ensures
        curve_samples(s1, alg) == curve_samples(s2, alg),
{
}

/// The Catmull-Rom polylines start on the first prepared point and end
/// on the last one: the first global step evaluates the first segment at
/// its left end, the last step the last segment at its left knot, which
/// the clamped gather makes the final control point.
pub proof fn lemma_catmull_samplers_hit_ends(s: Seq<Point>, alpha_tenths: int)
    requires
        2 <= s.len(),
        all_in_range(s),
        3 <= alpha_tenths <= 5,
    ensures
        uniform_samples(s)[0] == s[0],
        uniform_samples(s)[199] == s[s.len() - 1],
        centripetal_samples(s, alpha_tenths)[0] == s[0],
        centripetal_samples(s, alpha_tenths)[199] == s[s.len() - 1],
{
    crate::fixed::lemma_scale_values();
    let len = s.len() as int;
    // the first step: parameter zero, first segment, local parameter zero
    vstd::arithmetic::div_mod::lemma_div_of0(199);
    vstd::arithmetic::div_mod::lemma_div_of0(256);
    assert((len - 1) * 0 * 256 == 0) by (nonlinear_arith);
    assert(sample_param(len, 0) == 0);
    vstd::arithmetic::div_mod::lemma_small_mod(0, 256);
    assert(s[0].in_range() && s[1].in_range() && s[len - 1].in_range());
    crate::catmull::lemma_catmull_rom_uniform_ends(
        s[0].x as int,
        s[0].x as int,
        s[if 1 < len { 1int } else { len - 1 }].x as int,
        s[if 2 < len { 2int } else { len - 1 }].x as int,
    );
    assert(s[if 1 < len { 1int } else { len - 1 }].in_range());
    assert(s[if 2 < len { 2int } else { len - 1 }].in_range());
    crate::catmull::lemma_catmull_rom_uniform_ends(
        s[0].y as int,
        s[0].y as int,
        s[if 1 < len { 1int } else { len - 1 }].y as int,
        s[if 2 < len { 2int } else { len - 1 }].y as int,
    );
    crate::catmull::lemma_centripetal_ends(
        s[0].x as int,
        s[0].x as int,
        s[if 1 < len { 1int } else { len - 1 }].x as int,
        s[if 2 < len { 2int } else { len - 1 }].x as int,
        alpha_tenths,
    );
    crate::catmull::lemma_centripetal_ends(
        s[0].y as int,
        s[0].y as int,
        s[if 1 < len { 1int } else { len - 1 }].y as int,
        s[if 2 < len { 2int } else { len - 1 }].y as int,
        alpha_tenths,
    );
    assert(uniform_point_at(s, 0) == s[0]);
    assert(centripetal_point_at(s, 0, alpha_tenths) == s[0]);
    // the last step: the parameter reaches the final knot exactly
    assert((len - 1) * 199 * 256 == ((len - 1) * 256) * 199) by (nonlinear_arith);
    lemma_div_exact((len - 1) * 256, 199);
    assert(sample_param(len, 199) == (len - 1) * 256);
    lemma_div_exact(len - 1, 256);
    vstd::arithmetic::div_mod::lemma_mod_multiples_basic(len - 1, 256);
    let seg = sample_param(len, 199) / 256;
    assert(seg == len - 1);
    assert(sample_param(len, 199) % 256 == 0);
    assert(s[len - 2].in_range());
    crate::catmull::lemma_catmull_rom_uniform_ends(
        s[len - 2].x as int,
        s[len - 1].x as int,
        s[len - 1].x as int,
        s[len - 1].x as int,
    );
    crate::catmull::lemma_catmull_rom_uniform_ends(
        s[len - 2].y as int,
        s[len - 1].y as int,
        s[len - 1].y as int,
        s[len - 1].y as int,
    );
    crate::catmull::lemma_centripetal_ends(
        s[len - 2].x as int,
        s[len - 1].x as int,
        s[len - 1].x as int,
        s[len - 1].x as int,
        alpha_tenths,
    );
    crate::catmull::lemma_centripetal_ends(
        s[len - 2].y as int,
        s[len - 1].y as int,
        s[len - 1].y as int,
        s[len - 1].y as int,
        alpha_tenths,
    );
    assert(uniform_point_at(s, 199) == s[len - 1]);
    assert(centripetal_point_at(s, 199, alpha_tenths) == s[len - 1]);
}

/// The natural cubic polyline starts on the first prepared point: sample
/// zero evaluates the first segment's cubic at the start of the segment.
pub proof fn lemma_natural_sampler_hits_start(s: Seq<Point>)
    requires
        2 <= s.len(),
        all_in_range(s),
    ensures
        natural_points(s)[0] == s[0],
{
    vstd::arithmetic::div_mod::lemma_div_of0(50);
    vstd::arithmetic::div_mod::lemma_small_mod(0, 50);
    assert(forall|k: int| 0 <= k < s.len() ==> #[trigger] s[k].in_range());
    assert(s[0].in_range());
    assert forall|k: int| 0 <= k < xs_of(s).len() implies -crate::fixed::MAX_COORD <= (
    #[trigger] xs_of(s)[k]) <= crate::fixed::MAX_COORD by {
        assert(s[k].in_range());
    }
    assert forall|k: int| 0 <= k < ys_of(s).len() implies -crate::fixed::MAX_COORD <= (
    #[trigger] ys_of(s)[k]) <= crate::fixed::MAX_COORD by {
        assert(s[k].in_range());
    }
    crate::natural::lemma_natural_segment_ends(xs_of(s), 0);
    crate::natural::lemma_natural_segment_ends(ys_of(s), 0);
    assert(natural_point_at(natural_coeffs(xs_of(s)), natural_coeffs(ys_of(s)), 0) == s[0]);
}

/// The straight-segment sequence: each prepared point paired with its
/// successor, for the straight-line connector mode.
pub fn straight_segments(seq: &Vec<Point>) -> (r: Vec<(Point, Point)>)
    ensures
        seq@.len() == 0 ==> r@.len() == 0,
        seq@.len() > 0 ==> r@.len() == seq@.len() - 1,
        forall|k: int| 0 <= k < r@.len() ==> #[trigger] r@[k] == (seq@[k], seq@[k + 1]),
{
    let n = seq.len();
    let mut out: Vec<(Point, Point)> = Vec::new();
    if n == 0 {
        return out;
    }
    let mut i: usize = 0;
    while i < n - 1
        invariant
            1 <= n == seq@.len(),
            i <= n - 1,
            out@.len() == i as int,
            forall|k: int| 0 <= k < i as int ==> #[trigger] out@[k] == (seq@[k], seq@[k + 1]),
        decreases n - 1 - i,
    {
        out.push((seq[i], seq[i + 1]));
        i = i + 1;
    }
    out
}

} // verus!
