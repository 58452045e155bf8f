//! Tests of the interpolation engine: the four schemes, their evaluators,
//! and the shared failure semantics.

use curvedots::catmull::{catmull_rom_centripetal, catmull_rom_uniform, quadratic_bezier};
use curvedots::engine::{
    sample_catmull_rom_centripetal, sample_catmull_rom_uniform, sample_curve, sample_monotonic,
    sample_natural, straight_segments,
};
use curvedots::fixed::SCALE;
use curvedots::hermite::monotonic_cubic_spline;
use curvedots::natural::{compute_natural_cubic_spline, evaluate_cubic, SplineCoefficients};
use curvedots::point::Point;
use curvedots::session::CurveAlgorithm;

fn fx(v: i64) -> i64 {
    v * SCALE
}

fn pt(x: i64, y: i64) -> Point {
    Point { x: fx(x), y: fx(y) }
}

#[test]
fn short_sequences_give_empty_output() {
    let empty: Vec<Point> = vec![];
    let single = vec![pt(10, 10)];
    for alg in [
        CurveAlgorithm::CatmullRomUniform,
        CurveAlgorithm::CatmullRomCentripetal,
        CurveAlgorithm::MonotonicSpline,
        CurveAlgorithm::NaturalCubicSpline,
    ] {
        assert_eq!(sample_curve(&empty, alg).len(), 0);
        assert_eq!(sample_curve(&single, alg).len(), 0);
    }
}

#[test]
fn uniform_catmull_rom_reproduces_segment_ends() {
    let (p0, p1, p2, p3) = (fx(3), fx(17), fx(42), fx(55));
    assert_eq!(catmull_rom_uniform(0, p0, p1, p2, p3), p1);
    assert_eq!(catmull_rom_uniform(SCALE, p0, p1, p2, p3), p2);
}

#[test]
fn uniform_catmull_rom_midpoint_value() {
    // p0 = p1 = 0, p2 = p3 = 1.0: the blend at t = 0.5 is exactly 0.5
    assert_eq!(catmull_rom_uniform(128, 0, 0, 256, 256), 128);
}

#[test]
fn quadratic_bezier_reproduces_its_ends() {
    let (p0, p1, p2) = (fx(7), fx(100), fx(23));
    assert_eq!(quadratic_bezier(0, p0, p1, p2), p0);
    assert_eq!(quadratic_bezier(SCALE, p0, p1, p2), p2);
}

#[test]
fn quadratic_bezier_midpoint_value() {
    // p0 = p2 = 0, p1 = 1.0: the Bernstein blend at t = 0.5 is 0.5
    assert_eq!(quadratic_bezier(128, 0, 256, 0), 128);
}

#[test]
fn centripetal_reproduces_segment_ends() {
    let (p0, p1, p2, p3) = (fx(3), fx(17), fx(42), fx(55));
    for alpha_tenths in 3..=5u8 {
        assert_eq!(catmull_rom_centripetal(0, p0, p1, p2, p3, alpha_tenths), p1);
        assert_eq!(catmull_rom_centripetal(SCALE, p0, p1, p2, p3, alpha_tenths), p2);
    }
}

#[test]
fn centripetal_collapsed_knots_return_anchor() {
    let v = fx(5);
    for t in [0i64, 37, 128, 200, 256] {
        assert_eq!(catmull_rom_centripetal(t, v, v, v, v, 3), v);
    }
}

#[test]
fn monotonic_rejects_bad_input() {
    assert!(monotonic_cubic_spline(&vec![fx(1)], &vec![fx(1)]).is_none());
    assert!(monotonic_cubic_spline(&vec![fx(1), fx(2)], &vec![fx(1)]).is_none());
    assert!(monotonic_cubic_spline(&vec![], &vec![]).is_none());
}

#[test]
fn monotonic_two_points_hits_both_ends() {
    let xs = vec![fx(0), fx(100)];
    let ys = vec![fx(10), fx(90)];
    let samples = monotonic_cubic_spline(&xs, &ys).unwrap();
    assert_eq!(samples.len(), 101);
    assert_eq!(samples[0], (fx(0), fx(10)));
    assert_eq!(samples[100], (fx(100), fx(90)));
}

#[test]
fn monotonic_flat_input_stays_flat() {
    // slope-zero branch: all tangents zeroed, every sample exactly level
    let xs = vec![fx(0), fx(50), fx(100), fx(150)];
    let ys = vec![fx(10), fx(10), fx(10), fx(10)];
    let samples = monotonic_cubic_spline(&xs, &ys).unwrap();
    assert_eq!(samples.len(), 3 * 101);
    for &(_, y) in samples.iter() {
        assert_eq!(y, fx(10));
    }
}

#[test]
fn monotonic_increasing_input_stays_monotone() {
    let xs = vec![fx(0), fx(50), fx(100), fx(150)];
    let ys = vec![fx(10), fx(20), fx(60), fx(70)];
    let samples = monotonic_cubic_spline(&xs, &ys).unwrap();
    let mut prev = samples[0].1;
    for &(_, y) in samples.iter() {
        assert!(y >= prev, "sampled y fell from {} to {}", prev, y);
        prev = y;
    }
}

#[test]
fn monotonic_skips_degenerate_spacing() {
    // a duplicated x makes the first slope undefined; the affected
    // segments are skipped rather than emitted
    let xs = vec![fx(0), fx(0), fx(100)];
    let ys = vec![fx(1), fx(2), fx(3)];
    let samples = monotonic_cubic_spline(&xs, &ys).unwrap();
    assert_eq!(samples.len(), 0);
}

#[test]
fn natural_spline_two_points_is_linear() {
    let coeffs = compute_natural_cubic_spline(&vec![fx(0), fx(100)]);
    assert_eq!(coeffs.len(), 1);
    assert_eq!(
        coeffs[0],
        SplineCoefficients { a: fx(0), b: fx(100), c: 0, d: 0 },
    );
    // the single segment samples to the straight line between the knots
    for j in 0..=50i64 {
        let t = j * 256 / 50;
        let v = evaluate_cubic(&coeffs[0], t);
        assert_eq!(v, fx(100) * t / 256);
    }
}

#[test]
fn natural_evaluate_ends() {
    let co = SplineCoefficients { a: fx(4), b: fx(2), c: fx(1), d: fx(3) };
    assert_eq!(evaluate_cubic(&co, 0), co.a);
    assert_eq!(evaluate_cubic(&co, 256), co.a + co.b + co.c + co.d);
}

#[test]
fn natural_sampler_counts_and_start() {
    let seq = vec![pt(0, 10), pt(50, 40), pt(100, 20)];
    let samples = sample_natural(&seq);
    assert_eq!(samples.len(), 2 * 50);
    // the first sample of the first segment is the first knot exactly
    assert_eq!(samples[0], pt(0, 10));
}

#[test]
fn uniform_sampler_shape() {
    let seq = vec![pt(0, 10), pt(50, 40), pt(100, 20)];
    let samples = sample_catmull_rom_uniform(&seq);
    assert_eq!(samples.len(), 200);
    // the first global step sits at the start of the first segment
    assert_eq!(samples[0], pt(0, 10));
    // the last global step sits on the last control point
    assert_eq!(samples[199], pt(100, 20));
}

#[test]
fn centripetal_sampler_shape() {
    let seq = vec![pt(0, 10), pt(50, 40), pt(100, 20)];
    let samples = sample_catmull_rom_centripetal(&seq, 3);
    assert_eq!(samples.len(), 200);
    assert_eq!(samples[0], pt(0, 10));
    assert_eq!(samples[199], pt(100, 20));
}

#[test]
fn engine_is_deterministic() {
    let seq = vec![pt(0, 20), pt(30, 40), pt(10, 20), pt(50, 5), pt(200, 5)];
    for alg in [
        CurveAlgorithm::CatmullRomUniform,
        CurveAlgorithm::CatmullRomCentripetal,
        CurveAlgorithm::MonotonicSpline,
        CurveAlgorithm::NaturalCubicSpline,
    ] {
        let once = sample_curve(&seq, alg);
        let twice = sample_curve(&seq, alg);
        assert_eq!(once, twice);
    }
}

#[test]
fn monotonic_sampler_matches_channel_routine() {
    let seq = vec![pt(0, 10), pt(100, 90)];
    let samples = sample_monotonic(&seq);
    let raw = monotonic_cubic_spline(&vec![fx(0), fx(100)], &vec![fx(10), fx(90)]).unwrap();
    assert_eq!(samples.len(), raw.len());
    for (p, &(x, y)) in samples.iter().zip(raw.iter()) {
        assert_eq!((p.x, p.y), (x, y));
    }
}

#[test]
fn straight_segments_pair_neighbours() {
    let a = pt(0, 0);
    let b = pt(10, 5);
    let c = pt(20, 3);
    assert_eq!(straight_segments(&vec![]).len(), 0);
    assert_eq!(straight_segments(&vec![a]).len(), 0);
    let segs = straight_segments(&vec![a, b, c]);
    assert_eq!(segs, vec![(a, b), (b, c)]);
}

#[test]
fn natural_segments_join_at_the_knots() {
    // each segment's cubic reaches the next knot exactly at its end
    let pts = vec![fx(0), fx(37), fx(12), fx(90), fx(55)];
    let coeffs = compute_natural_cubic_spline(&pts);
    assert_eq!(coeffs.len(), 4);
    for (i, co) in coeffs.iter().enumerate() {
        assert_eq!(evaluate_cubic(co, 0), pts[i]);
        assert_eq!(evaluate_cubic(co, 256), pts[i + 1]);
    }
}
