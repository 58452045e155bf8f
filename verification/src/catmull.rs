//! Catmull-Rom and Bezier coordinate-channel evaluators.
//!
//! Each evaluator treats one coordinate channel (x or y) as a 1D
//! interpolation problem: it blends four (or three) control values at a
//! local parameter `t` in `[0, SCALE]`. The fixed-point result is pinned
//! exactly by a spec function, and interpolation at either end of a segment
//! reproduces the segment's control value exactly.
//!
//! The literals 0x1_0000, 0x100_0000 and 0x200_0000 are `SCALE^2`, `SCALE^3`
//! and `2*SCALE^3`: scale powers are written as literals so that the solver
//! sees linear arithmetic wherever one factor is constant.

use vstd::prelude::*;
use crate::fixed::{
    div_fl, lemma_div_exact, lemma_div_mag, lemma_mul_mag, lemma_remap_range, lemma_scale_values,
};
use crate::fixed::{MAX_COORD, SCALE};
use crate::root::{
    lemma_pow_base_mono, lemma_pow_base_strict_mono, lemma_pow_nonneg, lemma_root_floor_props,
    nth_root, pow_le, root_floor,
};
use vstd::arithmetic::power::{lemma_pow_adds, lemma_pow_positive, lemma1_pow, pow};

verus! {

/// Value of the uniform Catmull-Rom cubic basis at parameter `t` of the
/// segment `[p1, p2]`, in fixed point: the real formula is
/// `0.5*(2*p1 + (-p0+p2)*t + (2p0-5p1+4p2-p3)*t^2 + (-p0+3p1-3p2+p3)*t^3)`.
pub open spec fn catmull_rom_uniform_at(t: int, p0: int, p1: int, p2: int, p3: int) -> int {
    (2 * p1 * 0x100_0000
        + (p2 - p0) * t * 0x1_0000
        + (2 * p0 - 5 * p1 + 4 * p2 - p3) * t * t * 256
        + (-p0 + 3 * p1 - 3 * p2 + p3) * t * t * t)
        / 0x200_0000
}

/// Uniform Catmull-Rom channel evaluator.
pub fn catmull_rom_uniform(t: i64, p0: i64, p1: i64, p2: i64, p3: i64) -> (v: i64)
    requires
        0 <= t <= SCALE,
        -MAX_COORD <= p0 <= MAX_COORD,
        -MAX_COORD <= p1 <= MAX_COORD,
        -MAX_COORD <= p2 <= MAX_COORD,
        -MAX_COORD <= p3 <= MAX_COORD,
    ensures
        v == catmull_rom_uniform_at(t as int, p0 as int, p1 as int, p2 as int, p3 as int),
{
    proof {
        lemma_scale_values();
    }
    let ti: i128 = t as i128;
    let c1: i128 = p2 as i128 - p0 as i128;
    let c2: i128 = 2 * (p0 as i128) - 5 * (p1 as i128) + 4 * (p2 as i128) - p3 as i128;
    let c3: i128 = -(p0 as i128) + 3 * (p1 as i128) - 3 * (p2 as i128) + p3 as i128;
    proof {
        lemma_mul_mag(c1 as int, ti as int, 0x80_0000, 256);
        lemma_mul_mag(c2 as int, ti as int, 0x300_0000, 256);
        lemma_mul_mag(c2 as int * ti as int, ti as int, 0x3_0000_0000, 256);
        lemma_mul_mag(c3 as int, ti as int, 0x200_0000, 256);
        lemma_mul_mag(c3 as int * ti as int, ti as int, 0x2_0000_0000, 256);
        lemma_mul_mag(c3 as int * ti as int * ti as int, ti as int, 0x200_0000_0000, 256);
    }
    let num: i128 = 2 * (p1 as i128) * 0x100_0000 + c1 * ti * 0x1_0000
        + c2 * ti * ti * 256 + c3 * ti * ti * ti;
    let v: i128 = div_fl(num, 0x200_0000);
    proof {
        lemma_div_mag(num as int, 0x200_0000);
    }
    v as i64
}

/// Interpolating with the uniform Catmull-Rom basis at the ends of the
/// segment reproduces the segment's own control values exactly.
pub proof fn lemma_catmull_rom_uniform_ends(p0: int, p1: int, p2: int, p3: int)
    ensures
        catmull_rom_uniform_at(0, p0, p1, p2, p3) == p1,
        catmull_rom_uniform_at(SCALE as int, p0, p1, p2, p3) == p2,
{
    lemma_scale_values();
    lemma_div_exact(p1, 0x200_0000);
    lemma_div_exact(p2, 0x200_0000);
}

/// Value of the quadratic Bezier (Bernstein) blend of three control values
/// at parameter `t`, in fixed point: the real formula is
/// `(1-t)^2*p0 + 2*(1-t)*t*p1 + t^2*p2`.
pub open spec fn quadratic_bezier_at(t: int, p0: int, p1: int, p2: int) -> int {
    ((256 - t) * (256 - t) * p0 + 2 * ((256 - t) * t) * p1 + t * t * p2)
        / 0x1_0000
}

/// Quadratic Bezier channel evaluator.
pub fn quadratic_bezier(t: i64, p0: i64, p1: i64, p2: i64) -> (v: i64)
    requires
        0 <= t <= SCALE,
        -MAX_COORD <= p0 <= MAX_COORD,
        -MAX_COORD <= p1 <= MAX_COORD,
        -MAX_COORD <= p2 <= MAX_COORD,
    ensures
        v == quadratic_bezier_at(t as int, p0 as int, p1 as int, p2 as int),
{
    proof {
        lemma_scale_values();
    }
    let ti: i128 = t as i128;
    let u: i128 = 256 - ti;
    proof {
        lemma_mul_mag(u as int, u as int, 256, 256);
        lemma_mul_mag(ti as int, ti as int, 256, 256);
        lemma_mul_mag(u as int, ti as int, 256, 256);
        lemma_mul_mag(u as int * u as int, p0 as int, 0x1_0000, 0x40_0000);
        lemma_mul_mag(2 * (u as int * ti as int), p1 as int, 0x2_0000, 0x40_0000);
        lemma_mul_mag(ti as int * ti as int, p2 as int, 0x1_0000, 0x40_0000);
    }
    let num: i128 = u * u * (p0 as i128) + 2 * (u * ti) * (p1 as i128)
        + ti * ti * (p2 as i128);
    let v: i128 = div_fl(num, 0x1_0000);
    proof {
        lemma_div_mag(num as int, 0x1_0000);
    }
    v as i64
}

/// The quadratic Bezier blend starts at its first control value and ends at
/// its last one, exactly.
pub proof fn lemma_quadratic_bezier_ends(p0: int, p1: int, p2: int)
    ensures
        quadratic_bezier_at(0, p0, p1, p2) == p0,
        quadratic_bezier_at(SCALE as int, p0, p1, p2) == p2,
{
    lemma_scale_values();
    assert((256 - 0) * (256 - 0) * p0 + 2 * ((256 - 0) * 0) * p1 + 0 * 0 * p2
        == p0 * 0x1_0000) by (nonlinear_arith);
    lemma_div_exact(p0, 0x1_0000);
    assert(quadratic_bezier_at(SCALE as int, p0, p1, p2)
        == quadratic_bezier_at(256, p0, p1, p2));
    assert((256 - 256) * (256 - 256) * p0 + 2 * ((256 - 256) * 256) * p1 + 256 * 256 * p2
        == p2 * 0x1_0000) by (nonlinear_arith);
    lemma_div_exact(p2, 0x1_0000);
}

/// Numerator of the centripetal exponent `alpha_tenths/10`, reduced.
pub open spec fn alpha_num(alpha_tenths: int) -> int {
    if alpha_tenths == 3 {
        3
    } else if alpha_tenths == 4 {
        2
    } else {
        1
    }
}

/// Denominator of the centripetal exponent `alpha_tenths/10`, reduced.
pub open spec fn alpha_den(alpha_tenths: int) -> int {
    if alpha_tenths == 3 {
        10
    } else if alpha_tenths == 4 {
        5
    } else {
        2
    }
}

/// Chord measure of two channel values: their absolute difference, with
/// zero replaced by the smallest positive fixed-point unit so that raising
/// it to the exponent never yields a zero-length knot interval.
pub open spec fn chord(a: int, b: int) -> int {
    let d = if a >= b {
        a - b
    } else {
        b - a
    };
    if d == 0 {
        1
    } else {
        d
    }
}

/// Knot spacing of the centripetal parameterization: the fixed-point value
/// of `chord^(num/den)`, that is the floor `den`-th root of
/// `chord^num * SCALE^(den-num)`.
pub open spec fn knot_span(a: int, b: int, alpha_tenths: int) -> int {
    root_floor(
        pow(chord(a, b), alpha_num(alpha_tenths) as nat)
            * pow(256, (alpha_den(alpha_tenths) - alpha_num(alpha_tenths)) as nat),
        alpha_den(alpha_tenths) as nat,
    )
}

/// Ground values of the powers that bound the knot-span computation.
proof fn lemma_pow_ground()
    ensures
        pow(256, 1) == 0x100,
        pow(256, 3) == 0x100_0000,
        pow(256, 7) == 0x100_0000_0000_0000,
        pow(0x80_0000, 1) == 0x80_0000,
        pow(0x80_0000, 2) == 0x4000_0000_0000,
        pow(0x80_0000, 3) == 0x20_0000_0000_0000_0000,
{
    reveal_with_fuel(pow, 9);
}

/// The product fed to the root in [`knot_span`] stays below 2^127 for any
/// chord the surface can produce.
proof fn lemma_knot_v_fits(c: int, alpha_tenths: int)
    requires
        1 <= c <= 0x80_0000,
        3 <= alpha_tenths <= 5,
    ensures
        1 <= pow(c, alpha_num(alpha_tenths) as nat)
            * pow(256, (alpha_den(alpha_tenths) - alpha_num(alpha_tenths)) as nat)
            < 0x8000_0000_0000_0000_0000_0000_0000_0000,
{
    let nu = alpha_num(alpha_tenths) as nat;
    let dd = (alpha_den(alpha_tenths) - alpha_num(alpha_tenths)) as nat;
    lemma_pow_ground();
    lemma_pow_base_mono(c, 0x80_0000, nu);
    lemma_pow_positive(c, nu);
    lemma_pow_positive(256, dd);
    assert(1 <= pow(c, nu) * pow(256, dd)) by (nonlinear_arith)
        requires
            1 <= pow(c, nu),
            1 <= pow(256, dd),
    ;
    assert(pow(c, nu) * pow(256, dd) < 0x8000_0000_0000_0000_0000_0000_0000_0000)
        by (nonlinear_arith)
        requires
            1 <= pow(c, nu),
            1 <= pow(256, dd),
            pow(c, nu) <= pow(0x80_0000, nu as nat),
            (nu == 3 && pow(0x80_0000, nu as nat) == 0x20_0000_0000_0000_0000
                && pow(256, dd) == 0x100_0000_0000_0000)
                || (nu == 2 && pow(0x80_0000, nu as nat) == 0x4000_0000_0000
                    && pow(256, dd) == 0x100_0000)
                || (nu == 1 && pow(0x80_0000, nu as nat) == 0x80_0000
                    && pow(256, dd) == 0x100),
    ;
}

/// The knot spacing of in-range channel values is positive and never
/// exceeds the largest possible chord.
pub proof fn lemma_knot_span_bounds(a: int, b: int, alpha_tenths: int)
    requires
        -MAX_COORD <= a <= MAX_COORD,
        -MAX_COORD <= b <= MAX_COORD,
        3 <= alpha_tenths <= 5,
    ensures
        1 <= knot_span(a, b, alpha_tenths) <= 0x80_0000,
{
    lemma_scale_values();
    let c = chord(a, b);
    let nu = alpha_num(alpha_tenths) as nat;
    let de = alpha_den(alpha_tenths) as nat;
    let dd = (alpha_den(alpha_tenths) - alpha_num(alpha_tenths)) as nat;
    let v = pow(c, nu) * pow(256, dd);
    lemma_knot_v_fits(c, alpha_tenths);
    lemma_root_floor_props(v, de);
    let r = root_floor(v, de);
    if r < 1 {
        lemma1_pow(de);
        assert(false);
    }
    if r > 0x80_0000 {
        lemma_pow_base_mono(c, 0x80_0000, nu);
        lemma_pow_base_mono(256, 0x80_0000, dd);
        lemma_pow_adds(0x80_0000, nu, dd);
        lemma_pow_nonneg(c, nu);
        lemma_pow_nonneg(256, dd);
        assert(v <= pow(0x80_0000, de)) by (nonlinear_arith)
            requires
                0 <= pow(c, nu) <= pow(0x80_0000, nu),
                0 <= pow(256, dd) <= pow(0x80_0000, dd),
                v == pow(c, nu) * pow(256, dd),
                pow(0x80_0000, de) == pow(0x80_0000, nu) * pow(0x80_0000, dd),
        ;
        lemma_pow_base_mono(0x80_0000int + 1, r, de);
        lemma_pow_base_strict_mono(0x80_0000int, 0x80_0000int + 1, de);
        assert(false);
    }
}

/// Knot spacing in executable form.
///
/// Computes the fixed-point value of `chord^(num/den)` by an exact integer
/// root; the result is pinned to [`knot_span`] and always positive.
pub fn knot_span_fx(a: i64, b: i64, alpha_tenths: u8) -> (d: i64)
    requires
        -MAX_COORD <= a <= MAX_COORD,
        -MAX_COORD <= b <= MAX_COORD,
        3 <= alpha_tenths <= 5,
    ensures
        d as int == knot_span(a as int, b as int, alpha_tenths as int),
        1 <= d <= 0x80_0000,
{
    proof {
        lemma_scale_values();
    }
    let diff: i64 = if a >= b {
        a - b
    } else {
        b - a
    };
    let c: u128 = if diff == 0 {
        1
    } else {
        diff as u128
    };
    let (nu, de): (u32, u32) = if alpha_tenths == 3 {
        (3, 10)
    } else if alpha_tenths == 4 {
        (2, 5)
    } else {
        (1, 2)
    };
    proof {
        lemma_knot_v_fits(c as int, alpha_tenths as int);
        lemma_pow_positive(c as int, nu as nat);
        lemma_pow_positive(256, (de - nu) as nat);
        assert(pow(c as int, nu as nat) <= pow(c as int, nu as nat) * pow(
            256,
            (de - nu) as nat,
        )) by (nonlinear_arith)
            requires
                1 <= pow(c as int, nu as nat),
                1 <= pow(256, (de - nu) as nat),
        ;
        assert(pow(256, (de - nu) as nat) <= pow(c as int, nu as nat) * pow(
            256,
            (de - nu) as nat,
        )) by (nonlinear_arith)
            requires
                1 <= pow(c as int, nu as nat),
                1 <= pow(256, (de - nu) as nat),
        ;
    }
    let pc: u128 = match pow_le(c, nu, 0xffff_ffff_ffff_ffff_ffff_ffff_ffff_ffff) {
        Some(p) => p,
        None => {
            proof {
                assert(false);
            }
            0
        },
    };
    let ps: u128 = match pow_le(256, de - nu, 0xffff_ffff_ffff_ffff_ffff_ffff_ffff_ffff) {
        Some(p) => p,
        None => {
            proof {
                assert(false);
            }
            0
        },
    };
    let v: u128 = pc * ps;
    let r: u128 = nth_root(v, de);
    proof {
        lemma_knot_span_bounds(a as int, b as int, alpha_tenths as int);
        lemma_root_floor_props(v as int, de as nat);
        crate::root::lemma_root_unique(
            v as int,
            de as nat,
            r as int,
            knot_span(a as int, b as int, alpha_tenths as int),
        );
    }
    r as i64
}

/// One level of the de Casteljau-style construction: the linear blend of
/// `a` (weight `hi - t`) and `b` (weight `t - lo`) over the knot interval
/// `[lo, hi]`, as a single fused floor division.
pub open spec fn knot_blend(t: int, lo: int, hi: int, a: int, b: int) -> int {
    (a * (hi - t) + b * (t - lo)) / (hi - lo)
}

/// Value of the centripetal Catmull-Rom construction at parameter `t` of
/// the segment `[p1, p2]`, for knot spacings `d01`, `d12`, `d23`: the
/// global parameter is remapped into the knot interval `[t1, t2]`, three
/// linear blends give A1, A2, A3, two more give B1, B2, and a final blend
/// gives the curve point.
pub open spec fn centripetal_blends(
    t: int,
    p0: int,
    p1: int,
    p2: int,
    p3: int,
    d01: int,
    d12: int,
    d23: int,
) -> int {
    let t1 = d01;
    let t2 = d01 + d12;
    let t3 = d01 + d12 + d23;
    let tt = t1 + (t * d12) / 256;
    let a1 = knot_blend(tt, 0, t1, p0, p1);
    let a2 = knot_blend(tt, t1, t2, p1, p2);
    let a3 = knot_blend(tt, t2, t3, p2, p3);
    let b1 = knot_blend(tt, 0, t2, a1, a2);
    let b2 = knot_blend(tt, t1, t3, a2, a3);
    knot_blend(tt, t1, t2, b1, b2)
}

/// Value of the centripetal Catmull-Rom channel evaluator: knot spacings
/// from the chords raised to `alpha_tenths/10`, then the blend cascade;
/// if any knot interval collapses the evaluator falls back to `p1`.
pub open spec fn catmull_rom_centripetal_at(
    t: int,
    p0: int,
    p1: int,
    p2: int,
    p3: int,
    alpha_tenths: int,
) -> int {
    let d01 = knot_span(p0, p1, alpha_tenths);
    let d12 = knot_span(p1, p2, alpha_tenths);
    let d23 = knot_span(p2, p3, alpha_tenths);
    if d01 == 0 || d12 == 0 || d23 == 0 {
        p1
    } else {
        centripetal_blends(t, p0, p1, p2, p3, d01, d12, d23)
    }
}

/// Centripetal Catmull-Rom channel evaluator.
pub fn catmull_rom_centripetal(
    t: i64,
    p0: i64,
    p1: i64,
    p2: i64,
    p3: i64,
    alpha_tenths: u8,
) -> (v: i64)
    requires
        0 <= t <= SCALE,
        -MAX_COORD <= p0 <= MAX_COORD,
        -MAX_COORD <= p1 <= MAX_COORD,
        -MAX_COORD <= p2 <= MAX_COORD,
        -MAX_COORD <= p3 <= MAX_COORD,
        3 <= alpha_tenths <= 5,
    ensures
        v as int == catmull_rom_centripetal_at(
            t as int,
            p0 as int,
            p1 as int,
            p2 as int,
            p3 as int,
            alpha_tenths as int,
        ),
{
    proof {
        lemma_scale_values();
    }
    let d01 = knot_span_fx(p0, p1, alpha_tenths);
    let d12 = knot_span_fx(p1, p2, alpha_tenths);
    let d23 = knot_span_fx(p2, p3, alpha_tenths);
    if d01 == 0 || d12 == 0 || d23 == 0 {
        return p1;
    }
    let t1: i128 = d01 as i128;
    let t2: i128 = t1 + d12 as i128;
    let t3: i128 = t2 + d23 as i128;
    proof {
        lemma_mul_mag(t as int, d12 as int, 256, 0x80_0000);
        lemma_remap_range(t as int, d12 as int, 256);
    }
    let tt: i128 = t1 + div_fl(t as i128 * d12 as i128, 256);
    proof {
        lemma_mul_mag(p0 as int, t1 as int - tt as int, 0x40_0000, 0x80_0000);
        lemma_mul_mag(p1 as int, tt as int, 0x40_0000, 0x100_0000);
        lemma_mul_mag(p1 as int, t2 as int - tt as int, 0x40_0000, 0x80_0000);
        lemma_mul_mag(p2 as int, tt as int - t1 as int, 0x40_0000, 0x80_0000);
        lemma_mul_mag(p2 as int, t3 as int - tt as int, 0x40_0000, 0x100_0000);
        lemma_mul_mag(p3 as int, tt as int - t2 as int, 0x40_0000, 0x80_0000);
    }
    let a1: i128 = div_fl(p0 as i128 * (t1 - tt) + p1 as i128 * (tt - 0), t1 - 0);
    let a2: i128 = div_fl(p1 as i128 * (t2 - tt) + p2 as i128 * (tt - t1), t2 - t1);
    let a3: i128 = div_fl(p2 as i128 * (t3 - tt) + p3 as i128 * (tt - t2), t3 - t2);
    proof {
        lemma_div_mag(p0 as int * (t1 - tt) as int + p1 as int * (tt as int - 0), t1 as int);
        lemma_div_mag(
            p1 as int * (t2 - tt) as int + p2 as int * ((tt - t1) as int),
            (t2 - t1) as int,
        );
        lemma_div_mag(
            p2 as int * (t3 - tt) as int + p3 as int * ((tt - t2) as int),
            (t3 - t2) as int,
        );
        lemma_mul_mag(a1 as int, (t2 - tt) as int, 0x8000_0000_0000, 0x100_0000);
        lemma_mul_mag(a2 as int, tt as int, 0x8000_0000_0000, 0x100_0000);
        lemma_mul_mag(a2 as int, (t3 - tt) as int, 0x8000_0000_0000, 0x100_0000);
        lemma_mul_mag(a3 as int, (tt - t1) as int, 0x8000_0000_0000, 0x100_0000);
    }
    let b1: i128 = div_fl(a1 * (t2 - tt) + a2 * (tt - 0), t2 - 0);
    let b2: i128 = div_fl(a2 * (t3 - tt) + a3 * (tt - t1), t3 - t1);
    proof {
        assert((t2 - tt) + (tt - 0) == t2 - 0);
        assert((t3 - tt) + (tt - t1) == t3 - t1);
        assert((t2 - tt) + (tt - t1) == t2 - t1);
        crate::fixed::lemma_blend_mag(
            a1 as int,
            a2 as int,
            (t2 - tt) as int,
            tt as int,
            0x8000_0000_0000,
        );
        crate::fixed::lemma_blend_mag(
            a2 as int,
            a3 as int,
            (t3 - tt) as int,
            (tt - t1) as int,
            0x8000_0000_0000,
        );
        lemma_mul_mag(b1 as int, (t2 - tt) as int, 0x8000_0000_0000, 0x100_0000);
        lemma_mul_mag(b2 as int, (tt - t1) as int, 0x8000_0000_0000, 0x100_0000);
    }
    let v: i128 = div_fl(b1 * (t2 - tt) + b2 * (tt - t1), t2 - t1);
    proof {
        crate::fixed::lemma_blend_mag(
            b1 as int,
            b2 as int,
            (t2 - tt) as int,
            (tt - t1) as int,
            0x8000_0000_0000,
        );
    }
    v as i64
}


/// Collapsed-knot degeneracy: when all four control values coincide, the
/// centripetal evaluator returns that value for every parameter.
pub proof fn lemma_centripetal_degenerate(t: int, p: int, alpha_tenths: int)
    requires
        0 <= t <= 256,
        -MAX_COORD <= p <= MAX_COORD,
        3 <= alpha_tenths <= 5,
    ensures
        catmull_rom_centripetal_at(t, p, p, p, p, alpha_tenths) == p,
{
    lemma_scale_values();
    lemma_knot_span_bounds(p, p, alpha_tenths);
    let d = knot_span(p, p, alpha_tenths);
    let t1 = d;
    let t2 = d + d;
    let t3 = d + d + d;
    lemma_remap_range(t, d, 256);
    let tt = t1 + (t * d) / 256;
    assert(p * (t1 - tt) + p * (tt - 0) == p * (t1 - 0)) by (nonlinear_arith);
    lemma_div_exact(p, t1 - 0);
    assert(p * (t2 - tt) + p * (tt - t1) == p * (t2 - t1)) by (nonlinear_arith);
    lemma_div_exact(p, t2 - t1);
    assert(p * (t3 - tt) + p * (tt - t2) == p * (t3 - t2)) by (nonlinear_arith);
    lemma_div_exact(p, t3 - t2);
    assert(p * (t2 - tt) + p * (tt - 0) == p * (t2 - 0)) by (nonlinear_arith);
    lemma_div_exact(p, t2 - 0);
    assert(p * (t3 - tt) + p * (tt - t1) == p * (t3 - t1)) by (nonlinear_arith);
    lemma_div_exact(p, t3 - t1);
}

/// Interpolating with the centripetal construction at the ends of the
/// segment reproduces the segment's own control values exactly.
pub proof fn lemma_centripetal_ends(p0: int, p1: int, p2: int, p3: int, alpha_tenths: int)
    requires
        -MAX_COORD <= p0 <= MAX_COORD,
        -MAX_COORD <= p1 <= MAX_COORD,
        -MAX_COORD <= p2 <= MAX_COORD,
        -MAX_COORD <= p3 <= MAX_COORD,
        3 <= alpha_tenths <= 5,
    ensures
        catmull_rom_centripetal_at(0, p0, p1, p2, p3, alpha_tenths) == p1,
        catmull_rom_centripetal_at(256, p0, p1, p2, p3, alpha_tenths) == p2,
{
    lemma_scale_values();
    lemma_knot_span_bounds(p0, p1, alpha_tenths);
    lemma_knot_span_bounds(p1, p2, alpha_tenths);
    lemma_knot_span_bounds(p2, p3, alpha_tenths);
    let d01 = knot_span(p0, p1, alpha_tenths);
    let d12 = knot_span(p1, p2, alpha_tenths);
    let d23 = knot_span(p2, p3, alpha_tenths);
    let t1 = d01;
    let t2 = d01 + d12;
    let t3 = d01 + d12 + d23;
    // parameter zero: the remapped parameter sits on the left knot
    let tt = t1 + (0 * d12) / 256;
    assert(tt == t1) by {
        vstd::arithmetic::div_mod::lemma_div_of0(256);
    }
    let a1s = knot_blend(tt, 0, t1, p0, p1);
    let a2s = knot_blend(tt, t1, t2, p1, p2);
    let a3s = knot_blend(tt, t2, t3, p2, p3);
    let b1s = knot_blend(tt, 0, t2, a1s, a2s);
    let b2s = knot_blend(tt, t1, t3, a2s, a3s);
    assert(a1s == p1) by {
        assert(p0 * (t1 - tt) + p1 * (tt - 0) == p1 * (t1 - 0)) by (nonlinear_arith)
            requires
                tt == t1,
        ;
        lemma_div_exact(p1, t1 - 0);
    }
    assert(a2s == p1) by {
        assert(p1 * (t2 - tt) + p2 * (tt - t1) == p1 * (t2 - t1)) by (nonlinear_arith)
            requires
                tt == t1,
        ;
        lemma_div_exact(p1, t2 - t1);
    }
    assert(b1s == p1) by {
        assert(a1s * (t2 - tt) + a2s * (tt - 0) == p1 * (t2 - 0)) by (nonlinear_arith)
            requires
                tt == t1,
                a1s == p1,
                a2s == p1,
        ;
        lemma_div_exact(p1, t2 - 0);
    }
    assert(knot_blend(tt, t1, t2, b1s, b2s) == p1) by {
        assert(b1s * (t2 - tt) + b2s * (tt - t1) == p1 * (t2 - t1)) by (nonlinear_arith)
            requires
                tt == t1,
                b1s == p1,
        ;
        lemma_div_exact(p1, t2 - t1);
    }
    // parameter SCALE: the remapped parameter sits on the right knot
    let tu = t1 + (256 * d12) / 256;
    assert(tu == t2) by {
        lemma_div_exact(d12, 256);
        assert(d12 * 256 == 256 * d12);
    }
    let a2u = knot_blend(tu, t1, t2, p1, p2);
    let a3u = knot_blend(tu, t2, t3, p2, p3);
    let b2u = knot_blend(tu, t1, t3, a2u, a3u);
    assert(a2u == p2) by {
        assert(p1 * (t2 - tu) + p2 * (tu - t1) == p2 * (t2 - t1)) by (nonlinear_arith)
            requires
                tu == t2,
        ;
        lemma_div_exact(p2, t2 - t1);
    }
    assert(a3u == p2) by {
        assert(p2 * (t3 - tu) + p3 * (tu - t2) == p2 * (t3 - t2)) by (nonlinear_arith)
            requires
                tu == t2,
        ;
        lemma_div_exact(p2, t3 - t2);
    }
    assert(b2u == p2) by {
        assert(a2u * (t3 - tu) + a3u * (tu - t1) == p2 * (t3 - t1)) by (nonlinear_arith)
            requires
                tu == t2,
                a2u == p2,
                a3u == p2,
        ;
        lemma_div_exact(p2, t3 - t1);
    }
    let b1u = knot_blend(tu, 0, t2, knot_blend(tu, 0, t1, p0, p1), a2u);
    assert(knot_blend(tu, t1, t2, b1u, b2u) == p2) by {
        assert(b1u * (t2 - tu) + b2u * (tu - t1) == p2 * (t2 - t1)) by (nonlinear_arith)
            requires
                tu == t2,
                b2u == p2,
        ;
        lemma_div_exact(p2, t2 - t1);
    }
}

} // verus!
