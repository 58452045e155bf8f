//! Monotonic cubic Hermite interpolation (Fritsch-Carlson).
//!
//! The channel arrays may contain coincident x-values; where real-number
//! arithmetic would produce a non-finite slope, the slope is recorded as
//! `None`, and the samples of any segment whose tangents are undefined
//! are skipped rather than emitted, so the output holds finite points
//! only.
//!
//! Scale powers appear as literals: 256 is `SCALE`, 65536 is `SCALE^2`,
//! 0x1_0000_0000 is `SCALE^4`, and 2304 is `9*SCALE`.

use vstd::prelude::*;
use crate::fixed::{
    div_fl, div_fl_nz, div_floor, lemma_div_bound_by, lemma_div_exact, lemma_div_floor_mul,
    lemma_div_mag, lemma_mul_mag, lemma_remap_range, lemma_scale_values,
};
use crate::fixed::MAX_COORD;
use crate::root::{nth_root, root_floor};
use vstd::arithmetic::power::lemma_square_is_pow2;
use vstd::arithmetic::div_mod::{lemma_div_is_ordered_by_denominator, lemma_div_of0, lemma_div_pos_is_pos};

verus! {

/// Every value of the sequence lies within the coordinate bound.
pub open spec fn coords_in_range(s: Seq<i64>) -> bool {
    forall|k: int| 0 <= k < s.len() ==> -MAX_COORD <= #[trigger] s[k] <= MAX_COORD
}

/// A defined optional value lies within magnitude `m`.
pub open spec fn opt_mag(o: Option<i64>, m: int) -> bool {
    match o {
        Option::None => true,
        Option::Some(v) => -m <= v <= m,
    }
}

/// Slope of segment `i`: the fixed-point quotient `dy/dx`, or `None` where
/// the spacing is zero (the non-finite case of the real computation).
pub open spec fn slope_at(xs: Seq<i64>, ys: Seq<i64>, i: int) -> Option<i64> {
    if xs[i + 1] == xs[i] {
        Option::None
    } else {
        Option::Some(div_floor((ys[i + 1] - ys[i]) * 256, xs[i + 1] - xs[i]) as i64)
    }
}

/// All segment slopes.
pub open spec fn slopes_of(xs: Seq<i64>, ys: Seq<i64>) -> Seq<Option<i64>> {
    Seq::new((xs.len() - 1) as nat, |i: int| slope_at(xs, ys, i))
}

/// Average of two optional slopes; undefined if either is.
pub open spec fn avg_opt(a: Option<i64>, b: Option<i64>) -> Option<i64> {
    match (a, b) {
        (Option::Some(x), Option::Some(y)) => Option::Some(((x + y) / 2) as i64),
        _ => Option::None,
    }
}

/// Initial tangents: one slope at each end, the average of the adjacent
/// slopes in between.
pub open spec fn init_tangents(sl: Seq<Option<i64>>) -> Seq<Option<i64>> {
    Seq::new(
        sl.len() + 1,
        |k: int|
            if k == 0 {
                sl[0]
            } else if k == sl.len() {
                sl[sl.len() - 1]
            } else {
                avg_opt(sl[k - 1], sl[k])
            },
    )
}

/// One step of the Fritsch-Carlson monotonicity correction at segment `i`:
/// a flat segment zeroes both adjacent tangents; otherwise, when
/// `alpha^2 + beta^2` exceeds `9`, both tangents are rescaled by
/// `3/sqrt(alpha^2+beta^2)`; tangents touched by an undefined value are
/// left as they are.
pub open spec fn fc_step(t: Seq<Option<i64>>, s: Seq<Option<i64>>, i: int) -> Seq<Option<i64>> {
    match s[i] {
        Option::Some(sv) => if sv == 0 {
            t.update(i, Option::Some(0i64)).update(i + 1, Option::Some(0i64))
        } else {
            match (t[i], t[i + 1]) {
                (Option::Some(ta), Option::Some(tb)) => {
                    let al = div_floor((ta as int) * 256, sv as int);
                    let be = div_floor((tb as int) * 256, sv as int);
                    let s2 = (al * al + be * be) / 256;
                    if s2 > 2304 {
                        let rt = root_floor(s2 * 256, 2);
                        let tau = 196608int / rt;
                        t.update(i, Option::Some(div_floor(tau * al * (sv as int), 65536) as i64))
                            .update(
                            i + 1,
                            Option::Some(div_floor(tau * be * (sv as int), 65536) as i64),
                        )
                    } else {
                        t
                    }
                },
                _ => t,
            }
        },
        Option::None => t,
    }
}

/// The first `k` correction steps applied in order.
pub open spec fn fc_upto(t: Seq<Option<i64>>, s: Seq<Option<i64>>, k: int) -> Seq<Option<i64>>
    decreases k,
{
    if k <= 0 {
        t
    } else {
        fc_step(fc_upto(t, s, k - 1), s, k - 1)
    }
}

/// The corrected tangents of the whole channel pair.
pub open spec fn tangents_of(xs: Seq<i64>, ys: Seq<i64>) -> Seq<Option<i64>> {
    fc_upto(init_tangents(slopes_of(xs, ys)), slopes_of(xs, ys), xs.len() - 1)
}

/// Sample parameter of step `j` out of 100, in fixed point.
pub open spec fn step_t(j: int) -> int {
    (j * 256) / 100
}

/// The x-coordinate of sample `j` of a segment: linear in the parameter.
pub open spec fn hermite_x(x0: i64, x1: i64, j: int) -> int {
    x0 + (step_t(j) * (x1 - x0)) / 256
}

/// The y-coordinate of sample `j` of a segment: the cubic Hermite basis
/// blend `h00*y0 + h10*dx*m0 + h01*y1 + h11*dx*m1` as one fused fixed-point
/// division.
pub open spec fn hermite_y(y0: i64, y1: i64, m0: i64, m1: i64, dx: int, j: int) -> int {
    let t = step_t(j);
    let u = 256 - t;
    ((256 + 2 * t) * u * u * y0 * 256 + t * t * (768 - 2 * t) * y1 * 256
        + (t * u * u * m0 + t * t * (t - 256) * m1) * dx) / 0x1_0000_0000
}

/// Whether segment `i` is emitted: both of its tangents are defined.
pub open spec fn seg_emits(tg: Seq<Option<i64>>, i: int) -> bool {
    tg[i] is Some && tg[i + 1] is Some
}

/// The 101 samples of segment `i`, or nothing when the segment is skipped.
pub open spec fn seg_samples(
    xs: Seq<i64>,
    ys: Seq<i64>,
    tg: Seq<Option<i64>>,
    i: int,
) -> Seq<(i64, i64)> {
    if seg_emits(tg, i) {
        Seq::new(
            101,
            |j: int|
                (
                    hermite_x(xs[i], xs[i + 1], j) as i64,
                    hermite_y(ys[i], ys[i + 1], tg[i]->0, tg[i + 1]->0, xs[i + 1] - xs[i], j) as i64,
                ),
        )
    } else {
        Seq::empty()
    }
}

/// The samples of the first `k` segments, in order.
pub open spec fn samples_upto(
    xs: Seq<i64>,
    ys: Seq<i64>,
    tg: Seq<Option<i64>>,
    k: int,
) -> Seq<(i64, i64)>
    decreases k,
{
    if k <= 0 {
        Seq::empty()
    } else {
        samples_upto(xs, ys, tg, k - 1) + seg_samples(xs, ys, tg, k - 1)
    }
}

/// The full sampled polyline of the monotonic spline.
pub open spec fn monotonic_samples(xs: Seq<i64>, ys: Seq<i64>) -> Seq<(i64, i64)> {
    samples_upto(xs, ys, tangents_of(xs, ys), xs.len() - 1)
}

/// Monotonic cubic Hermite interpolation of the channel arrays, sampled at
/// 100 steps per segment (101 points, ends included).
///
/// Mismatched or too-short arrays give `None`; otherwise every emitted
/// point is pinned by [`monotonic_samples`].
pub fn monotonic_cubic_spline(xs: &Vec<i64>, ys: &Vec<i64>) -> (r: Option<Vec<(i64, i64)>>)
    requires
        coords_in_range(xs@),
        coords_in_range(ys@),
    ensures
        r is Some <==> (xs@.len() == ys@.len() && xs@.len() >= 2),
        r matches Some(v) ==> v@ == monotonic_samples(xs@, ys@),
{
    proof {
        lemma_scale_values();
    }
    let n = xs.len();
    if n != ys.len() || n < 2 {
        return None;
    }
    // slopes between consecutive points
    let mut sl: Vec<Option<i64>> = Vec::new();
    let mut i: usize = 0;
    while i < n - 1
        invariant
            2 <= n == xs@.len() == ys@.len(),
            coords_in_range(xs@),
            coords_in_range(ys@),
            i <= n - 1,
            sl@.len() == i as int,
            forall|k: int| 0 <= k < i as int ==> #[trigger] sl@[k] == slope_at(xs@, ys@, k),
            forall|k: int| 0 <= k < i as int ==> opt_mag(#[trigger] sl@[k], 0x8000_0000),
        decreases n - 1 - i,
    {
        let dx: i64 = xs[i + 1] - xs[i];
        if dx == 0 {
            sl.push(None);
        } else {
            let dy: i64 = ys[i + 1] - ys[i];
            let q: i128 = div_fl_nz((dy as i128) * 256, dx as i128);
            proof {
                crate::fixed::lemma_div_floor_mag((dy as int) * 256, dx as int, 0x8000_0000);
            }
            sl.push(Some(q as i64));
        }
        i = i + 1;
    }
    proof {
        assert(sl@ =~= slopes_of(xs@, ys@));
    }
    // initial tangents: endpoint slopes and interior averages
    let mut tg: Vec<Option<i64>> = Vec::new();
    tg.push(sl[0]);
    let mut k: usize = 1;
    while k < n - 1
        invariant
            2 <= n,
            sl@.len() == n - 1,
            forall|m: int| 0 <= m < n - 1 ==> opt_mag(#[trigger] sl@[m], 0x8000_0000),
            1 <= k <= n - 1,
            tg@.len() == k as int,
            forall|m: int| 0 <= m < k as int ==> #[trigger] tg@[m] == init_tangents(sl@)[m],
            forall|m: int| 0 <= m < k as int ==> opt_mag(#[trigger] tg@[m], 0x8000_0000),
        decreases n - 1 - k,
    {
        let a = sl[k - 1];
        let b = sl[k];
        match (a, b) {
            (Some(x), Some(y)) => {
                let s: i128 = x as i128 + y as i128;
                let q: i128 = div_fl(s, 2);
                proof {
                    lemma_div_mag(s as int, 2);
                }
                tg.push(Some(q as i64));
            },
            _ => {
                tg.push(None);
            },
        }
        k = k + 1;
    }
    tg.push(sl[n - 2]);
    proof {
        assert(tg@ =~= init_tangents(sl@));
    }
    // Fritsch-Carlson monotonicity correction
    let mut i2: usize = 0;
    while i2 < n - 1
        invariant
            2 <= n == xs@.len() == ys@.len(),
            sl@.len() == n - 1,
            forall|m: int| 0 <= m < n - 1 ==> #[trigger] sl@[m] == slope_at(xs@, ys@, m),
            forall|m: int| 0 <= m < n - 1 ==> opt_mag(#[trigger] sl@[m], 0x8000_0000),
            i2 <= n - 1,
            tg@.len() == n as int,
            tg@ == fc_upto(init_tangents(sl@), sl@, i2 as int),
            forall|m: int|
                0 <= m < n ==> opt_mag(
                    #[trigger] tg@[m],
                    if m < i2 as int {
                        0x8100_0002
                    } else if m == i2 as int {
                        0x8080_0001
                    } else {
                        0x8000_0000
                    },
                ),
        decreases n - 1 - i2,
    {
        let sli = sl[i2];
        match sli {
            Some(sv) => {
                if sv == 0 {
                    tg.set(i2, Some(0));
                    tg.set(i2 + 1, Some(0));
                } else {
                    let ta_o = tg[i2];
                    let tb_o = tg[i2 + 1];
                    match (ta_o, tb_o) {
                        (Some(ta), Some(tb)) => {
                            let al: i128 = div_fl_nz((ta as i128) * 256, sv as i128);
                            let be: i128 = div_fl_nz((tb as i128) * 256, sv as i128);
                            proof {
                                crate::fixed::lemma_div_floor_mag(
                                    (ta as int) * 256,
                                    sv as int,
                                    0x100_0000_0000,
                                );
                                crate::fixed::lemma_div_floor_mag(
                                    (tb as int) * 256,
                                    sv as int,
                                    0x100_0000_0000,
                                );
                                lemma_mul_mag(al as int, al as int, 0x100_0000_0000, 0x100_0000_0000);
                                lemma_mul_mag(be as int, be as int, 0x100_0000_0000, 0x100_0000_0000);
                                assert(0 <= al as int * al as int && 0 <= be as int * be as int)
                                    by (nonlinear_arith);
                            }
                            let s2: i128 = div_fl(al * al + be * be, 256);
                            proof {
                                lemma_div_pos_is_pos((al * al + be * be) as int, 256);
                                lemma_div_mag((al * al + be * be) as int, 256);
                            }
                            if s2 > 2304 {
                                let rt: u128 = nth_root((s2 * 256) as u128, 2);
                                proof {
                                    lemma_square_is_pow2(rt as int);
                                    lemma_square_is_pow2(rt as int + 1);
                                    assert(rt as int >= 768 && rt as int <= 0x2000_0000_0000)
                                        by (nonlinear_arith)
                                        requires
                                            rt as int * rt as int <= (s2 * 256) as int,
                                            ((s2 * 256) as int)
                                                < (rt as int + 1) * (rt as int + 1),
                                            2305 * 256 <= (s2 * 256) as int
                                                <= 0x400_0000_0000_0000_0000_0000,
                                    ;
                                }
                                let tau: i128 = div_fl(196608, rt as i128);
                                proof {
                                    lemma_div_pos_is_pos(196608, rt as int);
                                    lemma_div_is_ordered_by_denominator(196608, 768, rt as int);
                                    assert(196608int / 768 == 256) by (nonlinear_arith);
                                    lemma_mul_mag(tau as int, al as int, 256, 0x100_0000_0000);
                                    lemma_mul_mag(
                                        tau as int * al as int,
                                        sv as int,
                                        0x1_0000_0000_0000,
                                        0x8000_0000,
                                    );
                                    lemma_mul_mag(tau as int, be as int, 256, 0x100_0000_0000);
                                    lemma_mul_mag(
                                        tau as int * be as int,
                                        sv as int,
                                        0x1_0000_0000_0000,
                                        0x8000_0000,
                                    );
                                }
                                let va: i128 = div_fl(tau * al * (sv as i128), 65536);
                                let vb: i128 = div_fl(tau * be * (sv as i128), 65536);
                                proof {
                                    lemma_div_floor_mul((ta as int) * 256, sv as int);
                                    lemma_div_floor_mul((tb as int) * 256, sv as int);
                                    assert(tau as int * al as int * sv as int == tau as int * (
                                    al as int * sv as int)) by (nonlinear_arith);
                                    assert(tau as int * be as int * sv as int == tau as int * (
                                    be as int * sv as int)) by (nonlinear_arith);
                                    lemma_mul_mag(
                                        tau as int,
                                        al as int * sv as int,
                                        256,
                                        0x81_0000_0100,
                                    );
                                    lemma_mul_mag(
                                        tau as int,
                                        be as int * sv as int,
                                        256,
                                        0x80_8000_0000,
                                    );
                                    lemma_div_bound_by(
                                        (tau * al * (sv as i128)) as int,
                                        65536,
                                        0x8100_0002,
                                    );
                                    lemma_div_bound_by(
                                        (tau * be * (sv as i128)) as int,
                                        65536,
                                        0x8080_0001,
                                    );
                                }
                                tg.set(i2, Some(va as i64));
                                tg.set(i2 + 1, Some(vb as i64));
                            }
                        },
                        _ => {},
                    }
                }
            },
            None => {},
        }
        i2 = i2 + 1;
        proof {
            assert(tg@ == fc_upto(init_tangents(sl@), sl@, i2 as int));
        }
    }
    // sample each segment whose tangents are both defined
    let mut out: Vec<(i64, i64)> = Vec::new();
    let mut s: usize = 0;
    while s < n - 1
        invariant
            2 <= n == xs@.len() == ys@.len(),
            coords_in_range(xs@),
            coords_in_range(ys@),
            s <= n - 1,
            tg@.len() == n as int,
            tg@ == tangents_of(xs@, ys@),
            forall|m: int| 0 <= m < n ==> opt_mag(#[trigger] tg@[m], 0x1_0000_0000),
            out@ == samples_upto(xs@, ys@, tg@, s as int),
        decreases n - 1 - s,
    {
        let ta_o = tg[s];
        let tb_o = tg[s + 1];
        match (ta_o, tb_o) {
            (Some(m0), Some(m1)) => {
                let x0 = xs[s];
                let x1 = xs[s + 1];
                let y0 = ys[s];
                let y1 = ys[s + 1];
                let dxv: i128 = x1 as i128 - x0 as i128;
                let mut j: usize = 0;
                while j < 101
                    invariant
                        2 <= n == xs@.len() == ys@.len(),
                        s < n - 1,
                        coords_in_range(xs@),
                        coords_in_range(ys@),
                        tg@.len() == n as int,
                        tg@ == tangents_of(xs@, ys@),
                        forall|m: int| 0 <= m < n ==> opt_mag(#[trigger] tg@[m], 0x1_0000_0000),
                        j <= 101,
                        seg_emits(tg@, s as int),
                        x0 == xs@[s as int] && x1 == xs@[s as int + 1],
                        y0 == ys@[s as int] && y1 == ys@[s as int + 1],
                        Option::Some(m0) == tg@[s as int],
                        Option::Some(m1) == tg@[s as int + 1],
                        dxv == x1 - x0,
                        out@ == samples_upto(xs@, ys@, tg@, s as int) + Seq::new(
                            j as nat,
                            |jj: int|
                                (
                                    hermite_x(xs@[s as int], xs@[s as int + 1], jj) as i64,
                                    hermite_y(
                                        ys@[s as int],
                                        ys@[s as int + 1],
                                        tg@[s as int]->0,
                                        tg@[s as int + 1]->0,
                                        xs@[s as int + 1] - xs@[s as int],
                                        jj,
                                    ) as i64,
                                ),
                        ),
                    decreases 101 - j,
                {
                    proof {
                        lemma_remap_range(j as int, 256, 100);
                    }
                    let tj: i128 = div_fl((j as i128) * 256, 100);
                    let u: i128 = 256 - tj;
                    proof {
                        lemma_mul_mag((256 + 2 * tj) as int, u as int, 768, 256);
                        lemma_mul_mag(((256 + 2 * tj) * u) as int, u as int, 0x3_0000, 256);
                        lemma_mul_mag(
                            ((256 + 2 * tj) * u * u) as int,
                            y0 as int,
                            0x300_0000,
                            0x40_0000,
                        );
                        lemma_mul_mag(tj as int, tj as int, 256, 256);
                        lemma_mul_mag((tj * tj) as int, (768 - 2 * tj) as int, 0x1_0000, 768);
                        lemma_mul_mag(
                            (tj * tj * (768 - 2 * tj)) as int,
                            y1 as int,
                            0x300_0000,
                            0x40_0000,
                        );
                        lemma_mul_mag(tj as int, u as int, 256, 256);
                        lemma_mul_mag((tj * u) as int, u as int, 0x1_0000, 256);
                        lemma_mul_mag((tj * u * u) as int, m0 as int, 0x100_0000, 0x1_0000_0000);
                        lemma_mul_mag((tj * tj) as int, (tj - 256) as int, 0x1_0000, 256);
                        lemma_mul_mag(
                            (tj * tj * (tj - 256)) as int,
                            m1 as int,
                            0x100_0000,
                            0x1_0000_0000,
                        );
                        lemma_mul_mag(
                            (tj * u * u * m0 + tj * tj * (tj - 256) * m1) as int,
                            dxv as int,
                            0x2_0000_0000_0000_0000,
                            0x80_0000,
                        );
                        lemma_mul_mag(tj as int, dxv as int, 256, 0x80_0000);
                        lemma_div_mag((tj * dxv) as int, 256);
                    }
                    let xv: i128 = x0 as i128 + div_fl(tj * dxv, 256);
                    let num: i128 = (256 + 2 * tj) * u * u * (y0 as i128) * 256
                        + tj * tj * (768 - 2 * tj) * (y1 as i128) * 256
                        + (tj * u * u * (m0 as i128) + tj * tj * (tj - 256) * (m1 as i128)) * dxv;
                    let yv: i128 = div_fl(num, 0x1_0000_0000);
                    proof {
                        lemma_div_bound_by(num as int, 0x1_0000_0000, 0x200_0000_0000_0000);
                    }
                    out.push((xv as i64, yv as i64));
                    j = j + 1;
                    proof {
                        let f = |jj: int|
                            (
                                hermite_x(xs@[s as int], xs@[s as int + 1], jj) as i64,
                                hermite_y(
                                    ys@[s as int],
                                    ys@[s as int + 1],
                                    tg@[s as int]->0,
                                    tg@[s as int + 1]->0,
                                    xs@[s as int + 1] - xs@[s as int],
                                    jj,
                                ) as i64,
                            );
                        assert(Seq::new(j as nat, f) =~= Seq::new((j - 1) as nat, f).push(
                            f(j as int - 1),
                        ));
                    }
                }
                proof {
                    assert(Seq::new(101, |jj: int|
                        (
                            hermite_x(xs@[s as int], xs@[s as int + 1], jj) as i64,
                            hermite_y(
                                ys@[s as int],
                                ys@[s as int + 1],
                                tg@[s as int]->0,
                                tg@[s as int + 1]->0,
                                xs@[s as int + 1] - xs@[s as int],
                                jj,
                            ) as i64,
                        )) =~= seg_samples(xs@, ys@, tg@, s as int));
                }
            },
            _ => {
                proof {
                    assert(samples_upto(xs@, ys@, tg@, s as int + 1) =~= samples_upto(
                        xs@,
                        ys@,
                        tg@,
                        s as int,
                    ));
                }
            },
        }
        s = s + 1;
    }
    Some(out)
}


/// Sampling a segment at its first step reproduces its first control
/// point exactly, and at its last step its second one, whatever the
/// tangents: the Hermite basis collapses at the ends.
pub proof fn lemma_hermite_sample_ends(x0: i64, x1: i64, y0: i64, y1: i64, m0: i64, m1: i64)
    ensures
        hermite_x(x0, x1, 0) == x0,
        hermite_y(y0, y1, m0, m1, x1 - x0, 0) == y0,
        hermite_x(x0, x1, 100) == x1,
        hermite_y(y0, y1, m0, m1, x1 - x0, 100) == y1,
{
    lemma_div_of0(100);
    lemma_div_of0(256);
    assert(step_t(0) == 0);
    lemma_div_exact(256, 100);
    assert(step_t(100) == 256);
    let dx = x1 as int - x0 as int;
    assert(step_t(0) * dx == 0) by (nonlinear_arith)
        requires
            step_t(0) == 0,
    ;
    assert((256 + 2 * 0) * (256 - 0) * (256 - 0) * y0 * 256 + 0 * 0 * (768 - 2 * 0) * y1 * 256 + (0
        * (256 - 0) * (256 - 0) * m0 + 0 * 0 * (0 - 256) * m1) * dx == y0 * 0x1_0000_0000)
        by (nonlinear_arith);
    lemma_div_exact(y0 as int, 0x1_0000_0000);
    lemma_div_exact(dx, 256);
    assert(dx * 256 == 256 * dx);
    assert((256 + 2 * 256) * (256 - 256) * (256 - 256) * y0 * 256 + 256 * 256 * (768 - 2 * 256)
        * y1 * 256 + (256 * (256 - 256) * (256 - 256) * m0 + 256 * 256 * (256 - 256) * m1) * dx
        == y1 * 0x1_0000_0000) by (nonlinear_arith);
    lemma_div_exact(y1 as int, 0x1_0000_0000);
}

/// An optional slope or tangent that is either exactly zero or undefined.
pub open spec fn zero_or_none(o: Option<i64>) -> bool {
    o == Option::Some(0i64) || o is None
}

/// The correction steps keep a tangent array whose entries are all zero or
/// undefined that way, as the slopes are.
proof fn lemma_fc_zero(t: Seq<Option<i64>>, s: Seq<Option<i64>>, k: int)
    requires
        t.len() == s.len() + 1,
        0 <= k <= s.len(),
        forall|i: int| 0 <= i < t.len() ==> zero_or_none(#[trigger] t[i]),
        forall|i: int| 0 <= i < s.len() ==> zero_or_none(#[trigger] s[i]),
    ensures
        fc_upto(t, s, k).len() == t.len(),
        forall|i: int| 0 <= i < t.len() ==> zero_or_none(#[trigger] fc_upto(t, s, k)[i]),
    decreases k,
{
    if k > 0 {
        lemma_fc_zero(t, s, k - 1);
        let prev = fc_upto(t, s, k - 1);
        assert(zero_or_none(s[k - 1]));
        assert forall|i: int| 0 <= i < t.len() implies zero_or_none(
            #[trigger] fc_step(prev, s, k - 1)[i],
        ) by {
            if s[k - 1] == Option::Some(0i64) {
                assert(fc_step(prev, s, k - 1) == prev.update(k - 1, Option::Some(0i64)).update(
                    k,
                    Option::Some(0i64),
                ));
            }
        }
    }
}

/// Flat stays flat: when every y-value equals `c`, every sampled
/// y-coordinate of the monotonic spline equals `c` exactly. This is the
/// slope-zero branch of the monotonicity correction, and the part of the
/// monotonicity guarantee that holds to the last fixed-point unit.
pub proof fn lemma_monotonic_flat(xs: Seq<i64>, ys: Seq<i64>, c: i64)
    requires
        xs.len() == ys.len(),
        2 <= xs.len(),
        forall|k: int| 0 <= k < ys.len() ==> #[trigger] ys[k] == c,
    ensures
        forall|m: int|
            0 <= m < monotonic_samples(xs, ys).len() ==> (
            #[trigger] monotonic_samples(xs, ys)[m]).1 == c,
{
    let sl = slopes_of(xs, ys);
    let t0 = init_tangents(sl);
    let tg = tangents_of(xs, ys);
    assert forall|i: int| 0 <= i < sl.len() implies zero_or_none(#[trigger] sl[i]) by {
        if xs[i + 1] != xs[i] {
            let dx = xs[i + 1] as int - xs[i] as int;
            if dx > 0 {
                lemma_div_of0(dx);
            } else {
                lemma_div_of0(-dx);
            }
            assert(div_floor((ys[i + 1] - ys[i]) * 256, dx) == 0);
        }
    }
    assert forall|i: int| 0 <= i < t0.len() implies zero_or_none(#[trigger] t0[i]) by {
        lemma_div_of0(2);
        if 0 < i < sl.len() {
            assert(zero_or_none(sl[i - 1]) && zero_or_none(sl[i]));
        }
    }
    lemma_fc_zero(t0, sl, xs.len() - 1);
    lemma_flat_samples_upto(xs, ys, tg, xs.len() - 1, c);
}

/// Induction over the segments for [`lemma_monotonic_flat`].
proof fn lemma_flat_samples_upto(
    xs: Seq<i64>,
    ys: Seq<i64>,
    tg: Seq<Option<i64>>,
    k: int,
    c: i64,
)
    requires
        xs.len() == ys.len(),
        tg.len() == xs.len(),
        0 <= k <= xs.len() - 1,
        forall|i: int| 0 <= i < tg.len() ==> zero_or_none(#[trigger] tg[i]),
        forall|i: int| 0 <= i < ys.len() ==> #[trigger] ys[i] == c,
    ensures
        forall|m: int|
            0 <= m < samples_upto(xs, ys, tg, k).len() ==> (
            #[trigger] samples_upto(xs, ys, tg, k)[m]).1 == c,
    decreases k,
{
    if k > 0 {
        lemma_flat_samples_upto(xs, ys, tg, k - 1, c);
        if seg_emits(tg, k - 1) {
            assert(tg[k - 1] == Option::Some(0i64) && tg[k] == Option::Some(0i64));
            let y0 = ys[k - 1];
            let y1 = ys[k];
            let m0 = tg[k - 1]->0;
            let m1 = tg[k]->0;
            let dx = xs[k] as int - xs[k - 1] as int;
            assert forall|j: int| 0 <= j < 101 implies hermite_y(y0, y1, m0, m1, dx, j) == c by {
                let t = step_t(j);
                let u = 256 - t;
                assert((256 + 2 * t) * u * u * y0 * 256 + t * t * (768 - 2 * t) * y1 * 256 + (t * u
                    * u * m0 + t * t * (t - 256) * m1) * dx == c * 0x1_0000_0000)
                    by (nonlinear_arith)
                    requires
                        u == 256 - t,
                        y0 == c,
                        y1 == c,
                        m0 == 0i64,
                        m1 == 0i64,
                ;
                lemma_div_exact(c as int, 0x1_0000_0000);
            }
        }
        assert forall|m: int|
            0 <= m < samples_upto(xs, ys, tg, k).len() implies (
        #[trigger] samples_upto(xs, ys, tg, k)[m]).1 == c by {
            let prev = samples_upto(xs, ys, tg, k - 1);
            if m >= prev.len() {
                assert(samples_upto(xs, ys, tg, k)[m] == seg_samples(xs, ys, tg, k - 1)[m
                    - prev.len()]);
            }
        }
    }
}

} // verus!
