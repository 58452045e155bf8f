//! Fixed-point arithmetic foundation: every coordinate is an `i64` holding
//! the real value times [`SCALE`], and all algorithms divide with the floor
//! division [`div_fl`], whose result is the mathematical `/` of contracts.

use vstd::prelude::*;
use vstd::arithmetic::div_mod::{
    lemma_fundamental_div_mod, lemma_fundamental_div_mod_converse_div, lemma_div_is_ordered,
    lemma_div_multiples_vanish, lemma_div_nonincreasing, lemma_div_pos_is_pos,
};
use vstd::arithmetic::mul::lemma_mul_is_commutative;

verus! {

/// Number of fixed-point units in one real unit: an `i64` coordinate `v`
/// denotes the real value `v / SCALE`.
pub const SCALE: i64 = 256;

/// Largest magnitude, in fixed-point units, that a control-point coordinate
/// may have (16384 real units). The bound keeps every intermediate product
/// of the evaluators inside `i128`.
pub const MAX_COORD: i64 = 0x40_0000;

/// [`SCALE`] squared.
pub const SCALE2: i64 = 0x1_0000;

/// [`SCALE`] cubed.
pub const SCALE3: i64 = 0x100_0000;

/// [`SCALE`] to the fourth power.
pub const SCALE4: i64 = 0x1_0000_0000;

/// Magnitude bound under which [`div_fl`] accepts its operands: 2^124.
pub const DIV_RANGE: i128 = 0x1000_0000_0000_0000_0000_0000_0000_0000;

/// The numeric values of the scale constants, for proofs outside this
/// module (a `const` is a function whose body other modules do not see).
pub proof fn lemma_scale_values()
    ensures
        SCALE == 256,
        SCALE2 == 0x1_0000,
        SCALE3 == 0x100_0000,
        SCALE4 == 0x1_0000_0000,
        MAX_COORD == 0x40_0000,
        DIV_RANGE == 0x1000_0000_0000_0000_0000_0000_0000_0000,
{
}

/// Floor division of `n` by a positive `d`, built from unsigned machine
/// division only; the result is exactly the `/` of specifications, which
/// rounds toward negative infinity for a positive divisor.
pub fn div_fl(n: i128, d: i128) -> (q: i128)
    requires
        0 < d < DIV_RANGE,
        -DIV_RANGE < n < DIV_RANGE,
    ensures
        q == n as int / d as int,
{
    if n >= 0 {
        let q0: u128 = (n as u128) / (d as u128);
        proof {
            lemma_div_nonincreasing(n as int, d as int);
            lemma_div_pos_is_pos(n as int, d as int);
        }
        q0 as i128
    } else {
        let m: u128 = (-n) as u128;
        let du: u128 = d as u128;
        let q0: u128 = (m + (du - 1)) / du;
        proof {
            let mi = m as int;
            let di = d as int;
            lemma_fundamental_div_mod(mi, di);
            let q1 = mi / di;
            let r1 = mi % di;
            lemma_div_pos_is_pos(mi, di);
            lemma_div_nonincreasing(mi, di);
            if r1 == 0 {
                assert(mi + di - 1 == q1 * di + (di - 1));
                lemma_fundamental_div_mod_converse_div(mi + di - 1, di, q1, di - 1);
                assert(-mi == (-q1) * di + 0) by (nonlinear_arith)
                    requires mi == q1 * di + 0;
                lemma_fundamental_div_mod_converse_div(-mi, di, -q1, 0);
            } else {
                assert(mi + di - 1 == (q1 + 1) * di + (r1 - 1)) by (nonlinear_arith)
                    requires mi == q1 * di + r1;
                lemma_fundamental_div_mod_converse_div(mi + di - 1, di, q1 + 1, r1 - 1);
                assert(-mi == (-(q1 + 1)) * di + (di - r1)) by (nonlinear_arith)
                    requires mi == q1 * di + r1;
                lemma_fundamental_div_mod_converse_div(-mi, di, -(q1 + 1), di - r1);
            }
        }
        -(q0 as i128)
    }
}

/// Floor division extended to any non-zero divisor: the quotient rounded
/// toward negative infinity.
pub open spec fn div_floor(n: int, d: int) -> int {
    if d > 0 {
        n / d
    } else {
        (-n) / (-d)
    }
}

/// Floor division by a non-zero divisor of either sign.
pub fn div_fl_nz(n: i128, d: i128) -> (q: i128)
    requires
        d != 0,
        -DIV_RANGE < n < DIV_RANGE,
        -DIV_RANGE < d < DIV_RANGE,
    ensures
        q == div_floor(n as int, d as int),
{
    if d > 0 {
        div_fl(n, d)
    } else {
        div_fl(-n, -d)
    }
}

/// A floor quotient times its divisor misses the numerator by less than
/// the divisor's magnitude.
pub proof fn lemma_div_floor_mul(n: int, d: int)
    requires
        d != 0,
    ensures
        n - (if d > 0 { d } else { -d }) < div_floor(n, d) * d,
        div_floor(n, d) * d < n + (if d > 0 { d } else { -d }),
{
    if d > 0 {
        lemma_fundamental_div_mod(n, d);
        assert((n / d) * d == d * (n / d)) by (nonlinear_arith);
    } else {
        lemma_fundamental_div_mod(-n, -d);
        assert(((-n) / (-d)) * d == -((-d) * ((-n) / (-d)))) by (nonlinear_arith);
    }
}

/// The magnitude of a floor quotient never exceeds the magnitude of the
/// numerator, whatever the sign of the divisor.
pub proof fn lemma_div_floor_mag(n: int, d: int, m: int)
    requires
        d != 0,
        -m <= n <= m,
    ensures
        -m <= div_floor(n, d) <= m,
{
    if d > 0 {
        lemma_div_mag(n, d);
    } else {
        lemma_div_mag(-n, -d);
    }
}

/// Scaled magnitude bound for a floor quotient: a numerator within
/// `m` times the divisor gives a quotient within `m`.
pub proof fn lemma_div_bound_by(n: int, d: int, m: int)
    requires
        0 < d,
        -(m * d) <= n <= m * d,
    ensures
        -m <= n / d <= m,
{
    lemma_div_is_ordered(n, m * d, d);
    lemma_div_is_ordered(-(m * d), n, d);
    lemma_mul_is_commutative(m, d);
    lemma_mul_is_commutative(-m, d);
    lemma_div_multiples_vanish(m, d);
    lemma_div_multiples_vanish(-m, d);
    assert(-(m * d) == (-m) * d) by (nonlinear_arith);
}

/// The magnitude of a floor quotient never exceeds the magnitude of the
/// numerator when the divisor is at least one.
pub proof fn lemma_div_mag(n: int, d: int)
    requires
        1 <= d,
    ensures
        0 <= n ==> 0 <= n / d <= n,
        n < 0 ==> n <= n / d <= 0,
{
    if 0 <= n {
        lemma_div_pos_is_pos(n, d);
        lemma_div_nonincreasing(n, d);
    } else {
        lemma_fundamental_div_mod(n, d);
        assert(n <= n / d <= 0) by (nonlinear_arith)
            requires
                1 <= d,
                n < 0,
                n == d * (n / d) + n % d,
                0 <= n % d < d,
        ;
    }
}

/// Bound on a product from bounds on its factors.
pub proof fn lemma_mul_mag(a: int, b: int, ma: int, mb: int)
    requires
        -ma <= a <= ma,
        -mb <= b <= mb,
    ensures
        -(ma * mb) <= a * b <= ma * mb,
{
    assert(-(ma * mb) <= a * b <= ma * mb) by (nonlinear_arith)
        requires
            -ma <= a <= ma,
            -mb <= b <= mb,
    ;
}

/// A weighted average with non-negative weights stays between the bounds of
/// its two operands, floor division included.
pub proof fn lemma_blend_mag(a: int, b: int, wa: int, wb: int, m: int)
    requires
        -m <= a <= m,
        -m <= b <= m,
        0 <= wa,
        0 <= wb,
        0 < wa + wb,
    ensures
        -m <= (a * wa + b * wb) / (wa + wb) <= m,
{
    let w = wa + wb;
    assert(a * wa + b * wb <= m * w && -(m * w) <= a * wa + b * wb) by (nonlinear_arith)
        requires
            -m <= a <= m,
            -m <= b <= m,
            0 <= wa,
            0 <= wb,
            w == wa + wb,
    ;
    lemma_div_is_ordered(a * wa + b * wb, m * w, w);
    lemma_div_is_ordered(-(m * w), a * wa + b * wb, w);
    lemma_mul_is_commutative(m, w);
    lemma_mul_is_commutative(-m, w);
    lemma_div_multiples_vanish(m, w);
    lemma_div_multiples_vanish(-m, w);
    assert(-(m * w) == (-m) * w) by (nonlinear_arith);
}

/// A parameter remap `(t*d)/s` stays within `[0, d]` while `t` stays
/// within `[0, s]`.
pub proof fn lemma_remap_range(t: int, d: int, s: int)
    requires
        0 <= t <= s,
        0 < s,
        0 <= d,
    ensures
        0 <= (t * d) / s <= d,
{
    assert(0 <= t * d && t * d <= s * d) by (nonlinear_arith)
        requires
            0 <= t <= s,
            0 <= d,
    ;
    lemma_div_is_ordered(t * d, s * d, s);
    lemma_mul_is_commutative(s, d);
    lemma_div_multiples_vanish(d, s);
    lemma_div_pos_is_pos(t * d, s);
}

/// Dividing an exact multiple returns the multiplier: the identity behind
/// every "interpolation at an endpoint is exact" law of the evaluators.
pub proof fn lemma_div_exact(x: int, d: int)
    requires
        0 < d,
    ensures
        (x * d) / d == x,
{
    lemma_div_multiples_vanish(x, d);
    lemma_mul_is_commutative(x, d);
}

} // verus!
