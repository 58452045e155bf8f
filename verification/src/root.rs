//! Integer n-th roots.
//!
//! The centripetal parameterization raises a chord length to a fractional
//! exponent `num/den`. In fixed point that value is the floor of the
//! `den`-th root of an integer, so this module defines that root
//! ([`root_floor`]), proves it exists and is unique, and computes it by
//! binary search ([`nth_root`]).

use vstd::prelude::*;
use vstd::arithmetic::power::{
    pow, lemma_pow0, lemma0_pow, lemma_pow_adds, lemma_pow_positive,
};
use vstd::arithmetic::div_mod::lemma_fundamental_div_mod;

verus! {

/// The floor of the `n`-th root of `v`: the unique `r >= 0` with
/// `r^n <= v < (r+1)^n`.
pub open spec fn root_floor(v: int, n: nat) -> int {
    choose|r: int| 0 <= r && #[trigger] pow(r, n) <= v && v < pow(r + 1, n)
}

/// A power of a non-negative base is non-negative.
pub proof fn lemma_pow_nonneg(b: int, n: nat)
    requires
        0 <= b,
    ensures
        0 <= pow(b, n),
    decreases n,
{
    reveal(pow);
    if n > 0 {
        lemma_pow_nonneg(b, (n - 1) as nat);
        assert(0 <= b * pow(b, (n - 1) as nat)) by (nonlinear_arith)
            requires
                0 <= b,
                0 <= pow(b, (n - 1) as nat),
        ;
    }
}

/// A power of a base of at least one is at least the base itself.
pub proof fn lemma_pow_ge_base(b: int, n: nat)
    requires
        1 <= b,
        1 <= n,
    ensures
        b <= pow(b, n),
{
    reveal(pow);
    lemma_pow_positive(b, (n - 1) as nat);
    assert(b <= b * pow(b, (n - 1) as nat)) by (nonlinear_arith)
        requires
            1 <= b,
            1 <= pow(b, (n - 1) as nat),
    ;
}

/// Powers are monotone in a non-negative base.
pub proof fn lemma_pow_base_mono(x: int, y: int, n: nat)
    requires
        0 <= x <= y,
    ensures
        pow(x, n) <= pow(y, n),
    decreases n,
{
    reveal(pow);
    if n > 0 {
        lemma_pow_base_mono(x, y, (n - 1) as nat);
        lemma_pow_nonneg(x, (n - 1) as nat);
        assert(x * pow(x, (n - 1) as nat) <= y * pow(y, (n - 1) as nat)) by (nonlinear_arith)
            requires
                0 <= x <= y,
                0 <= pow(x, (n - 1) as nat) <= pow(y, (n - 1) as nat),
        ;
    }
}

/// Powers with a positive exponent are strictly monotone in a
/// non-negative base.
pub proof fn lemma_pow_base_strict_mono(x: int, y: int, n: nat)
    requires
        0 <= x < y,
        1 <= n,
    ensures
        pow(x, n) < pow(y, n),
{
    reveal(pow);
    lemma_pow_base_mono(x, y, (n - 1) as nat);
    lemma_pow_nonneg(x, (n - 1) as nat);
    lemma_pow_positive(y, (n - 1) as nat);
    assert(x * pow(x, (n - 1) as nat) < y * pow(y, (n - 1) as nat)) by (nonlinear_arith)
        requires
            0 <= x < y,
            0 <= pow(x, (n - 1) as nat) <= pow(y, (n - 1) as nat),
            1 <= pow(y, (n - 1) as nat),
    ;
}

/// Every non-negative integer has a floor `n`-th root.
pub proof fn lemma_root_exists(v: int, n: nat)
    requires
        0 <= v,
        1 <= n,
    ensures
        exists|r: int| 0 <= r && #[trigger] pow(r, n) <= v && v < pow(r + 1, n),
    decreases v,
{
    if v == 0 {
        lemma0_pow(n);
        vstd::arithmetic::power::lemma1_pow(n);
        assert(0 <= 0int && pow(0int, n) <= 0 && 0 < pow(0int + 1, n));
    } else {
        lemma_root_exists(v - 1, n);
        let r0 = choose|r: int| 0 <= r && #[trigger] pow(r, n) <= v - 1 && v - 1 < pow(r + 1, n);
        if pow(r0 + 1, n) <= v {
            lemma_pow_base_strict_mono(r0 + 1, r0 + 2, n);
            assert(0 <= r0 + 1 && pow(r0 + 1, n) <= v && v < pow(r0 + 1 + 1, n));
        } else {
            assert(0 <= r0 && pow(r0, n) <= v && v < pow(r0 + 1, n));
        }
    }
}

/// The floor `n`-th root is unique.
pub proof fn lemma_root_unique(v: int, n: nat, r1: int, r2: int)
    requires
        1 <= n,
        0 <= r1,
        0 <= r2,
        pow(r1, n) <= v < pow(r1 + 1, n),
        pow(r2, n) <= v < pow(r2 + 1, n),
    ensures
        r1 == r2,
{
    if r1 < r2 {
        lemma_pow_base_mono(r1 + 1, r2, n);
    }
    if r2 < r1 {
        lemma_pow_base_mono(r2 + 1, r1, n);
    }
}

/// [`root_floor`] satisfies its defining inequalities.
pub proof fn lemma_root_floor_props(v: int, n: nat)
    requires
        0 <= v,
        1 <= n,
    ensures
        0 <= root_floor(v, n),
        pow(root_floor(v, n), n) <= v,
        v < pow(root_floor(v, n) + 1, n),
{
    lemma_root_exists(v, n);
}

/// Computes `b^e` when it is at most `cap`, and otherwise reports only that
/// the power exceeds `cap`, never overflowing on the way.
pub fn pow_le(b: u128, e: u32, cap: u128) -> (r: Option<u128>)
    ensures
        match r {
            Some(p) => p as int == pow(b as int, e as nat) && p <= cap,
            None => pow(b as int, e as nat) > cap,
        },
{
    if e == 0 {
        proof {
            lemma_pow0(b as int);
        }
        if cap >= 1 {
            return Some(1);
        } else {
            return None;
        }
    }
    if b == 0 {
        proof {
            lemma0_pow(e as nat);
        }
        return Some(0);
    }
    if cap == 0 {
        proof {
            lemma_pow_positive(b as int, e as nat);
        }
        return None;
    }
    let mut acc: u128 = 1;
    let mut i: u32 = 0;
    proof {
        lemma_pow0(b as int);
    }
    while i < e
        invariant
            1 <= b,
            1 <= cap,
            i <= e,
            acc as int == pow(b as int, i as nat),
            1 <= acc <= cap,
        decreases e - i,
    {
        let q: u128 = cap / b;
        if acc <= q {
            proof {
                lemma_fundamental_div_mod(cap as int, b as int);
                assert(acc as int * b as int <= cap as int) by (nonlinear_arith)
                    requires
                        acc as int <= cap as int / b as int,
                        1 <= b as int,
                        cap as int == b as int * (cap as int / b as int) + cap as int % b as int,
                        0 <= cap as int % b as int,
                ;
                reveal(pow);
                assert(pow(b as int, (i + 1) as nat) == b as int * pow(b as int, i as nat));
                assert(b as int * acc as int == acc as int * b as int) by (nonlinear_arith);
                assert(1 <= acc as int * b as int) by (nonlinear_arith)
                    requires
                        1 <= acc as int,
                        1 <= b as int,
                ;
            }
            acc = acc * b;
            i = i + 1;
        } else {
            proof {
                lemma_fundamental_div_mod(cap as int, b as int);
                assert(acc as int * b as int > cap as int) by (nonlinear_arith)
                    requires
                        acc as int > cap as int / b as int,
                        1 <= b as int,
                        cap as int == b as int * (cap as int / b as int) + cap as int % b as int,
                        (cap as int % b as int) < b as int,
                ;
                lemma_pow_adds(b as int, i as nat, (e - i) as nat);
                lemma_pow_ge_base(b as int, (e - i) as nat);
                assert(pow(b as int, e as nat) > cap as int) by (nonlinear_arith)
                    requires
                        pow(b as int, e as nat) == pow(b as int, i as nat) * pow(
                            b as int,
                            (e - i) as nat,
                        ),
                        pow(b as int, i as nat) == acc as int,
                        1 <= acc as int,
                        b as int <= pow(b as int, (e - i) as nat),
                        acc as int * b as int > cap as int,
                        1 <= b as int,
                ;
            }
            return None;
        }
    }
    Some(acc)
}

/// Binary search for the floor `n`-th root of `v`.
pub fn nth_root(v: u128, n: u32) -> (r: u128)
    requires
        1 <= n,
        v < 0xffff_ffff_ffff_ffff_ffff_ffff_ffff_ffff,
    ensures
        r as int == root_floor(v as int, n as nat),
        pow(r as int, n as nat) <= v as int,
        (v as int) < pow(r as int + 1, n as nat),
{
    let mut lo: u128 = 0;
    let mut hi: u128 = v + 1;
    proof {
        lemma0_pow(n as nat);
        lemma_pow_ge_base(v as int + 1, n as nat);
    }
    while hi - lo > 1
        invariant
            1 <= n,
            0 <= lo < hi <= v + 1,
            pow(lo as int, n as nat) <= v as int,
            (v as int) < pow(hi as int, n as nat),
        decreases hi - lo,
    {
        let mid: u128 = lo + (hi - lo) / 2;
        match pow_le(mid, n, v) {
            Some(_) => {
                lo = mid;
            },
            None => {
                hi = mid;
            },
        }
    }
    proof {
        lemma_root_exists(v as int, n as nat);
        let rr = root_floor(v as int, n as nat);
        lemma_root_unique(v as int, n as nat, lo as int, rr);
    }
    lo
}

} // verus!
