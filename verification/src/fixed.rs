//! Fixed-point scalar arithmetic for the simulation core.
//!
//! A raw `i64` counts thousandths of a world unit ([`SCALE`] raw units per
//! world unit), so every quantity is an exact integer.  Additions that could
//! run away saturate at [`LIMIT`], divisions come in the two roundings the
//! core needs (toward zero and toward negative infinity), and an exact
//! integer square root supports vector-magnitude clamping.

use vstd::prelude::*;
use vstd::arithmetic::div_mod::{
    lemma_fundamental_div_mod, lemma_fundamental_div_mod_converse_div,
    lemma_mod_division_less_than_divisor, lemma_div_pos_is_pos,
};

verus! {

/// Raw units per world unit: values are stored in thousandths.
pub const SCALE: i64 = 1000;

/// Largest raw magnitude any stored quantity may take; sums saturate here.
pub const LIMIT: i64 = 1_000_000_000_000_000;

/// Magnitude of an integer.
pub open spec fn mag(a: int) -> int {
    if a >= 0 {
        a
    } else {
        -a
    }
}

/// Saturation of a value into `[-LIMIT, LIMIT]`.
pub open spec fn sat(v: int) -> int {
    if v > LIMIT {
        LIMIT as int
    } else if v < -(LIMIT as int) {
        -(LIMIT as int)
    } else {
        v
    }
}

/// Division rounding toward zero (the rounding of vector scaling), for a
/// positive divisor.
pub open spec fn tdiv(a: int, b: int) -> int
    recommends
        0 < b,
{
    if a >= 0 {
        a / b
    } else {
        -((-a) / b)
    }
}

/// Saturating addition on raw values.
pub fn sat_add(a: i64, b: i64) -> (r: i64)
    ensures
        r as int == sat(a + b),
{
    let s: i128 = (a as i128) + (b as i128);
    sat_narrow(s)
}

/// Saturation of a wide intermediate value back into a raw `i64`.
pub fn sat_narrow(v: i128) -> (r: i64)
    ensures
        r as int == sat(v as int),
{
    if v > (LIMIT as i128) {
        LIMIT
    } else if v < -(LIMIT as i128) {
        -LIMIT
    } else {
        v as i64
    }
}

/// Quotient rounded toward zero; magnitudes only shrink under it.
pub fn tdiv_wide(a: i128, b: i128) -> (r: i128)
    requires
        0 < b,
        i128::MIN < a,
    ensures
        r == tdiv(a as int, b as int),
{
    if a >= 0 {
        let q: u128 = (a as u128) / (b as u128);
        proof {
            lemma_div_pos_is_pos(a as int, b as int);
            lemma_div_nonincreasing_nat(a as int, b as int);
        }
        q as i128
    } else {
        let m: i128 = -a;
        let q: u128 = (m as u128) / (b as u128);
        proof {
            lemma_div_pos_is_pos(m as int, b as int);
            lemma_div_nonincreasing_nat(m as int, b as int);
        }
        -(q as i128)
    }
}

pub proof fn lemma_div_nonincreasing_nat(a: int, b: int)
    requires
        0 <= a,
        0 < b,
    ensures
        0 <= a / b <= a,
{
    lemma_div_pos_is_pos(a, b);
    lemma_fundamental_div_mod(a, b);
    lemma_mod_division_less_than_divisor(a, b);
    assert(a == b * (a / b) + a % b);
    assert(b * (a / b) >= 1 * (a / b)) by (nonlinear_arith)
        requires
            1 <= b,
            0 <= a / b,
    ;
}

/// The truncated quotient, multiplied back, never overshoots the dividend.
pub proof fn lemma_tdiv_mag(a: int, b: int)
    requires
        0 < b,
    ensures
        mag(tdiv(a, b)) * b <= mag(a),
        mag(tdiv(a, b)) <= mag(a),
{
    if a >= 0 {
        lemma_div_pos_is_pos(a, b);
        lemma_fundamental_div_mod(a, b);
        lemma_mod_division_less_than_divisor(a, b);
        assert(a == b * (a / b) + a % b);
        assert((a / b) * b == b * (a / b)) by (nonlinear_arith);
        assert(b * (a / b) >= 1 * (a / b)) by (nonlinear_arith)
            requires
                1 <= b,
                0 <= a / b,
        ;
    } else {
        let m = -a;
        lemma_div_pos_is_pos(m, b);
        lemma_fundamental_div_mod(m, b);
        lemma_mod_division_less_than_divisor(m, b);
        assert(m == b * (m / b) + m % b);
        assert((m / b) * b == b * (m / b)) by (nonlinear_arith);
        assert(b * (m / b) >= 1 * (m / b)) by (nonlinear_arith)
            requires
                1 <= b,
                0 <= m / b,
        ;
    }
}

/// Quotient rounded toward negative infinity (the rounding of grid mapping
/// and of the field's decay arithmetic); agrees with `int` division.
pub fn floor_div_wide(a: i128, b: i128) -> (r: i128)
    requires
        0 < b,
        i128::MIN < a,
    ensures
        r == a as int / b as int,
{
    let q: i128 = tdiv_wide(a, b);
    proof {
        lemma_tdiv_mag(a as int, b as int);
        assert(-mag(a as int) <= (q as int) * (b as int) <= mag(a as int)) by (nonlinear_arith)
            requires
                0 < b as int,
                q as int == tdiv(a as int, b as int),
                mag(tdiv(a as int, b as int)) * (b as int) <= mag(a as int),
        ;
    }
    if a < 0 && q * b != a {
        proof {
            let m = -(a as int);
            lemma_fundamental_div_mod(m, b as int);
            lemma_mod_division_less_than_divisor(m, b as int);
            let u = m / (b as int);
            let s = m % (b as int);
            assert(m == (b as int) * u + s);
            assert(s != 0) by {
                if s == 0 {
                    assert((-u) * (b as int) == -((b as int) * u)) by (nonlinear_arith);
                    assert(q * b == a);
                }
            }
            assert(a as int == (-u - 1) * (b as int) + ((b as int) - s)) by (nonlinear_arith)
                requires
                    m == (b as int) * u + s,
                    m == -(a as int),
            ;
            lemma_fundamental_div_mod_converse_div(a as int, b as int, -u - 1, (b as int) - s);
        }
        q - 1
    } else {
        proof {
            if a < 0 {
                let m = -(a as int);
                lemma_fundamental_div_mod(m, b as int);
                lemma_mod_division_less_than_divisor(m, b as int);
                let u = m / (b as int);
                let s = m % (b as int);
                assert(s == 0) by {
                    if s != 0 {
                        assert(q * b != a) by (nonlinear_arith)
                            requires
                                m == (b as int) * u + s,
                                m == -(a as int),
                                q == -u,
                                0 < s < b,
                        ;
                    }
                }
                assert(a as int == (-u) * (b as int) + 0) by (nonlinear_arith)
                    requires
                        m == (b as int) * u + s,
                        m == -(a as int),
                        s == 0,
                ;
                lemma_fundamental_div_mod_converse_div(a as int, b as int, -u, 0);
            }
        }
        q
    }
}

/// A quotient by a positive divisor lies between the dividend and zero.
pub proof fn lemma_floor_div_bounds(a: int, b: int)
    requires
        0 < b,
    ensures
        a >= 0 ==> 0 <= a / b <= a,
        a < 0 ==> a <= a / b <= 0,
{
    if a >= 0 {
        lemma_div_nonincreasing_nat(a, b);
    } else {
        lemma_fundamental_div_mod(a, b);
        lemma_mod_division_less_than_divisor(a, b);
        let q = a / b;
        let s = a % b;
        assert(a <= q && q <= 0) by (nonlinear_arith)
            requires
                a < 0,
                1 <= b,
                a == b * q + s,
                0 <= s < b,
        ;
    }
}

/// Floor division on raw values.
pub fn floor_div(a: i64, b: i64) -> (r: i64)
    requires
        0 < b,
    ensures
        r as int == a as int / b as int,
{
    let q: i128 = floor_div_wide(a as i128, b as i128);
    proof {
        lemma_floor_div_bounds(a as int, b as int);
    }
    q as i64
}

/// `l` is the integer square root of `n`, rounded up.
pub open spec fn is_ceil_sqrt(n: int, l: int) -> bool {
    0 <= l && n <= l * l && (l == 0 || (l - 1) * (l - 1) < n)
}

/// The integer square root of `n`, rounded up (well defined: see
/// [`lemma_ceil_sqrt_unique`]).
pub open spec fn ceil_sqrt(n: int) -> int {
    choose|l: int| is_ceil_sqrt(n, l)
}

pub proof fn lemma_ceil_sqrt_unique(n: int, l1: int, l2: int)
    requires
        is_ceil_sqrt(n, l1),
        is_ceil_sqrt(n, l2),
    ensures
        l1 == l2,
{
    if l1 < l2 {
        assert(false) by (nonlinear_arith)
            requires
                0 <= l1 < l2,
                n <= l1 * l1,
                (l2 - 1) * (l2 - 1) < n,
        ;
    }
    if l2 < l1 {
        assert(false) by (nonlinear_arith)
            requires
                0 <= l2 < l1,
                n <= l2 * l2,
                (l1 - 1) * (l1 - 1) < n,
        ;
    }
}

pub proof fn lemma_ceil_sqrt_is(n: int, l: int)
    requires
        is_ceil_sqrt(n, l),
    ensures
        ceil_sqrt(n) == l,
{
    let picked = choose|c: int| is_ceil_sqrt(n, c);
    assert(is_ceil_sqrt(n, picked));
    lemma_ceil_sqrt_unique(n, picked, l);
}

/// Integer square root, rounded down, by binary search.
pub fn isqrt(n: u128) -> (r: u128)
    requires
        (n as int) < 0x4000_0000_0000_0000_0000_0000_0000_0000,
    ensures
        r * r <= n,
        n < (r + 1) * (r + 1),
{
    let mut lo: u128 = 0;
    let mut hi: u128 = 0x8000_0000_0000_0000;
    proof {
        assert(0x8000_0000_0000_0000int * 0x8000_0000_0000_0000int
            == 0x4000_0000_0000_0000_0000_0000_0000_0000) by (nonlinear_arith);
    }
    while hi - lo > 1
        invariant
            lo < hi,
            hi <= 0x8000_0000_0000_0000,
            (lo as int) * (lo as int) <= n as int,
            (n as int) < (hi as int) * (hi as int),
        decreases hi - lo,
    {
        let mid: u128 = lo + (hi - lo) / 2;
        if mid <= n / mid {
            proof {
                lemma_le_div_implies_sq_le(n as int, mid as int);
            }
            lo = mid;
        } else {
            proof {
                lemma_gt_div_implies_sq_gt(n as int, mid as int);
            }
            hi = mid;
        }
    }
    lo
}

proof fn lemma_le_div_implies_sq_le(n: int, m: int)
    requires
        0 < m,
        0 <= n,
        m <= n / m,
    ensures
        m * m <= n,
{
    lemma_fundamental_div_mod(n, m);
    lemma_mod_division_less_than_divisor(n, m);
    assert(m * m <= m * (n / m)) by (nonlinear_arith)
        requires
            0 < m,
            m <= n / m,
    ;
}

proof fn lemma_gt_div_implies_sq_gt(n: int, m: int)
    requires
        0 < m,
        0 <= n,
        m > n / m,
    ensures
        n < m * m,
{
    lemma_fundamental_div_mod(n, m);
    lemma_mod_division_less_than_divisor(n, m);
    assert(m * (n / m) + m > n ==> m * m > n) by (nonlinear_arith)
        requires
            0 < m,
            m > n / m,
            n == m * (n / m) + n % m,
            0 <= n % m < m,
    ;
}

/// Integer square root, rounded up.
pub fn isqrt_ceil(n: u128) -> (r: u128)
    requires
        (n as int) < 0x4000_0000_0000_0000_0000_0000_0000_0000,
    ensures
        is_ceil_sqrt(n as int, r as int),
        r as int == ceil_sqrt(n as int),
        r <= 0x8000_0000_0000_0000,
{
    let s: u128 = isqrt(n);
    proof {
        assert((s as int) < 0x8000_0000_0000_0000) by (nonlinear_arith)
            requires
                (s as int) * (s as int) <= n as int,
                (n as int) < 0x4000_0000_0000_0000_0000_0000_0000_0000,
        ;
    }
    let r: u128 = if s * s == n {
        proof {
            if s >= 1 {
                assert(((s as int) - 1) * ((s as int) - 1) < (s as int) * (s as int))
                    by (nonlinear_arith)
                    requires
                        1 <= s as int,
                ;
            }
        }
        s
    } else {
        proof {
            assert((s as int) * (s as int) < n as int);
        }
        s + 1
    };
    proof {
        assert(is_ceil_sqrt(n as int, r as int));
        lemma_ceil_sqrt_is(n as int, r as int);
    }
    r
}

} // verus!
