//! Exact 2D vectors over fixed-point scalars.
//!
//! Besides componentwise arithmetic this module provides the two
//! length-sensitive operations the steering core needs: clamping a vector's
//! magnitude to a cap (never scaling up, never flipping direction) and
//! rescaling a vector to a given length ("normalize-or-zero" semantics).
//! Both are specified exactly, through the ceiling integer square root of
//! the squared norm, so callers can reason about the precise result.

use vstd::prelude::*;
use crate::fixed::{
    SCALE, LIMIT, mag, sat, tdiv, is_ceil_sqrt, ceil_sqrt, lemma_tdiv_mag, tdiv_wide, isqrt_ceil,
};

verus! {

/// Largest raw component magnitude the length-sensitive operations accept;
/// keeps every squared norm inside the integer square root's domain.
pub const COMP_MAX: i64 = 0x4000_0000_0000_0000;

#[derive(Clone, Copy, PartialEq, Eq, Structural, Debug)]
pub struct Vec2 {
    pub x: i64,
    pub y: i64,
}

pub open spec fn zero_vec() -> Vec2 {
    Vec2 { x: 0, y: 0 }
}

/// Squared Euclidean norm, as a mathematical integer.
pub open spec fn norm_sq(v: Vec2) -> int {
    (v.x as int) * (v.x as int) + (v.y as int) * (v.y as int)
}

/// Componentwise saturating sum.
pub open spec fn vadd_spec(a: Vec2, b: Vec2) -> Vec2 {
    Vec2 { x: sat(a.x + b.x) as i64, y: sat(a.y + b.y) as i64 }
}

/// Componentwise difference (exact; callers keep components small enough).
pub open spec fn vsub_spec(a: Vec2, b: Vec2) -> Vec2 {
    Vec2 { x: (a.x - b.x) as i64, y: (a.y - b.y) as i64 }
}

/// `v` scaled by the raw factor `k`, i.e. by the world quantity `k / SCALE`,
/// rounding each component toward zero.
pub open spec fn vscale_spec(v: Vec2, k: int) -> Vec2 {
    Vec2 {
        x: tdiv(v.x * k, SCALE as int) as i64,
        y: tdiv(v.y * k, SCALE as int) as i64,
    }
}

/// `v` with its magnitude clamped to `m`: unchanged while `|v| <= m`, else
/// scaled down by `m / ceil(|v|)` with rounding toward zero.
pub open spec fn clamp_mag_spec(v: Vec2, m: int) -> Vec2 {
    if norm_sq(v) <= m * m {
        v
    } else {
        let l = ceil_sqrt(norm_sq(v));
        Vec2 { x: tdiv(v.x * m, l) as i64, y: tdiv(v.y * m, l) as i64 }
    }
}

/// `v` rescaled to length (at most) `m`: the zero vector stays zero, any
/// other vector is scaled by `m / ceil(|v|)` with rounding toward zero.
pub open spec fn scale_to_spec(v: Vec2, m: int) -> Vec2 {
    if v.x == 0 && v.y == 0 {
        v
    } else {
        let l = ceil_sqrt(norm_sq(v));
        Vec2 { x: tdiv(v.x * m, l) as i64, y: tdiv(v.y * m, l) as i64 }
    }
}

/// Body-local offset `o` rotated into world space by the unit heading `h`
/// (a direction vector of norm `SCALE`, holding cosine and sine in raw form).
pub open spec fn rotate_spec(o: Vec2, h: Vec2) -> Vec2 {
    Vec2 {
        x: tdiv(o.x * h.x - o.y * h.y, SCALE as int) as i64,
        y: tdiv(o.x * h.y + o.y * h.x, SCALE as int) as i64,
    }
}

/// Scaling both components by `m / l` keeps the squared norm under `m * m`
/// whenever `l` bounds the vector's own norm, and keeps each component's
/// magnitude under `m`.
pub proof fn lemma_scaled_norm_bound(x: int, y: int, m: int, l: int)
    requires
        0 <= m,
        1 <= l,
        x * x + y * y <= l * l,
    ensures
        tdiv(x * m, l) * tdiv(x * m, l) + tdiv(y * m, l) * tdiv(y * m, l) <= m * m,
        mag(tdiv(x * m, l)) <= m,
        mag(tdiv(y * m, l)) <= m,
{
    let qx = tdiv(x * m, l);
    let qy = tdiv(y * m, l);
    lemma_tdiv_mag(x * m, l);
    lemma_tdiv_mag(y * m, l);
    assert(qx * qx * (l * l) <= (x * x) * (m * m)) by (nonlinear_arith)
        requires
            mag(qx) * l <= mag(x * m),
            qx == tdiv(x * m, l),
            1 <= l,
    ;
    assert(qy * qy * (l * l) <= (y * y) * (m * m)) by (nonlinear_arith)
        requires
            mag(qy) * l <= mag(y * m),
            qy == tdiv(y * m, l),
            1 <= l,
    ;
    assert((x * x) * (m * m) + (y * y) * (m * m) <= (l * l) * (m * m)) by (nonlinear_arith)
        requires
            x * x + y * y <= l * l,
            0 <= m,
    ;
    assert(qx * qx + qy * qy <= m * m) by (nonlinear_arith)
        requires
            qx * qx * (l * l) + qy * qy * (l * l) <= (l * l) * (m * m),
            1 <= l,
    ;
    assert(mag(qx) <= m && mag(qy) <= m) by (nonlinear_arith)
        requires
            qx * qx + qy * qy <= m * m,
            0 <= m,
    ;
}

/// Componentwise saturating addition.
pub fn vadd(a: Vec2, b: Vec2) -> (r: Vec2)
    ensures
        r == vadd_spec(a, b),
{
    let x: i64 = crate::fixed::sat_add(a.x, b.x);
    let y: i64 = crate::fixed::sat_add(a.y, b.y);
    Vec2 { x, y }
}

/// Componentwise difference.
pub fn vsub(a: Vec2, b: Vec2) -> (r: Vec2)
    requires
        i64::MIN <= a.x - b.x <= i64::MAX,
        i64::MIN <= a.y - b.y <= i64::MAX,
    ensures
        r == vsub_spec(a, b),
{
    Vec2 { x: a.x - b.x, y: a.y - b.y }
}

/// Bounds on two magnitudes bound their product.
pub proof fn lemma_mag_mul_bound(a: int, b: int, ca: int, cb: int)
    requires
        mag(a) <= ca,
        mag(b) <= cb,
    ensures
        mag(a) * mag(b) <= ca * cb,
{
    assert(mag(a) * mag(b) <= ca * cb) by (nonlinear_arith)
        requires
            0 <= mag(a) <= ca,
            0 <= mag(b) <= cb,
    ;
}

/// Scale `v` by the raw factor `k` (a world quantity times `SCALE`).
pub fn vscale(v: Vec2, k: i64) -> (r: Vec2)
    requires
        mag(v.x as int) * mag(k as int) <= 1_000_000_000_000_000_000_000,
        mag(v.y as int) * mag(k as int) <= 1_000_000_000_000_000_000_000,
    ensures
        r == vscale_spec(v, k as int),
        mag(r.x as int) <= 1_000_000_000_000_000_000,
        mag(r.y as int) <= 1_000_000_000_000_000_000,
{
    proof {
        lemma_prod_mag(v.x as int, k as int);
        lemma_prod_mag(v.y as int, k as int);
    }
    let px: i128 = (v.x as i128) * (k as i128);
    let py: i128 = (v.y as i128) * (k as i128);
    proof {
        lemma_tdiv_mag(px as int, SCALE as int);
        lemma_tdiv_mag(py as int, SCALE as int);
        assert(mag(tdiv(px as int, SCALE as int)) * (SCALE as int)
            <= 1_000_000_000_000_000_000_000
            ==> mag(tdiv(px as int, SCALE as int)) <= 1_000_000_000_000_000_000)
            by (nonlinear_arith);
        assert(mag(tdiv(py as int, SCALE as int)) * (SCALE as int)
            <= 1_000_000_000_000_000_000_000
            ==> mag(tdiv(py as int, SCALE as int)) <= 1_000_000_000_000_000_000)
            by (nonlinear_arith);
    }
    let qx: i128 = tdiv_wide(px, SCALE as i128);
    let qy: i128 = tdiv_wide(py, SCALE as i128);
    Vec2 { x: qx as i64, y: qy as i64 }
}

/// A product's magnitude is the product of the magnitudes.
pub proof fn lemma_prod_mag(a: int, b: int)
    ensures
        mag(a * b) == mag(a) * mag(b),
{
    assert(mag(a * b) == mag(a) * mag(b)) by (nonlinear_arith);
}

/// A component under `COMP_MAX` times a nonnegative raw cap stays well
/// inside the wide integer range.
proof fn lemma_cap_prod_range(x: int, m: int)
    requires
        mag(x) <= 0x4000_0000_0000_0000,
        0 <= m < 0x8000_0000_0000_0000,
    ensures
        -0x2000_0000_0000_0000_0000_0000_0000_0000 <= x * m,
        x * m <= 0x2000_0000_0000_0000_0000_0000_0000_0000,
{
    assert(-0x2000_0000_0000_0000_0000_0000_0000_0000 <= x * m
        <= 0x2000_0000_0000_0000_0000_0000_0000_0000) by (nonlinear_arith)
        requires
            mag(x) <= 0x4000_0000_0000_0000,
            0 <= m < 0x8000_0000_0000_0000,
    ;
}

/// Squared norm of a vector, computed exactly in a wide integer.
pub fn norm_sq_exec(v: Vec2) -> (r: i128)
    requires
        mag(v.x as int) <= COMP_MAX,
        mag(v.y as int) <= COMP_MAX,
    ensures
        r as int == norm_sq(v),
        0 <= r,
        (r as int) < 0x4000_0000_0000_0000_0000_0000_0000_0000,
{
    proof {
        assert(0 <= (v.x as int) * (v.x as int)
            <= 0x1000_0000_0000_0000_0000_0000_0000_0000) by (nonlinear_arith)
            requires
                mag(v.x as int) <= 0x4000_0000_0000_0000,
        ;
        assert(0 <= (v.y as int) * (v.y as int)
            <= 0x1000_0000_0000_0000_0000_0000_0000_0000) by (nonlinear_arith)
            requires
                mag(v.y as int) <= 0x4000_0000_0000_0000,
        ;
    }
    (v.x as i128) * (v.x as i128) + (v.y as i128) * (v.y as i128)
}

/// Clamp the magnitude of `v` to the cap `m`, leaving its direction (and, in
/// range, the vector itself) unchanged.
pub fn clamp_magnitude(v: Vec2, m: i64) -> (r: Vec2)
    requires
        0 <= m,
        mag(v.x as int) <= COMP_MAX,
        mag(v.y as int) <= COMP_MAX,
    ensures
        r == clamp_mag_spec(v, m as int),
        norm_sq(r) <= (m as int) * (m as int),
        norm_sq(v) <= (m as int) * (m as int) ==> r == v,
        mag(r.x as int) <= m,
        mag(r.y as int) <= m,
{
    let ns: i128 = norm_sq_exec(v);
    proof {
        assert(0 <= (m as int) * (m as int) < 0x4000_0000_0000_0000_0000_0000_0000_0000)
            by (nonlinear_arith)
            requires
                0 <= (m as int) && (m as int) < 0x8000_0000_0000_0000,
        ;
    }
    let cap: i128 = (m as i128) * (m as i128);
    if ns <= cap {
        proof {
            assert(mag(v.x as int) <= m && mag(v.y as int) <= m) by (nonlinear_arith)
                requires
                    (v.x as int) * (v.x as int) + (v.y as int) * (v.y as int)
                        <= (m as int) * (m as int),
                    0 <= m as int,
            ;
        }
        v
    } else {
        let l: u128 = isqrt_ceil(ns as u128);
        proof {
            assert(1 <= l as int) by (nonlinear_arith)
                requires
                    is_ceil_sqrt(ns as int, l as int),
                    0 < ns as int,
            ;
            lemma_scaled_norm_bound(v.x as int, v.y as int, m as int, l as int);
            lemma_prod_mag(v.x as int, m as int);
            lemma_prod_mag(v.y as int, m as int);
            lemma_cap_prod_range(v.x as int, m as int);
            lemma_cap_prod_range(v.y as int, m as int);
        }
        let qx: i128 = tdiv_wide((v.x as i128) * (m as i128), l as i128);
        let qy: i128 = tdiv_wide((v.y as i128) * (m as i128), l as i128);
        Vec2 { x: qx as i64, y: qy as i64 }
    }
}

/// Rescale `v` to length (at most) `m`; the zero vector stays zero rather
/// than failing.
pub fn scale_to(v: Vec2, m: i64) -> (r: Vec2)
    requires
        0 <= m,
        mag(v.x as int) <= COMP_MAX,
        mag(v.y as int) <= COMP_MAX,
    ensures
        r == scale_to_spec(v, m as int),
        norm_sq(r) <= (m as int) * (m as int),
        mag(r.x as int) <= m,
        mag(r.y as int) <= m,
{
    if v.x == 0 && v.y == 0 {
        v
    } else {
        let ns: i128 = norm_sq_exec(v);
        proof {
            assert(0 < ns as int) by (nonlinear_arith)
                requires
                    ns as int == (v.x as int) * (v.x as int) + (v.y as int) * (v.y as int),
                    !(v.x == 0 && v.y == 0),
            ;
        }
        let l: u128 = isqrt_ceil(ns as u128);
        proof {
            assert(1 <= l as int) by (nonlinear_arith)
                requires
                    is_ceil_sqrt(ns as int, l as int),
                    0 < ns as int,
            ;
            lemma_scaled_norm_bound(v.x as int, v.y as int, m as int, l as int);
            lemma_prod_mag(v.x as int, m as int);
            lemma_prod_mag(v.y as int, m as int);
            lemma_cap_prod_range(v.x as int, m as int);
            lemma_cap_prod_range(v.y as int, m as int);
        }
        let qx: i128 = tdiv_wide((v.x as i128) * (m as i128), l as i128);
        let qy: i128 = tdiv_wide((v.y as i128) * (m as i128), l as i128);
        Vec2 { x: qx as i64, y: qy as i64 }
    }
}

/// Rotate the body-local offset `o` by the heading direction `h`.
pub fn rotate(o: Vec2, h: Vec2) -> (r: Vec2)
    requires
        mag(o.x as int) <= LIMIT,
        mag(o.y as int) <= LIMIT,
        mag(h.x as int) <= SCALE,
        mag(h.y as int) <= SCALE,
    ensures
        r == rotate_spec(o, h),
        mag(r.x as int) <= 2 * LIMIT,
        mag(r.y as int) <= 2 * LIMIT,
{
    proof {
        lemma_prod_mag(o.x as int, h.x as int);
        lemma_prod_mag(o.y as int, h.y as int);
        lemma_prod_mag(o.x as int, h.y as int);
        lemma_prod_mag(o.y as int, h.x as int);
        assert(mag(o.x as int) * mag(h.x as int) <= LIMIT * SCALE) by (nonlinear_arith)
            requires
                mag(o.x as int) <= LIMIT as int,
                mag(h.x as int) <= SCALE as int,
                0 <= mag(o.x as int),
                0 <= mag(h.x as int),
        ;
        assert(mag(o.y as int) * mag(h.y as int) <= LIMIT * SCALE) by (nonlinear_arith)
            requires
                mag(o.y as int) <= LIMIT as int,
                mag(h.y as int) <= SCALE as int,
                0 <= mag(o.y as int),
                0 <= mag(h.y as int),
        ;
        assert(mag(o.x as int) * mag(h.y as int) <= LIMIT * SCALE) by (nonlinear_arith)
            requires
                mag(o.x as int) <= LIMIT as int,
                mag(h.y as int) <= SCALE as int,
                0 <= mag(o.x as int),
                0 <= mag(h.y as int),
        ;
        assert(mag(o.y as int) * mag(h.x as int) <= LIMIT * SCALE) by (nonlinear_arith)
            requires
                mag(o.y as int) <= LIMIT as int,
                mag(h.x as int) <= SCALE as int,
                0 <= mag(o.y as int),
                0 <= mag(h.x as int),
        ;
    }
    let nx: i128 = (o.x as i128) * (h.x as i128) - (o.y as i128) * (h.y as i128);
    let ny: i128 = (o.x as i128) * (h.y as i128) + (o.y as i128) * (h.x as i128);
    proof {
        lemma_tdiv_mag(nx as int, SCALE as int);
        lemma_tdiv_mag(ny as int, SCALE as int);
        assert(mag(tdiv(nx as int, SCALE as int)) * (SCALE as int) <= 2 * LIMIT * SCALE
            ==> mag(tdiv(nx as int, SCALE as int)) <= 2 * LIMIT) by (nonlinear_arith);
        assert(mag(tdiv(ny as int, SCALE as int)) * (SCALE as int) <= 2 * LIMIT * SCALE
            ==> mag(tdiv(ny as int, SCALE as int)) <= 2 * LIMIT) by (nonlinear_arith);
    }
    let qx: i128 = tdiv_wide(nx, SCALE as i128);
    let qy: i128 = tdiv_wide(ny, SCALE as i128);
    Vec2 { x: qx as i64, y: qy as i64 }
}

} // verus!
