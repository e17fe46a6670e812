//! Library-wide laws relating the field operations to each other.
//!
//! Each proof function here states a property of the field model that spans
//! more than one operation: what a deposit does to a later sample, that
//! out-of-grid points can never disturb the grid, and how one update pass
//! bounds every cell.

use vstd::prelude::*;
use vstd::arithmetic::div_mod::{
    lemma_div_pos_is_pos, lemma_div_is_ordered, lemma_div_multiples_vanish,
};
use crate::fixed::{
    SCALE, LIMIT, sat, tdiv, is_ceil_sqrt, ceil_sqrt, lemma_ceil_sqrt_is,
    lemma_div_nonincreasing_nat,
};
use crate::vec2::{
    Vec2, zero_vec, norm_sq, vadd_spec, vsub_spec, vscale_spec, clamp_mag_spec, scale_to_spec,
};
use crate::pheromone::{
    PheromoneLayer, DepositMode, cell_at, nb_term, nb_sum, nb_count, nb_mean, decay_step,
    diffused_cell, diffused_values, lemma_grid_index_bound, lemma_row_col,
};
use crate::physics::{Ant, Target, DT_LIMIT};
use crate::sim::{steered_accel, ticked_ant};

verus! {

/// Deposit/sample round trip: in an accumulating layer, a deposit of `a` at
/// an in-grid point raises the sample there by exactly `a` whenever the
/// raised intensity stays inside the stored range, and saturates to that
/// range otherwise.  `post` is the layer the deposit operation leaves
/// behind.
pub proof fn lemma_deposit_sample_round_trip(
    pre: PheromoneLayer, post: PheromoneLayer, p: Vec2, a: i64,
)
    requires
        pre.wf(),
        pre.mode == DepositMode::Accumulate,
        pre.point_in_grid(p),
        post.width == pre.width,
        post.height == pre.height,
        post.cell_size == pre.cell_size,
        post.mode == pre.mode,
        post.values@ == pre.deposit_values_spec(p, a),
    ensures
        post.sample_spec(p) as int == sat(pre.sample_spec(p) + a),
        -(LIMIT as int) <= pre.sample_spec(p) + a <= LIMIT ==> post.sample_spec(p)
            == pre.sample_spec(p) + a,
{
    lemma_grid_index_bound(
        pre.width as int, pre.height as int, pre.cell_x_of(p), pre.cell_y_of(p),
    );
    assert(post.sample_spec(p) as int == sat(pre.sample_spec(p) + a));
}

/// Out-of-bounds invariance: a point mapping outside the grid samples as
/// zero and a deposit there leaves every cell exactly as it was.
pub proof fn lemma_out_of_bounds_invariance(pre: PheromoneLayer, p: Vec2, a: i64)
    requires
        pre.wf(),
        !pre.point_in_grid(p),
    ensures
        pre.sample_spec(p) == 0,
        pre.deposit_values_spec(p, a) == pre.values@,
{
}

/// A peak cell: positive itself, with every other in-bounds neighbor zero.
pub open spec fn isolated_peak(s: Seq<i64>, w: int, h: int, x: int, y: int) -> bool {
    &&& cell_at(s, w, x, y) > 0
    &&& nb_term(s, w, h, x, y, -1, -1) == 0
    &&& nb_term(s, w, h, x, y, 0, -1) == 0
    &&& nb_term(s, w, h, x, y, 1, -1) == 0
    &&& nb_term(s, w, h, x, y, -1, 0) == 0
    &&& nb_term(s, w, h, x, y, 1, 0) == 0
    &&& nb_term(s, w, h, x, y, -1, 1) == 0
    &&& nb_term(s, w, h, x, y, 0, 1) == 0
    &&& nb_term(s, w, h, x, y, 1, 1) == 0
}

/// One fade by a rate in `[0, 1]` never raises a nonnegative value, and a
/// strictly positive rate strictly lowers a positive one.
pub proof fn lemma_decay_step_bounds(v: int, rate: int)
    requires
        0 <= v,
        0 <= rate <= SCALE,
    ensures
        0 <= decay_step(v, rate) <= v,
        1 <= v && 1 <= rate ==> decay_step(v, rate) < v,
{
    let c = (SCALE as int) - rate;
    let prod = v * c;
    assert(0 <= prod <= v * (SCALE as int) - v * rate) by (nonlinear_arith)
        requires
            0 <= v,
            0 <= c,
            0 <= rate,
            c == (SCALE as int) - rate,
            prod == v * c,
    ;
    assert(0 <= v * rate) by (nonlinear_arith)
        requires
            0 <= v,
            0 <= rate,
    ;
    lemma_div_pos_is_pos(prod, SCALE as int);
    lemma_div_is_ordered(prod, v * (SCALE as int), SCALE as int);
    lemma_div_multiples_vanish(v, SCALE as int);
    assert(v * (SCALE as int) == (SCALE as int) * v) by (nonlinear_arith);
    assert(prod / (SCALE as int) <= v);
    if v >= 1 && rate >= 1 {
        assert(prod <= v * (SCALE as int) - v) by (nonlinear_arith)
            requires
                prod <= v * (SCALE as int) - v * rate,
                1 <= v,
                1 <= rate,
        ;
        let vs1 = v * (SCALE as int) - 1;
        lemma_div_is_ordered(prod, vs1, SCALE as int);
        assert(vs1 == (v - 1) * (SCALE as int) + ((SCALE as int) - 1)) by (nonlinear_arith)
            requires
                vs1 == v * (SCALE as int) - 1,
        ;
        vstd::arithmetic::div_mod::lemma_fundamental_div_mod_converse_div(
            vs1, SCALE as int, v - 1, (SCALE as int) - 1,
        );
        assert(prod / (SCALE as int) <= v - 1);
    }
}

/// Decay monotonicity: with both rates strictly inside `(0, 1)` and a
/// nonnegative grid, the update leaves every cell at or under the mean its
/// neighborhood offered before fading, and an isolated positive peak comes
/// out strictly below its old value.
pub proof fn lemma_decay_monotonic(
    s: Seq<i64>, w: int, h: int, x: int, y: int, diffusion_rate: int, decay: int,
)
    requires
        0 < w <= 10_000,
        0 < h <= 10_000,
        s.len() == w * h,
        forall|i: int| 0 <= i < s.len() ==> 0 <= #[trigger] s[i] <= LIMIT,
        0 <= x < w,
        0 <= y < h,
        1 <= decay <= SCALE - 1,
        1 <= diffusion_rate <= SCALE - 1,
    ensures
        diffused_cell(s, w, h, x, y, diffusion_rate, decay) <= nb_mean(s, w, h, x, y),
        isolated_peak(s, w, h, x, y) ==> diffused_cell(s, w, h, x, y, diffusion_rate, decay)
            < cell_at(s, w, x, y),
{
    lemma_grid_index_bound(w, h, x, y);
    lemma_nb_parts_nonneg(s, w, h, x, y);
    let sum = nb_sum(s, w, h, x, y);
    let cnt = nb_count(w, h, x, y);
    let mean = nb_mean(s, w, h, x, y);
    lemma_div_pos_is_pos(sum, cnt);
    lemma_decay_step_bounds(mean, decay);
    lemma_decay_step_bounds(decay_step(mean, decay), diffusion_rate);
    if isolated_peak(s, w, h, x, y) {
        let v = cell_at(s, w, x, y);
        assert(sum == v);
        lemma_div_nonincreasing_nat(sum, cnt);
        assert(mean <= v);
        if mean == v {
            assert(decay_step(mean, decay) < v);
        } else {
            assert(decay_step(decay_step(mean, decay), diffusion_rate) <= mean < v);
        }
    }
}

/// Every neighborhood term of a nonnegative grid is nonnegative, so the
/// neighborhood sum is, and the count is at least one (the cell itself).
proof fn lemma_nb_parts_nonneg(s: Seq<i64>, w: int, h: int, x: int, y: int)
    requires
        0 < w <= 10_000,
        0 < h <= 10_000,
        s.len() == w * h,
        forall|i: int| 0 <= i < s.len() ==> 0 <= #[trigger] s[i] <= LIMIT,
        0 <= x < w,
        0 <= y < h,
    ensures
        0 <= nb_sum(s, w, h, x, y),
        1 <= nb_count(w, h, x, y) <= 9,
{
    lemma_nb_term_nonneg(s, w, h, x, y, -1, -1);
    lemma_nb_term_nonneg(s, w, h, x, y, 0, -1);
    lemma_nb_term_nonneg(s, w, h, x, y, 1, -1);
    lemma_nb_term_nonneg(s, w, h, x, y, -1, 0);
    lemma_nb_term_nonneg(s, w, h, x, y, 0, 0);
    lemma_nb_term_nonneg(s, w, h, x, y, 1, 0);
    lemma_nb_term_nonneg(s, w, h, x, y, -1, 1);
    lemma_nb_term_nonneg(s, w, h, x, y, 0, 1);
    lemma_nb_term_nonneg(s, w, h, x, y, 1, 1);
}

proof fn lemma_nb_term_nonneg(s: Seq<i64>, w: int, h: int, x: int, y: int, dx: int, dy: int)
    requires
        0 < w <= 10_000,
        0 < h <= 10_000,
        s.len() == w * h,
        forall|i: int| 0 <= i < s.len() ==> 0 <= #[trigger] s[i] <= LIMIT,
        0 <= x < w,
        0 <= y < h,
        -1 <= dx <= 1,
        -1 <= dy <= 1,
    ensures
        0 <= nb_term(s, w, h, x, y, dx, dy) <= LIMIT,
{
    if 0 <= x + dx < w && 0 <= y + dy < h {
        lemma_grid_index_bound(w, h, x + dx, y + dy);
    }
}

/// The ceiling square root of a perfect square is its root.
pub proof fn lemma_ceil_sqrt_of_square(d: int)
    requires
        1 <= d,
    ensures
        ceil_sqrt(d * d) == d,
{
    assert(is_ceil_sqrt(d * d, d)) by (nonlinear_arith)
        requires
            1 <= d,
    ;
    lemma_ceil_sqrt_is(d * d, d);
}

/// Rescaling a forward-pointing axis vector to length `m` is exact.
pub proof fn lemma_axis_scale_to(v: Vec2, m: i64)
    requires
        v.y == 0,
        1 <= v.x,
        0 <= m,
    ensures
        scale_to_spec(v, m as int) == (Vec2 { x: m, y: 0 }),
{
    let d = v.x as int;
    assert(norm_sq(v) == d * d);
    lemma_ceil_sqrt_of_square(d);
    lemma_div_multiples_vanish(m as int, d);
    assert(0 <= d * (m as int)) by (nonlinear_arith)
        requires
            1 <= d,
            0 <= m as int,
    ;
    assert(d * (m as int) == (v.x as int) * (m as int));
    assert(tdiv((v.x as int) * (m as int), d) == m as int);
    assert(tdiv(0 * (m as int), d) == 0);
}

/// Clamping a forward-pointing axis vector caps its single component.
pub proof fn lemma_axis_clamp(v: Vec2, m: i64)
    requires
        v.y == 0,
        0 <= v.x,
        0 <= m,
    ensures
        clamp_mag_spec(v, m as int) == (Vec2 {
            x: if v.x <= m {
                v.x
            } else {
                m
            },
            y: 0,
        }),
{
    let d = v.x as int;
    assert(norm_sq(v) == d * d);
    if v.x <= m {
        assert(d * d <= (m as int) * (m as int)) by (nonlinear_arith)
            requires
                0 <= d <= m as int,
        ;
    } else {
        assert(d * d > (m as int) * (m as int)) by (nonlinear_arith)
            requires
                0 <= m as int,
                (m as int) < d,
        ;
        lemma_ceil_sqrt_of_square(d);
        lemma_div_multiples_vanish(m as int, d);
        assert(0 <= d * (m as int)) by (nonlinear_arith)
            requires
                1 <= d,
                0 <= m as int,
        ;
        assert(tdiv((v.x as int) * (m as int), d) == m as int);
        assert(tdiv(0 * (m as int), d) == 0);
    }
}

/// In a well-formed all-zero field every point samples as zero.
pub proof fn lemma_zero_field_samples_zero(field: PheromoneLayer, p: Vec2)
    requires
        field.wf(),
        forall|i: int| 0 <= i < field.values@.len() ==> #[trigger] field.values@[i] == 0i64,
    ensures
        field.sample_spec(p) == 0,
{
    if field.point_in_grid(p) {
        lemma_grid_index_bound(
            field.width as int, field.height as int, field.cell_x_of(p), field.cell_y_of(p),
        );
    }
}

/// Scaling a nonnegative rate by a time step of at least one second does
/// not shrink it, and a scaled speed within the distance budget does not
/// overshoot it.
pub proof fn lemma_step_bounds(f: int, dt: int, cap: int, dist: int)
    requires
        0 <= f <= cap,
        SCALE <= dt,
        0 <= cap,
        cap * dt <= dist * (SCALE as int),
    ensures
        f <= tdiv(f * dt, SCALE as int) <= dist,
{
    assert(0 <= f * dt) by (nonlinear_arith)
        requires
            0 <= f,
            0 < dt,
    ;
    assert(f * (SCALE as int) <= f * dt) by (nonlinear_arith)
        requires
            0 <= f,
            SCALE as int <= dt,
    ;
    assert(f * dt <= cap * dt) by (nonlinear_arith)
        requires
            f <= cap,
            0 < dt,
    ;
    lemma_div_is_ordered(f * (SCALE as int), f * dt, SCALE as int);
    lemma_div_is_ordered(f * dt, dist * (SCALE as int), SCALE as int);
    lemma_div_multiples_vanish(f, SCALE as int);
    lemma_div_multiples_vanish(dist, SCALE as int);
    assert(f * (SCALE as int) == (SCALE as int) * f) by (nonlinear_arith);
    assert(dist * (SCALE as int) == (SCALE as int) * dist) by (nonlinear_arith);
}

/// Seek convergence along an axis: an agent whose target sits straight
/// ahead on its own row, moving (or at rest) along that row over a zero
/// field with no other steering input, strictly closes the distance each
/// tick without ever overshooting, and stays in the same axis-aligned shape
/// so the argument applies tick after tick.  The time step must be at least
/// one second of raw time and small enough that a full-speed move stays
/// within the remaining distance.
pub proof fn lemma_seek_progress(a: Ant, field: PheromoneLayer, dt: i64, tgt: Vec2)
    requires
        a.wf(),
        field.wf(),
        forall|i: int| 0 <= i < field.values@.len() ==> #[trigger] field.values@[i] == 0i64,
        a.target == Some(Target(tgt)),
        a.physics.acceleration.0 == zero_vec(),
        a.physics.velocity.0.y == 0,
        0 <= a.physics.velocity.0.x <= a.physics.max_speed.0,
        tgt.y == a.position.y,
        a.position.x < tgt.x,
        SCALE <= dt <= DT_LIMIT,
        (a.physics.max_speed.0 as int) * (dt as int)
            <= (tgt.x - a.position.x) * (SCALE as int),
    ensures
        ticked_ant(a, field, dt as int).wf(),
        ticked_ant(a, field, dt as int).position.y == a.position.y,
        a.position.x < ticked_ant(a, field, dt as int).position.x,
        ticked_ant(a, field, dt as int).position.x <= tgt.x,
        ticked_ant(a, field, dt as int).physics.velocity.0.y == 0,
        0 < ticked_ant(a, field, dt as int).physics.velocity.0.x
            <= a.physics.max_speed.0,
{
    let ms = a.physics.max_speed.0;
    let mf = a.physics.max_force.0;
    let vx = a.physics.velocity.0.x;
    let pos = a.position;
    let dist = tgt.x - pos.x;
    lemma_zero_field_samples_zero(field, a.left_sample_point());
    lemma_zero_field_samples_zero(field, a.right_sample_point());
    lemma_axis_clamp(Vec2 { x: 0, y: 0 }, mf);
    assert(a.tropotaxis_steer_spec(field) == zero_vec());
    assert(vadd_spec(a.physics.acceleration.0, zero_vec()) == zero_vec());
    let d = vsub_spec(tgt, pos);
    assert(d == (Vec2 { x: (tgt.x - pos.x) as i64, y: 0 }));
    lemma_axis_scale_to(d, ms);
    let f0 = vsub_spec(scale_to_spec(d, ms as int), a.physics.velocity.0);
    assert(f0 == (Vec2 { x: (ms - vx) as i64, y: 0 }));
    lemma_axis_clamp(f0, mf);
    let fx: i64 = if (ms - vx) as i64 <= mf {
        (ms - vx) as i64
    } else {
        mf
    };
    assert(a.seek_steer_spec(tgt) == (Vec2 { x: fx, y: 0 }));
    let acc = steered_accel(a, field);
    assert(acc == (Vec2 { x: fx, y: 0 }));
    lemma_step_bounds(fx as int, dt as int, ms as int, dist as int);
    let g = tdiv((fx as int) * (dt as int), SCALE as int);
    assert(vscale_spec(acc, dt as int) == (Vec2 { x: g as i64, y: 0 })) by {
        assert(tdiv(0 * (dt as int), SCALE as int) == 0);
    }
    let wsum = vadd_spec(a.physics.velocity.0, vscale_spec(acc, dt as int));
    assert(wsum.y == 0);
    assert(wsum.x as int == sat(vx + g));
    assert(vx <= wsum.x as int <= vx + g);
    let vel = clamp_mag_spec(wsum, ms as int);
    lemma_axis_clamp(wsum, ms);
    let u: i64 = if wsum.x <= ms {
        wsum.x
    } else {
        ms
    };
    assert(vel == (Vec2 { x: u, y: 0 }));
    assert(1 <= fx || 1 <= vx) by {
        if vx == 0 {
            assert(1 <= ms && 1 <= mf);
        }
    }
    assert(1 <= u <= ms);
    lemma_step_bounds(u as int, dt as int, ms as int, dist as int);
    let step = tdiv((u as int) * (dt as int), SCALE as int);
    assert(vscale_spec(vel, dt as int) == (Vec2 { x: step as i64, y: 0 })) by {
        assert(tdiv(0 * (dt as int), SCALE as int) == 0);
    }
    let newpos = vadd_spec(pos, vscale_spec(vel, dt as int));
    assert(newpos.y == pos.y);
    assert(newpos.x as int == sat(pos.x + step));
    assert(pos.x + step <= tgt.x as int);
    assert(ticked_ant(a, field, dt as int).physics.velocity.0 == vel);
    assert(ticked_ant(a, field, dt as int).position == newpos);
    assert(norm_sq(vel) <= (ms as int) * (ms as int)) by (nonlinear_arith)
        requires
            norm_sq(vel) == (u as int) * (u as int),
            0 <= u <= ms,
    ;
    if norm_sq(vel) > crate::physics::HEADING_EPS_SQ {
        lemma_axis_scale_to(vel, SCALE);
    }
    assert(ticked_ant(a, field, dt as int).wf());
}

/// Sum of the first `k` cells of a grid.
pub open spec fn prefix_sum(s: Seq<i64>, k: int) -> int
    decreases k,
{
    if k <= 0 {
        0
    } else {
        prefix_sum(s, k - 1) + s[k - 1]
    }
}

/// Total intensity held in a grid.
pub open spec fn grid_total(s: Seq<i64>) -> int {
    prefix_sum(s, s.len() as int)
}

/// `v` clipped into `[0, n]`.
pub open spec fn clip(v: int, n: int) -> int {
    if v < 0 {
        0
    } else if v > n {
        n
    } else {
        v
    }
}

proof fn lemma_prefix_sum_mono(s: Seq<i64>, k1: int, k2: int)
    requires
        forall|i: int| 0 <= i < s.len() ==> 0 <= #[trigger] s[i],
        0 <= k1 <= k2 <= s.len(),
    ensures
        prefix_sum(s, k1) <= prefix_sum(s, k2),
    decreases k2 - k1,
{
    if k1 < k2 {
        lemma_prefix_sum_mono(s, k1, k2 - 1);
    }
}

/// The neighborhood term of the cell with linear index `i`.
pub open spec fn nb_term_at(s: Seq<i64>, w: int, h: int, i: int, dx: int, dy: int) -> int {
    nb_term(s, w, h, i % w, i / w, dx, dy)
}

/// Sum of one neighborhood slot over the first `k` cells.
spec fn term_prefix(s: Seq<i64>, w: int, h: int, dx: int, dy: int, k: int) -> int
    decreases k,
{
    if k <= 0 {
        0
    } else {
        term_prefix(s, w, h, dx, dy, k - 1) + nb_term_at(s, w, h, k - 1, dx, dy)
    }
}

/// Each neighborhood slot, summed over the whole grid, only ever reads each
/// cell once, so over a nonnegative grid it is bounded by the grid's total.
proof fn lemma_term_prefix_le(s: Seq<i64>, w: int, h: int, dx: int, dy: int, k: int)
    requires
        0 < w <= 10_000,
        0 < h <= 10_000,
        s.len() == w * h,
        forall|i: int| 0 <= i < s.len() ==> 0 <= #[trigger] s[i],
        -1 <= dx <= 1,
        -1 <= dy <= 1,
        0 <= k <= w * h,
    ensures
        term_prefix(s, w, h, dx, dy, k) <= prefix_sum(s, clip(k + dy * w + dx, w * h)),
    decreases k,
{
    let n = w * h;
    let t = dy * w + dx;
    if k == 0 {
        lemma_prefix_sum_mono(s, 0, clip(t, n));
    } else {
        lemma_term_prefix_le(s, w, h, dx, dy, k - 1);
        lemma_row_col(k - 1, w, h);
        let x = (k - 1) % w;
        let y = (k - 1) / w;
        let g = nb_term_at(s, w, h, k - 1, dx, dy);
        if 0 <= x + dx < w && 0 <= y + dy < h {
            lemma_grid_index_bound(w, h, x + dx, y + dy);
            let j = (y + dy) * w + (x + dx);
            assert(j == k - 1 + t) by (nonlinear_arith)
                requires
                    j == (y + dy) * w + (x + dx),
                    y * w + x == k - 1,
                    t == dy * w + dx,
            ;
            assert(g == s[j]);
            assert(clip(k - 1 + t, n) == j);
            assert(prefix_sum(s, j + 1) == prefix_sum(s, j) + s[j]);
            assert(clip(k + t, n) == j + 1);
        } else {
            assert(g == 0);
            lemma_prefix_sum_mono(s, clip(k - 1 + t, n), clip(k + t, n));
        }
    }
}

/// Sum of whole neighborhoods over the first `k` cells.
spec fn nb_sum_prefix(s: Seq<i64>, w: int, h: int, k: int) -> int
    decreases k,
{
    if k <= 0 {
        0
    } else {
        nb_sum_prefix(s, w, h, k - 1) + nb_sum(s, w, h, (k - 1) % w, (k - 1) / w)
    }
}

proof fn lemma_nb_sum_prefix_split(s: Seq<i64>, w: int, h: int, k: int)
    requires
        0 <= k,
    ensures
        nb_sum_prefix(s, w, h, k) == term_prefix(s, w, h, -1, -1, k)
            + term_prefix(s, w, h, 0, -1, k) + term_prefix(s, w, h, 1, -1, k)
            + term_prefix(s, w, h, -1, 0, k) + term_prefix(s, w, h, 0, 0, k)
            + term_prefix(s, w, h, 1, 0, k) + term_prefix(s, w, h, -1, 1, k)
            + term_prefix(s, w, h, 0, 1, k) + term_prefix(s, w, h, 1, 1, k),
    decreases k,
{
    if k > 0 {
        lemma_nb_sum_prefix_split(s, w, h, k - 1);
    }
}

/// All the neighborhood sums together never exceed nine grid totals.
proof fn lemma_total_nb_le(s: Seq<i64>, w: int, h: int)
    requires
        0 < w <= 10_000,
        0 < h <= 10_000,
        s.len() == w * h,
        forall|i: int| 0 <= i < s.len() ==> 0 <= #[trigger] s[i],
    ensures
        nb_sum_prefix(s, w, h, w * h) <= 9 * grid_total(s),
{
    let n = w * h;
    lemma_nb_sum_prefix_split(s, w, h, n);
    lemma_one_slot_le(s, w, h, -1, -1);
    lemma_one_slot_le(s, w, h, 0, -1);
    lemma_one_slot_le(s, w, h, 1, -1);
    lemma_one_slot_le(s, w, h, -1, 0);
    lemma_one_slot_le(s, w, h, 0, 0);
    lemma_one_slot_le(s, w, h, 1, 0);
    lemma_one_slot_le(s, w, h, -1, 1);
    lemma_one_slot_le(s, w, h, 0, 1);
    lemma_one_slot_le(s, w, h, 1, 1);
}

proof fn lemma_one_slot_le(s: Seq<i64>, w: int, h: int, dx: int, dy: int)
    requires
        0 < w <= 10_000,
        0 < h <= 10_000,
        s.len() == w * h,
        forall|i: int| 0 <= i < s.len() ==> 0 <= #[trigger] s[i],
        -1 <= dx <= 1,
        -1 <= dy <= 1,
    ensures
        term_prefix(s, w, h, dx, dy, w * h) <= grid_total(s),
{
    let n = w * h;
    lemma_term_prefix_le(s, w, h, dx, dy, n);
    lemma_prefix_sum_mono(s, clip(n + dy * w + dx, n), n);
}

/// All positive intensity sits at least two cells away from every border.
pub open spec fn interior_support(s: Seq<i64>, w: int, h: int) -> bool {
    forall|i: int| #![trigger s[i]]
        0 <= i < s.len() && s[i] > 0 ==> 2 <= i % w && i % w <= w - 3 && 2 <= i / w && i / w
            <= h - 3
}

proof fn lemma_border_term_zero(s: Seq<i64>, w: int, h: int, x: int, y: int, dx: int, dy: int)
    requires
        0 < w <= 10_000,
        0 < h <= 10_000,
        s.len() == w * h,
        forall|i: int| 0 <= i < s.len() ==> 0 <= #[trigger] s[i],
        interior_support(s, w, h),
        0 <= x < w,
        0 <= y < h,
        !(1 <= x && x <= w - 2 && 1 <= y && y <= h - 2),
        -1 <= dx <= 1,
        -1 <= dy <= 1,
    ensures
        nb_term(s, w, h, x, y, dx, dy) == 0,
{
    if 0 <= x + dx < w && 0 <= y + dy < h {
        lemma_grid_index_bound(w, h, x + dx, y + dy);
        let j = (y + dy) * w + (x + dx);
        if s[j] > 0 {
            assert(2 <= x + dx && x + dx <= w - 3 && 2 <= y + dy && y + dy <= h - 3);
            assert(false);
        }
    }
}

/// Every cell's post-update intensity, taken nine times, fits under its own
/// neighborhood sum, provided all intensity sits in the deep interior.
proof fn lemma_diffused_ninth(
    s: Seq<i64>, w: int, h: int, x: int, y: int, diffusion_rate: int, decay: int,
)
    requires
        0 < w <= 10_000,
        0 < h <= 10_000,
        s.len() == w * h,
        forall|i: int| 0 <= i < s.len() ==> 0 <= #[trigger] s[i] <= LIMIT,
        interior_support(s, w, h),
        0 <= x < w,
        0 <= y < h,
        0 <= decay <= SCALE,
        0 <= diffusion_rate <= SCALE,
    ensures
        0 <= diffused_cell(s, w, h, x, y, diffusion_rate, decay),
        9 * diffused_cell(s, w, h, x, y, diffusion_rate, decay) <= nb_sum(s, w, h, x, y),
{
    lemma_nb_parts_nonneg(s, w, h, x, y);
    let sum = nb_sum(s, w, h, x, y);
    let cnt = nb_count(w, h, x, y);
    let mean = nb_mean(s, w, h, x, y);
    lemma_div_pos_is_pos(sum, cnt);
    lemma_decay_step_bounds(mean, decay);
    lemma_decay_step_bounds(decay_step(mean, decay), diffusion_rate);
    if 1 <= x && x <= w - 2 && 1 <= y && y <= h - 2 {
        assert(cnt == 9);
        vstd::arithmetic::div_mod::lemma_fundamental_div_mod(sum, 9);
        vstd::arithmetic::div_mod::lemma_mod_division_less_than_divisor(sum, 9);
        assert(9 * mean <= sum);
    } else {
        lemma_border_term_zero(s, w, h, x, y, -1, -1);
        lemma_border_term_zero(s, w, h, x, y, 0, -1);
        lemma_border_term_zero(s, w, h, x, y, 1, -1);
        lemma_border_term_zero(s, w, h, x, y, -1, 0);
        lemma_border_term_zero(s, w, h, x, y, 0, 0);
        lemma_border_term_zero(s, w, h, x, y, 1, 0);
        lemma_border_term_zero(s, w, h, x, y, -1, 1);
        lemma_border_term_zero(s, w, h, x, y, 0, 1);
        lemma_border_term_zero(s, w, h, x, y, 1, 1);
        assert(sum == 0);
        vstd::arithmetic::div_mod::lemma_div_of0(cnt);
        assert(mean == 0);
    }
}

proof fn lemma_after_prefix(
    s: Seq<i64>, w: int, h: int, diffusion_rate: int, decay: int, k: int,
)
    requires
        0 < w <= 10_000,
        0 < h <= 10_000,
        s.len() == w * h,
        forall|i: int| 0 <= i < s.len() ==> 0 <= #[trigger] s[i] <= LIMIT,
        interior_support(s, w, h),
        0 <= decay <= SCALE,
        0 <= diffusion_rate <= SCALE,
        0 <= k <= w * h,
    ensures
        9 * prefix_sum(diffused_values(s, w, h, diffusion_rate, decay), k)
            <= nb_sum_prefix(s, w, h, k),
    decreases k,
{
    if k > 0 {
        lemma_after_prefix(s, w, h, diffusion_rate, decay, k - 1);
        lemma_row_col(k - 1, w, h);
        let x = (k - 1) % w;
        let y = (k - 1) / w;
        lemma_diffused_ninth(s, w, h, x, y, diffusion_rate, decay);
        let after = diffused_values(s, w, h, diffusion_rate, decay);
        assert(after[k - 1] as int == diffused_cell(s, w, h, x, y, diffusion_rate, decay));
    }
}

/// Diffusion conservation bound: one update pass with both rates in
/// `[0, 1]` never raises the grid's total intensity, for a nonnegative
/// field whose intensity all sits at least two cells inside every border.
/// (The bound genuinely needs that margin: cells near a border average over
/// fewer neighbors, so mass parked next to an edge can amplify.)
pub proof fn lemma_update_total_bounded(
    s: Seq<i64>, w: int, h: int, diffusion_rate: int, decay: int,
)
    requires
        0 < w <= 10_000,
        0 < h <= 10_000,
        s.len() == w * h,
        forall|i: int| 0 <= i < s.len() ==> 0 <= #[trigger] s[i] <= LIMIT,
        interior_support(s, w, h),
        0 <= decay <= SCALE,
        0 <= diffusion_rate <= SCALE,
    ensures
        grid_total(diffused_values(s, w, h, diffusion_rate, decay)) <= grid_total(s),
{
    let n = w * h;
    let after = diffused_values(s, w, h, diffusion_rate, decay);
    lemma_after_prefix(s, w, h, diffusion_rate, decay, n);
    lemma_total_nb_le(s, w, h);
    assert(after.len() == n);
    assert(9 * grid_total(after) <= 9 * grid_total(s));
}

/// The agent after `n` whole ticks against a stable field and time step.
pub open spec fn seek_ticks(a: Ant, field: PheromoneLayer, dt: int, n: nat) -> Ant
    decreases n,
{
    if n == 0 {
        a
    } else {
        ticked_ant(seek_ticks(a, field, dt, (n - 1) as nat), field, dt)
    }
}

proof fn lemma_seek_ticks_shift(a: Ant, field: PheromoneLayer, dt: int, n: nat)
    ensures
        seek_ticks(a, field, dt, n + 1) == seek_ticks(ticked_ant(a, field, dt), field, dt, n),
    decreases n,
{
    let a1 = ticked_ant(a, field, dt);
    assert(seek_ticks(a, field, dt, n + 1)
        == ticked_ant(seek_ticks(a, field, dt, n), field, dt));
    if n == 0 {
        assert(seek_ticks(a, field, dt, 0) == a);
        assert(seek_ticks(a1, field, dt, 0) == a1);
    } else {
        lemma_seek_ticks_shift(a, field, dt, (n - 1) as nat);
        assert(seek_ticks(a1, field, dt, n)
            == ticked_ant(seek_ticks(a1, field, dt, (n - 1) as nat), field, dt));
        assert(seek_ticks(a, field, dt, n)
            == ticked_ant(seek_ticks(a, field, dt, (n - 1) as nat), field, dt));
    }
}

/// Seek convergence along an axis: from any state of the shape of
/// [`lemma_seek_progress`] (the target straight ahead on the agent's own
/// row, axis-aligned velocity, a zero field, no other steering input), some
/// number of ticks brings the agent within one full-speed step of the
/// target, the distance falling strictly at every tick on the way.
pub proof fn lemma_seek_converges(a: Ant, field: PheromoneLayer, dt: i64, tgt: Vec2)
    requires
        a.wf(),
        field.wf(),
        forall|i: int| 0 <= i < field.values@.len() ==> #[trigger] field.values@[i] == 0i64,
        a.target == Some(Target(tgt)),
        a.physics.acceleration.0 == zero_vec(),
        a.physics.velocity.0.y == 0,
        0 <= a.physics.velocity.0.x <= a.physics.max_speed.0,
        tgt.y == a.position.y,
        a.position.x <= tgt.x,
        SCALE <= dt <= DT_LIMIT,
    ensures
        exists|n: nat|
            0 <= tgt.x - (#[trigger] seek_ticks(a, field, dt as int, n)).position.x
                && (tgt.x - seek_ticks(a, field, dt as int, n).position.x) * (SCALE as int)
                < (a.physics.max_speed.0 as int) * (dt as int),
    decreases tgt.x - a.position.x,
{
    let ms = a.physics.max_speed.0;
    let dist = tgt.x - a.position.x;
    if (dist as int) * (SCALE as int) < (ms as int) * (dt as int) {
        assert(seek_ticks(a, field, dt as int, 0) == a);
    } else {
        assert(0 < dist) by (nonlinear_arith)
            requires
                (dist as int) * (SCALE as int) >= (ms as int) * (dt as int),
                0 < ms,
                SCALE <= dt,
                0 <= dist,
        ;
        lemma_seek_progress(a, field, dt, tgt);
        let a1 = ticked_ant(a, field, dt as int);
        lemma_seek_converges(a1, field, dt, tgt);
        let n1 = choose|n: nat|
            0 <= tgt.x - (#[trigger] seek_ticks(a1, field, dt as int, n)).position.x
                && (tgt.x - seek_ticks(a1, field, dt as int, n).position.x) * (SCALE as int)
                < (ms as int) * (dt as int);
        lemma_seek_ticks_shift(a, field, dt as int, n1);
        assert(seek_ticks(a, field, dt as int, n1 + 1)
            == seek_ticks(a1, field, dt as int, n1));
    }
}

} // verus!
