//! The pheromone field: a dense row-major grid of fixed-point intensities.
//!
//! One layer type carries both field policies as a construction-time choice:
//! an accumulating layer (deposits add, and a per-tick pass diffuses each
//! cell toward the mean of its in-bounds 3x3 neighborhood and decays it) and
//! a stamping layer (a deposit writes one full unit of intensity and the
//! per-tick pass leaves the grid alone).
//!
//! World points map to cells by flooring `coordinate / cell_size`; points
//! mapping outside the grid are sampled as zero and deposits there are
//! ignored, so every operation is total.

use vstd::prelude::*;
use vstd::arithmetic::div_mod::{lemma_fundamental_div_mod, lemma_mod_division_less_than_divisor};
use crate::fixed::{
    SCALE, LIMIT, mag, sat, floor_div, floor_div_wide, sat_add, sat_narrow,
    lemma_floor_div_bounds,
};
use crate::vec2::Vec2;

verus! {

/// Largest accepted grid edge, in cells.
pub const MAX_DIM: usize = 10_000;

/// What a deposit does to the cell containing the deposit point.
#[derive(Clone, Copy, PartialEq, Eq, Structural, Debug)]
pub enum DepositMode {
    /// Deposits accumulate and the per-tick update diffuses and decays.
    Accumulate,
    /// A deposit stamps one full unit of intensity; no diffusion, no decay.
    Stamp,
}

/// Intensity one deposit writes in [`DepositMode::Stamp`]: one world unit.
pub const STAMP_VALUE: i64 = SCALE;

pub struct PheromoneLayer {
    pub width: usize,
    pub height: usize,
    /// World units per cell edge, in raw (thousandth) units.
    pub cell_size: i64,
    pub mode: DepositMode,
    /// Row-major intensities: the cell `(x, y)` lives at `y * width + x`.
    pub values: Vec<i64>,
}

/// A row-major index decomposes into a column under `w` and a row under `h`.
pub proof fn lemma_row_col(i: int, w: int, h: int)
    requires
        0 < w,
        0 < h,
        0 <= i < w * h,
    ensures
        0 <= i % w < w,
        0 <= i / w < h,
        (i / w) * w + i % w == i,
{
    lemma_fundamental_div_mod(i, w);
    lemma_mod_division_less_than_divisor(i, w);
    assert((i / w) * w + i % w == i) by (nonlinear_arith)
        requires
            i == w * (i / w) + i % w,
    ;
    assert(0 <= i / w && i / w < h) by (nonlinear_arith)
        requires
            0 < w,
            0 < h,
            0 <= i < w * h,
            i == w * (i / w) + i % w,
            0 <= i % w < w,
    ;
}

/// Cell coordinates inside the grid give a row-major index inside the grid.
pub proof fn lemma_grid_index_bound(w: int, h: int, x: int, y: int)
    requires
        0 <= x < w,
        0 <= y < h,
        w <= MAX_DIM,
        h <= MAX_DIM,
    ensures
        0 <= y * w + x < w * h,
        w * h <= 100_000_000,
        (y * w + x) % w == x,
        (y * w + x) / w == y,
{
    assert(0 <= y * w + x < w * h && w * h <= 100_000_000) by (nonlinear_arith)
        requires
            0 <= x < w,
            0 <= y < h,
            w <= 10_000,
            h <= 10_000,
    ;
    vstd::arithmetic::div_mod::lemma_fundamental_div_mod_converse_div(y * w + x, w, y, x);
    vstd::arithmetic::div_mod::lemma_fundamental_div_mod_converse_mod(y * w + x, w, y, x);
}

/// The raw intensity at cell `(x, y)`.
pub open spec fn cell_at(s: Seq<i64>, w: int, x: int, y: int) -> int {
    s[y * w + x] as int
}

/// One 3x3-neighborhood contribution: the neighbor's intensity when it is
/// in bounds, nothing otherwise.
pub open spec fn nb_term(s: Seq<i64>, w: int, h: int, x: int, y: int, dx: int, dy: int) -> int {
    if 0 <= x + dx < w && 0 <= y + dy < h {
        cell_at(s, w, x + dx, y + dy)
    } else {
        0
    }
}

/// Whether the 3x3-neighborhood slot `(dx, dy)` of `(x, y)` is in bounds.
pub open spec fn nb_cnt(w: int, h: int, x: int, y: int, dx: int, dy: int) -> int {
    if 0 <= x + dx < w && 0 <= y + dy < h {
        1
    } else {
        0
    }
}

/// Sum of the in-bounds cells of the 3x3 neighborhood of `(x, y)`,
/// the cell itself included.
pub open spec fn nb_sum(s: Seq<i64>, w: int, h: int, x: int, y: int) -> int {
    nb_term(s, w, h, x, y, -1, -1) + nb_term(s, w, h, x, y, 0, -1) + nb_term(s, w, h, x, y, 1, -1)
        + nb_term(s, w, h, x, y, -1, 0) + nb_term(s, w, h, x, y, 0, 0)
        + nb_term(s, w, h, x, y, 1, 0) + nb_term(s, w, h, x, y, -1, 1)
        + nb_term(s, w, h, x, y, 0, 1) + nb_term(s, w, h, x, y, 1, 1)
}

/// Number of in-bounds cells of the 3x3 neighborhood of `(x, y)`.
pub open spec fn nb_count(w: int, h: int, x: int, y: int) -> int {
    nb_cnt(w, h, x, y, -1, -1) + nb_cnt(w, h, x, y, 0, -1) + nb_cnt(w, h, x, y, 1, -1)
        + nb_cnt(w, h, x, y, -1, 0) + nb_cnt(w, h, x, y, 0, 0) + nb_cnt(w, h, x, y, 1, 0)
        + nb_cnt(w, h, x, y, -1, 1) + nb_cnt(w, h, x, y, 0, 1) + nb_cnt(w, h, x, y, 1, 1)
}

/// The floor of the mean intensity over the in-bounds 3x3 neighborhood.
pub open spec fn nb_mean(s: Seq<i64>, w: int, h: int, x: int, y: int) -> int {
    nb_sum(s, w, h, x, y) / nb_count(w, h, x, y)
}

/// One multiplicative fade: `v * (1 - rate)` in raw units, floored and
/// saturated into the stored range.
pub open spec fn decay_step(v: int, rate: int) -> int {
    sat(v * (SCALE - rate) / (SCALE as int))
}

/// The value cell `(x, y)` takes after one update pass: the neighborhood
/// mean, faded once by the decay rate and once by the diffusion rate.
pub open spec fn diffused_cell(
    s: Seq<i64>, w: int, h: int, x: int, y: int, diffusion_rate: int, decay: int,
) -> int {
    decay_step(decay_step(nb_mean(s, w, h, x, y), decay), diffusion_rate)
}

/// The whole grid after one update pass over a snapshot `s` of the old grid.
pub open spec fn diffused_values(
    s: Seq<i64>, w: int, h: int, diffusion_rate: int, decay: int,
) -> Seq<i64> {
    Seq::new((w * h) as nat, |i: int| diffused_cell(
        s, w, h, i % w, i / w, diffusion_rate, decay,
    ) as i64)
}

impl PheromoneLayer {
    /// Well-formed layer: positive dimensions, positive cell size, a dense
    /// grid of exactly `width * height` cells, every intensity in range.
    pub open spec fn wf(self) -> bool {
        &&& 0 < self.width <= MAX_DIM
        &&& 0 < self.height <= MAX_DIM
        &&& 0 < self.cell_size
        &&& self.values@.len() == self.width * self.height
        &&& forall|i: int|
            0 <= i < self.values@.len() ==> mag(#[trigger] self.values@[i] as int) <= LIMIT
    }

    /// Column of the cell containing the world point `p`.
    pub open spec fn cell_x_of(self, p: Vec2) -> int {
        (p.x as int) / (self.cell_size as int)
    }

    /// Row of the cell containing the world point `p`.
    pub open spec fn cell_y_of(self, p: Vec2) -> int {
        (p.y as int) / (self.cell_size as int)
    }

    pub open spec fn in_grid(self, cx: int, cy: int) -> bool {
        0 <= cx < self.width && 0 <= cy < self.height
    }

    pub open spec fn point_in_grid(self, p: Vec2) -> bool {
        self.in_grid(self.cell_x_of(p), self.cell_y_of(p))
    }

    /// Row-major index of the cell containing `p` (meaningful in-grid only).
    pub open spec fn index_of_point(self, p: Vec2) -> int {
        self.cell_y_of(p) * self.width + self.cell_x_of(p)
    }

    /// The stored intensity at `p`, or zero outside the grid.
    pub open spec fn sample_spec(self, p: Vec2) -> i64 {
        if self.point_in_grid(p) {
            self.values@[self.index_of_point(p)]
        } else {
            0
        }
    }

    /// What one deposit leaves in the target cell.
    pub open spec fn deposit_cell_value(self, prior: i64, amount: i64) -> int {
        match self.mode {
            DepositMode::Accumulate => sat(prior + amount),
            DepositMode::Stamp => STAMP_VALUE as int,
        }
    }

    /// The grid after a deposit of `amount` at the world point `p`.
    pub open spec fn deposit_values_spec(self, p: Vec2, amount: i64) -> Seq<i64> {
        if self.point_in_grid(p) {
            self.values@.update(
                self.index_of_point(p),
                self.deposit_cell_value(self.values@[self.index_of_point(p)], amount) as i64,
            )
        } else {
            self.values@
        }
    }

    /// A fresh all-zero accumulating layer.
    pub fn new(width: usize, height: usize, cell_size: i64) -> (r: PheromoneLayer)
        requires
            0 < width <= MAX_DIM,
            0 < height <= MAX_DIM,
            0 < cell_size,
        ensures
            r.wf(),
            r.width == width,
            r.height == height,
            r.cell_size == cell_size,
            r.mode == DepositMode::Accumulate,
            forall|i: int| 0 <= i < r.values@.len() ==> r.values@[i] == 0i64,
    {
        PheromoneLayer {
            width,
            height,
            cell_size,
            mode: DepositMode::Accumulate,
            values: zero_grid(width, height),
        }
    }

    /// A fresh all-zero stamping layer; one cell spans one world unit.
    pub fn new_stamp(width: usize, height: usize) -> (r: PheromoneLayer)
        requires
            0 < width <= MAX_DIM,
            0 < height <= MAX_DIM,
        ensures
            r.wf(),
            r.width == width,
            r.height == height,
            r.cell_size == SCALE,
            r.mode == DepositMode::Stamp,
            forall|i: int| 0 <= i < r.values@.len() ==> r.values@[i] == 0i64,
    {
        PheromoneLayer {
            width,
            height,
            cell_size: SCALE,
            mode: DepositMode::Stamp,
            values: zero_grid(width, height),
        }
    }

    /// Map a world point to the row-major index of its cell, or `None`
    /// outside the grid.
    pub fn pos_to_index(&self, pos: Vec2) -> (r: Option<usize>)
        requires
            self.wf(),
        ensures
            self.point_in_grid(pos) ==> r == Some(self.index_of_point(pos) as usize),
            !self.point_in_grid(pos) ==> r is None,
    {
        let cx: i64 = floor_div(pos.x, self.cell_size);
        let cy: i64 = floor_div(pos.y, self.cell_size);
        if cx >= 0 && cx < self.width as i64 && cy >= 0 && cy < self.height as i64 {
            proof {
                lemma_grid_index_bound(
                    self.width as int, self.height as int, cx as int, cy as int,
                );
            }
            Some((cy as usize) * self.width + (cx as usize))
        } else {
            None
        }
    }

    /// The intensity at the world point `pos`; zero outside the grid.
    pub fn get(&self, pos: Vec2) -> (r: i64)
        requires
            self.wf(),
        ensures
            r == self.sample_spec(pos),
            mag(r as int) <= LIMIT,
    {
        match self.pos_to_index(pos) {
            Some(idx) => {
                proof {
                    lemma_grid_index_bound(
                        self.width as int,
                        self.height as int,
                        self.cell_x_of(pos),
                        self.cell_y_of(pos),
                    );
                }
                self.values[idx]
            },
            None => 0,
        }
    }

    /// Add `amount` to the cell containing `pos` (or stamp it, per mode);
    /// a point outside the grid is ignored.  Repeated deposits accumulate.
    pub fn deposit(&mut self, pos: Vec2, amount: i64)
        requires
            old(self).wf(),
        ensures
            final(self).wf(),
            final(self).width == old(self).width,
            final(self).height == old(self).height,
            final(self).cell_size == old(self).cell_size,
            final(self).mode == old(self).mode,
            final(self).values@ == old(self).deposit_values_spec(pos, amount),
    {
        let idx_opt: Option<usize> = self.pos_to_index(pos);
        match idx_opt {
            Some(idx) => {
                proof {
                    lemma_grid_index_bound(
                        self.width as int,
                        self.height as int,
                        self.cell_x_of(pos),
                        self.cell_y_of(pos),
                    );
                }
                let nv: i64 = match self.mode {
                    DepositMode::Accumulate => sat_add(self.values[idx], amount),
                    DepositMode::Stamp => STAMP_VALUE,
                };
                self.values.set(idx, nv);
            },
            None => {},
        }
    }

    /// One update pass: in an accumulating layer every cell becomes the mean
    /// of its in-bounds 3x3 neighborhood, faded by the decay rate and then by
    /// the diffusion rate, all read from a snapshot of the pre-update grid;
    /// a stamping layer is left untouched.
    pub fn diffuse(&mut self, diffusion_rate: i64, decay: i64)
        requires
            old(self).wf(),
        ensures
            final(self).wf(),
            final(self).width == old(self).width,
            final(self).height == old(self).height,
            final(self).cell_size == old(self).cell_size,
            final(self).mode == old(self).mode,
            old(self).mode == DepositMode::Accumulate ==> final(self).values@
                == diffused_values(
                old(self).values@,
                old(self).width as int,
                old(self).height as int,
                diffusion_rate as int,
                decay as int,
            ),
            old(self).mode == DepositMode::Stamp ==> final(self).values@ == old(self).values@,
    {
        match self.mode {
            DepositMode::Stamp => {
                return;
            },
            DepositMode::Accumulate => {},
        }
        let w: usize = self.width;
        let h: usize = self.height;
        proof {
            lemma_grid_index_bound(w as int, h as int, 0, 0);
        }
        let total: usize = w * h;
        let mut out: Vec<i64> = Vec::new();
        let mut i: usize = 0;
        while i < total
            invariant
                self.wf(),
                *self == *old(self),
                self.mode == DepositMode::Accumulate,
                w == self.width,
                h == self.height,
                total == w * h,
                i <= total,
                out@.len() == i,
                forall|k: int|
                    0 <= k < i ==> #[trigger] out@[k] as int == diffused_cell(
                        self.values@,
                        w as int,
                        h as int,
                        k % (w as int),
                        k / (w as int),
                        diffusion_rate as int,
                        decay as int,
                    ),
            decreases total - i,
        {
            proof {
                lemma_row_col(i as int, w as int, h as int);
            }
            let x: usize = i % w;
            let y: usize = i / w;
            let t3: i64 = diffuse_one(&self.values, w, h, x, y, diffusion_rate, decay);
            out.push(t3);
            i = i + 1;
        }
        self.values = out;
        proof {
            assert(self.values@ =~= diffused_values(
                old(self).values@,
                old(self).width as int,
                old(self).height as int,
                diffusion_rate as int,
                decay as int,
            ));
        }
    }
}

/// A dense all-zero grid of `width * height` cells.
fn zero_grid(width: usize, height: usize) -> (r: Vec<i64>)
    requires
        0 < width <= MAX_DIM,
        0 < height <= MAX_DIM,
    ensures
        r@.len() == width * height,
        forall|i: int| 0 <= i < r@.len() ==> r@[i] == 0i64,
{
    proof {
        lemma_grid_index_bound(width as int, height as int, 0, 0);
    }
    let total: usize = width * height;
    let mut v: Vec<i64> = Vec::new();
    let mut i: usize = 0;
    while i < total
        invariant
            i <= total,
            v@.len() == i,
            forall|k: int| 0 <= k < i ==> v@[k] == 0i64,
        decreases total - i,
    {
        v.push(0);
        i = i + 1;
    }
    v
}

/// The in-bounds neighbor of `(x, y)` at offset `(dx, dy)`, or zero.
fn nb_read(
    values: &Vec<i64>, w: usize, h: usize, x: usize, y: usize, dx: i64, dy: i64,
) -> (r: i64)
    requires
        0 < w <= MAX_DIM,
        0 < h <= MAX_DIM,
        x < w,
        y < h,
        -1 <= dx <= 1,
        -1 <= dy <= 1,
        values@.len() == w * h,
        forall|i: int| 0 <= i < values@.len() ==> mag(#[trigger] values@[i] as int) <= LIMIT,
    ensures
        r as int == nb_term(values@, w as int, h as int, x as int, y as int, dx as int, dy as int),
        mag(r as int) <= LIMIT,
{
    let nx: i64 = x as i64 + dx;
    let ny: i64 = y as i64 + dy;
    if nx >= 0 && nx < w as i64 && ny >= 0 && ny < h as i64 {
        proof {
            lemma_grid_index_bound(w as int, h as int, nx as int, ny as int);
        }
        values[(ny as usize) * w + (nx as usize)]
    } else {
        0
    }
}

/// One when the neighborhood slot `(dx, dy)` of `(x, y)` is in bounds.
fn nb_in(w: usize, h: usize, x: usize, y: usize, dx: i64, dy: i64) -> (r: i64)
    requires
        0 < w <= MAX_DIM,
        0 < h <= MAX_DIM,
        x < w,
        y < h,
        -1 <= dx <= 1,
        -1 <= dy <= 1,
    ensures
        r as int == nb_cnt(w as int, h as int, x as int, y as int, dx as int, dy as int),
{
    let nx: i64 = x as i64 + dx;
    let ny: i64 = y as i64 + dy;
    if nx >= 0 && nx < w as i64 && ny >= 0 && ny < h as i64 {
        1
    } else {
        0
    }
}

/// The post-update intensity of the cell `(x, y)`, computed from the
/// pre-update grid `values`.
#[verifier::rlimit(100)]
fn diffuse_one(
    values: &Vec<i64>, w: usize, h: usize, x: usize, y: usize, diffusion_rate: i64, decay: i64,
) -> (r: i64)
    requires
        0 < w <= MAX_DIM,
        0 < h <= MAX_DIM,
        x < w,
        y < h,
        values@.len() == w * h,
        forall|i: int| 0 <= i < values@.len() ==> mag(#[trigger] values@[i] as int) <= LIMIT,
    ensures
        r as int == diffused_cell(
            values@, w as int, h as int, x as int, y as int, diffusion_rate as int, decay as int,
        ),
{
    let t_nw: i64 = nb_read(values, w, h, x, y, -1, -1);
    let t_n: i64 = nb_read(values, w, h, x, y, 0, -1);
    let t_ne: i64 = nb_read(values, w, h, x, y, 1, -1);
    let t_w: i64 = nb_read(values, w, h, x, y, -1, 0);
    let t_c: i64 = nb_read(values, w, h, x, y, 0, 0);
    let t_e: i64 = nb_read(values, w, h, x, y, 1, 0);
    let t_sw: i64 = nb_read(values, w, h, x, y, -1, 1);
    let t_s: i64 = nb_read(values, w, h, x, y, 0, 1);
    let t_se: i64 = nb_read(values, w, h, x, y, 1, 1);
    let c_nw: i64 = nb_in(w, h, x, y, -1, -1);
    let c_n: i64 = nb_in(w, h, x, y, 0, -1);
    let c_ne: i64 = nb_in(w, h, x, y, 1, -1);
    let c_w: i64 = nb_in(w, h, x, y, -1, 0);
    let c_c: i64 = nb_in(w, h, x, y, 0, 0);
    let c_e: i64 = nb_in(w, h, x, y, 1, 0);
    let c_sw: i64 = nb_in(w, h, x, y, -1, 1);
    let c_s: i64 = nb_in(w, h, x, y, 0, 1);
    let c_se: i64 = nb_in(w, h, x, y, 1, 1);
    let sum: i64 = t_nw + t_n + t_ne + t_w + t_c + t_e + t_sw + t_s + t_se;
    let cnt: i64 = c_nw + c_n + c_ne + c_w + c_c + c_e + c_sw + c_s + c_se;
    proof {
        assert(sum as int == nb_sum(values@, w as int, h as int, x as int, y as int));
        assert(cnt as int == nb_count(w as int, h as int, x as int, y as int));
        assert(1 <= cnt as int);
        lemma_floor_div_bounds(sum as int, cnt as int);
    }
    let mean: i64 = floor_div(sum, cnt);
    let t2: i64 = decay_step_exec(mean, decay);
    let t3: i64 = decay_step_exec(t2, diffusion_rate);
    t3
}

impl PheromoneLayer {
    /// Column a click at sprite-local `local` maps to: the local X
    /// coordinate shifted by half the grid's world width, floored to a cell.
    pub open spec fn stamp_cell_x(self, local: Vec2) -> int {
        ((local.x as int) + (self.width as int) * (self.cell_size as int) / 2)
            / (self.cell_size as int)
    }

    /// Row a click at sprite-local `local` maps to; the vertical axis is
    /// flipped, screen-style.
    pub open spec fn stamp_cell_y(self, local: Vec2) -> int {
        ((self.height as int) * (self.cell_size as int) / 2 - (local.y as int))
            / (self.cell_size as int)
    }

    /// Whether a click at sprite-local `local` maps inside the grid.
    pub open spec fn click_in_grid(self, local: Vec2) -> bool {
        self.in_grid(self.stamp_cell_x(local), self.stamp_cell_y(local))
    }

    /// A click at the sprite-local point `local` stamps one full unit of
    /// intensity into the cell it maps to; a click mapping outside the grid
    /// is ignored, like any other out-of-bounds deposit.
    pub fn click_add_pheromones_system(&mut self, local: Vec2)
        requires
            old(self).wf(),
        ensures
            final(self).wf(),
            final(self).width == old(self).width,
            final(self).height == old(self).height,
            final(self).cell_size == old(self).cell_size,
            final(self).mode == old(self).mode,
            old(self).click_in_grid(local) ==> final(self).values@ == old(self).values@.update(
                old(self).stamp_cell_y(local) * old(self).width + old(self).stamp_cell_x(local),
                STAMP_VALUE,
            ),
            !old(self).click_in_grid(local) ==> final(self).values@ == old(self).values@,
    {
        proof {
            assert(0 <= (self.width as int) * (self.cell_size as int)
                <= 10_000 * 0x8000_0000_0000_0000) by (nonlinear_arith)
                requires
                    0 < self.width as int <= 10_000,
                    0 < self.cell_size as int <= 0x8000_0000_0000_0000,
            ;
            assert(0 <= (self.height as int) * (self.cell_size as int)
                <= 10_000 * 0x8000_0000_0000_0000) by (nonlinear_arith)
                requires
                    0 < self.height as int <= 10_000,
                    0 < self.cell_size as int <= 0x8000_0000_0000_0000,
            ;
        }
        let half_w: i128 = floor_div_wide(
            (self.width as i128) * (self.cell_size as i128), 2,
        );
        let half_h: i128 = floor_div_wide(
            (self.height as i128) * (self.cell_size as i128), 2,
        );
        let gx_raw: i128 = floor_div_wide((local.x as i128) + half_w, self.cell_size as i128);
        let gy_raw: i128 = floor_div_wide(half_h - (local.y as i128), self.cell_size as i128);
        if gx_raw >= 0 && gx_raw < self.width as i128 && gy_raw >= 0 && gy_raw < self.height as i128 {
            let gx: usize = gx_raw as usize;
            let gy: usize = gy_raw as usize;
            proof {
                lemma_grid_index_bound(
                    self.width as int, self.height as int, gx as int, gy as int,
                );
            }
            self.values.set(gy * self.width + gx, STAMP_VALUE);
        }
    }
}

/// Display alpha of a positive raw intensity: clamped to one world unit and
/// spread over the byte range.
pub open spec fn heat_alpha(value: int) -> int {
    (if value > SCALE {
        SCALE as int
    } else {
        value
    }) * 255 / (SCALE as int)
}

/// RGBA pixel visualizing one cell: fully transparent where the (display-
/// clamped) intensity is zero or below, otherwise the trail color with alpha
/// proportional to the intensity.
pub fn heat_pixel(value: i64) -> (r: (u8, u8, u8, u8))
    ensures
        value <= 0 ==> r == (0u8, 0u8, 0u8, 0u8),
        value > 0 ==> r == (122u8, 1u8, 119u8, heat_alpha(value as int) as u8),
{
    if value <= 0 {
        (0, 0, 0, 0)
    } else {
        let c: i64 = if value > SCALE {
            SCALE
        } else {
            value
        };
        let alpha: i64 = floor_div(c * 255, SCALE);
        (122, 1, 119, alpha as u8)
    }
}

/// One multiplicative fade of a raw intensity by `1 - rate/SCALE`.
fn decay_step_exec(v: i64, rate: i64) -> (r: i64)
    requires
        mag(v as int) <= 9 * LIMIT,
    ensures
        r as int == decay_step(v as int, rate as int),
        mag(r as int) <= LIMIT,
{
    let factor: i128 = (SCALE as i128) - (rate as i128);
    proof {
        crate::vec2::lemma_prod_mag(v as int, factor as int);
        assert(mag(v as int) * mag(factor as int)
            < 0x4000_0000_0000_0000_0000_0000_0000_0000) by (nonlinear_arith)
            requires
                mag(v as int) <= 9 * 1_000_000_000_000_000,
                mag(factor as int) <= 0x1_0000_0000_0000_0000,
        ;
    }
    let prod: i128 = (v as i128) * factor;
    let q: i128 = floor_div_wide(prod, SCALE as i128);
    sat_narrow(q)
}

} // verus!
