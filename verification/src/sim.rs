//! The per-tick simulation pipeline.
//!
//! One tick runs, in order: the gated cursor deposit, at most one field
//! update (diffusion/decay, by the field's policy), then for every agent the
//! antenna steering, the seek steering, and the kinematic integration.  The
//! field is stable for the whole steering phase, and the agents are mutually
//! independent: each one's outcome is a function of its own prior state, the
//! post-update field, and the time step.

use vstd::prelude::*;
use crate::fixed::{mag, LIMIT, SCALE};
use crate::vec2::{
    Vec2, zero_vec, norm_sq, vadd_spec, vscale_spec, clamp_mag_spec, scale_to_spec,
};
use crate::pheromone::{PheromoneLayer, DepositMode, diffused_values};
use crate::physics::{
    Ant, PhysicsObject, Velocity, Acceleration, DT_LIMIT, HEADING_EPS_SQ,
};
use crate::input::{MousePosition, MouseButtons, DEPOSIT_AMOUNT, mouse_deposit_pheromone};

verus! {

/// The acceleration an agent has accumulated after both steering passes:
/// the antenna term, then (with a target present) the seek term, each
/// individually clamped to the force cap before being added.
pub open spec fn steered_accel(a: Ant, field: PheromoneLayer) -> Vec2 {
    let after_tropo = vadd_spec(a.physics.acceleration.0, a.tropotaxis_steer_spec(field));
    match a.target {
        Some(t) => vadd_spec(after_tropo, a.seek_steer_spec(t.0)),
        None => after_tropo,
    }
}

/// The exact state of one agent after a whole tick against the post-update
/// field `field` and time step `dt`.
pub open spec fn ticked_ant(a: Ant, field: PheromoneLayer, dt: int) -> Ant {
    let acc = steered_accel(a, field);
    let vel = clamp_mag_spec(
        vadd_spec(a.physics.velocity.0, vscale_spec(acc, dt)),
        a.physics.max_speed.0 as int,
    );
    Ant {
        position: vadd_spec(a.position, vscale_spec(vel, dt)),
        heading: if norm_sq(vel) > HEADING_EPS_SQ {
            scale_to_spec(vel, SCALE as int)
        } else {
            a.heading
        },
        physics: PhysicsObject {
            velocity: Velocity(vel),
            acceleration: Acceleration(zero_vec()),
            max_speed: a.physics.max_speed,
            max_force: a.physics.max_force,
        },
        sensors: a.sensors,
        target: a.target,
    }
}

/// The whole simulation: the shared field, the agents, the pointer state the
/// input layer reports into, and the field-update rates.
pub struct Simulation {
    pub field: PheromoneLayer,
    pub ants: Vec<Ant>,
    pub mouse_position: MousePosition,
    pub mouse_buttons: MouseButtons,
    pub diffusion_rate: i64,
    pub decay: i64,
}

impl Simulation {
    pub open spec fn wf(self) -> bool {
        &&& self.field.wf()
        &&& forall|i: int| 0 <= i < self.ants@.len() ==> (#[trigger] self.ants@[i]).wf()
    }

    /// The grid after this tick's gated cursor deposit.
    pub open spec fn deposited_values(self) -> Seq<i64> {
        match self.mouse_position.0 {
            Some(p) => if self.mouse_buttons.left {
                self.field.deposit_values_spec(p, DEPOSIT_AMOUNT)
            } else {
                self.field.values@
            },
            None => self.field.values@,
        }
    }

    /// The grid after this tick's deposit and field update.
    pub open spec fn ticked_field_values(self) -> Seq<i64> {
        if self.field.mode == DepositMode::Accumulate {
            diffused_values(
                self.deposited_values(),
                self.field.width as int,
                self.field.height as int,
                self.diffusion_rate as int,
                self.decay as int,
            )
        } else {
            self.deposited_values()
        }
    }

    /// Run one tick: deposit, field update, then steering and integration
    /// for every agent against the now-stable field.
    pub fn tick(&mut self, dt: i64)
        requires
            old(self).wf(),
            mag(dt as int) <= DT_LIMIT,
        ensures
            final(self).wf(),
            final(self).field.width == old(self).field.width,
            final(self).field.height == old(self).field.height,
            final(self).field.cell_size == old(self).field.cell_size,
            final(self).field.mode == old(self).field.mode,
            final(self).field.values@ == old(self).ticked_field_values(),
            final(self).ants@.len() == old(self).ants@.len(),
            forall|i: int|
                0 <= i < old(self).ants@.len() ==> final(self).ants@[i] == ticked_ant(
                    old(self).ants@[i],
                    final(self).field,
                    dt as int,
                ),
            final(self).mouse_position == old(self).mouse_position,
            final(self).mouse_buttons == old(self).mouse_buttons,
            final(self).diffusion_rate == old(self).diffusion_rate,
            final(self).decay == old(self).decay,
    {
        mouse_deposit_pheromone(&mut self.field, self.mouse_position.0, self.mouse_buttons.left);
        self.field.diffuse(self.diffusion_rate, self.decay);
        let n: usize = self.ants.len();
        let mut i: usize = 0;
        while i < n
            invariant
                self.field.wf(),
                self.field.width == old(self).field.width,
                self.field.height == old(self).field.height,
                self.field.cell_size == old(self).field.cell_size,
                self.field.mode == old(self).field.mode,
                self.field.values@ == old(self).ticked_field_values(),
                mag(dt as int) <= DT_LIMIT,
                n == self.ants@.len(),
                self.ants@.len() == old(self).ants@.len(),
                i <= n,
                forall|k: int| i <= k < n ==> self.ants@[k] == old(self).ants@[k],
                forall|k: int|
                    0 <= k < i ==> #[trigger] self.ants@[k] == ticked_ant(
                        old(self).ants@[k],
                        self.field,
                        dt as int,
                    ) && self.ants@[k].wf(),
                forall|k: int| 0 <= k < n ==> (#[trigger] self.ants@[k]).wf(),
                self.mouse_position == old(self).mouse_position,
                self.mouse_buttons == old(self).mouse_buttons,
                self.diffusion_rate == old(self).diffusion_rate,
                self.decay == old(self).decay,
            decreases n - i,
        {
            let mut a: Ant = self.ants[i];
            a.update_ants(&self.field);
            a.update_steering();
            a.update_physics(dt);
            self.ants.set(i, a);
            i = i + 1;
        }
    }
}

} // verus!
