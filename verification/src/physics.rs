//! Agent state, steering, and kinematics.
//!
//! An ant carries a pose (position plus a unit heading direction), the
//! kinematic accumulator triple (velocity, per-tick acceleration, speed and
//! force caps), two body-local antenna offsets, and an optional seek target.
//!
//! Steering only ever adds individually force-clamped terms into the
//! acceleration accumulator; integration then advances velocity and position,
//! clamps speed, re-derives the heading from the velocity direction outside a
//! small dead zone, and resets the accumulator.

use vstd::prelude::*;
use crate::fixed::{SCALE, LIMIT, mag};
use crate::vec2::{
    Vec2, zero_vec, norm_sq, vadd_spec, vsub_spec, vscale_spec, clamp_mag_spec, scale_to_spec,
    rotate_spec, vadd, vsub, vscale, clamp_magnitude, scale_to, rotate, norm_sq_exec,
};
use crate::pheromone::PheromoneLayer;

verus! {

/// Default speed cap: 200 world units per second.
pub const MAX_SPEED: i64 = 200 * SCALE;

/// Default force cap: 100 world units per second squared.
pub const MAX_FORCE: i64 = 100 * SCALE;

/// Largest accepted speed or force cap.
pub const CAP_LIMIT: i64 = 1_000_000_000_000;

/// Largest accepted time step magnitude (1000 seconds).
pub const DT_LIMIT: i64 = 1_000_000;

/// Squared-speed dead zone under which the heading is left alone:
/// `0.0001` in squared world units, i.e. `0.0001 * SCALE * SCALE` raw;
/// avoids orientation jitter at near-zero speed.
pub const HEADING_EPS_SQ: i64 = 100;

/// Forward reach of both antennae: 5 world units.
pub const ANTENNA_FORWARD: i64 = 5 * SCALE;

/// Sideways reach of both antennae: 2 world units.
pub const ANTENNA_SIDE: i64 = 2 * SCALE;

/// Initial velocity component of a fresh ant: 20 world units per second.
pub const SPAWN_VELOCITY: i64 = 20 * SCALE;

#[derive(Clone, Copy, PartialEq, Eq, Structural, Debug)]
pub struct Velocity(pub Vec2);

#[derive(Clone, Copy, PartialEq, Eq, Structural, Debug)]
pub struct Acceleration(pub Vec2);

#[derive(Clone, Copy, PartialEq, Eq, Structural, Debug)]
pub struct MaxSpeed(pub i64);

#[derive(Clone, Copy, PartialEq, Eq, Structural, Debug)]
pub struct MaxForce(pub i64);

/// The kinematic bundle every moving agent carries.
#[derive(Clone, Copy, PartialEq, Eq, Structural, Debug)]
pub struct PhysicsObject {
    pub velocity: Velocity,
    pub acceleration: Acceleration,
    pub max_speed: MaxSpeed,
    pub max_force: MaxForce,
}

/// A world point the agent seeks.
#[derive(Clone, Copy, PartialEq, Eq, Structural, Debug)]
pub struct Target(pub Vec2);

/// Body-local antenna sensor placement.
#[derive(Clone, Copy, PartialEq, Eq, Structural, Debug)]
pub struct AntennaSensors {
    pub left_offset: Vec2,
    pub right_offset: Vec2,
}

/// One agent: pose, kinematics, sensors, and an optional seek target.
#[derive(Clone, Copy)]
pub struct Ant {
    pub position: Vec2,
    /// Unit direction of the last integrated velocity, scaled by `SCALE`
    /// (cosine and sine of the heading angle, in raw units).
    pub heading: Vec2,
    pub physics: PhysicsObject,
    pub sensors: AntennaSensors,
    pub target: Option<Target>,
}

impl Ant {
    /// Well-formed agent: caps positive and bounded, speed within the cap,
    /// and every stored vector inside the saturation range.
    pub open spec fn wf(self) -> bool {
        &&& 0 < self.physics.max_speed.0 <= CAP_LIMIT
        &&& 0 < self.physics.max_force.0 <= CAP_LIMIT
        &&& norm_sq(self.physics.velocity.0)
            <= self.physics.max_speed.0 * self.physics.max_speed.0
        &&& mag(self.position.x as int) <= LIMIT
        &&& mag(self.position.y as int) <= LIMIT
        &&& mag(self.physics.acceleration.0.x as int) <= LIMIT
        &&& mag(self.physics.acceleration.0.y as int) <= LIMIT
        &&& mag(self.heading.x as int) <= SCALE
        &&& mag(self.heading.y as int) <= SCALE
        &&& mag(self.sensors.left_offset.x as int) <= LIMIT
        &&& mag(self.sensors.left_offset.y as int) <= LIMIT
        &&& mag(self.sensors.right_offset.x as int) <= LIMIT
        &&& mag(self.sensors.right_offset.y as int) <= LIMIT
        &&& match self.target {
            Some(t) => mag(t.0.x as int) <= LIMIT && mag(t.0.y as int) <= LIMIT,
            None => true,
        }
    }

    /// World point sampled by the left antenna: the offset rotated by the
    /// heading and translated to the agent's position.
    pub open spec fn left_sample_point(self) -> Vec2 {
        vadd_spec(self.position, rotate_spec(self.sensors.left_offset, self.heading))
    }

    /// World point sampled by the right antenna.
    pub open spec fn right_sample_point(self) -> Vec2 {
        vadd_spec(self.position, rotate_spec(self.sensors.right_offset, self.heading))
    }

    /// The tropotaxis steering term: the right-minus-left intensity
    /// difference, taken as a vector along the local X axis and clamped to
    /// the force cap.
    pub open spec fn tropotaxis_steer_spec(self, field: PheromoneLayer) -> Vec2 {
        clamp_mag_spec(
            Vec2 {
                x: (field.sample_spec(self.right_sample_point())
                    - field.sample_spec(self.left_sample_point())) as i64,
                y: 0,
            },
            self.physics.max_force.0 as int,
        )
    }

    /// The seek steering term toward `tgt`: the difference between the
    /// velocity that would reach the target at full speed and the current
    /// velocity, clamped to the force cap.
    pub open spec fn seek_steer_spec(self, tgt: Vec2) -> Vec2 {
        clamp_mag_spec(
            vsub_spec(
                scale_to_spec(vsub_spec(tgt, self.position), self.physics.max_speed.0 as int),
                self.physics.velocity.0,
            ),
            self.physics.max_force.0 as int,
        )
    }

    /// The velocity after one integration step of length `dt`.
    pub open spec fn integrated_velocity(self, dt: int) -> Vec2 {
        clamp_mag_spec(
            vadd_spec(self.physics.velocity.0, vscale_spec(self.physics.acceleration.0, dt)),
            self.physics.max_speed.0 as int,
        )
    }

    /// Spawn an agent at `position` with the stock sensor geometry, initial
    /// velocity, zero acceleration, and heading along the world X axis.
    pub fn spawn_ant(position: Vec2, target: Option<Target>) -> (r: Ant)
        requires
            mag(position.x as int) <= LIMIT,
            mag(position.y as int) <= LIMIT,
            match target {
                Some(t) => mag(t.0.x as int) <= LIMIT && mag(t.0.y as int) <= LIMIT,
                None => true,
            },
        ensures
            r.wf(),
            r.position == position,
            r.heading == (Vec2 { x: SCALE, y: 0 }),
            r.physics.velocity.0 == (Vec2 { x: SPAWN_VELOCITY, y: SPAWN_VELOCITY }),
            r.physics.acceleration.0 == zero_vec(),
            r.physics.max_speed.0 == MAX_SPEED,
            r.physics.max_force.0 == MAX_FORCE,
            r.sensors.left_offset == (Vec2 { x: ANTENNA_FORWARD, y: ANTENNA_SIDE }),
            r.sensors.right_offset == (Vec2 { x: ANTENNA_FORWARD, y: (-ANTENNA_SIDE) as i64 }),
            r.target == target,
    {
        proof {
            assert((SPAWN_VELOCITY as int) * (SPAWN_VELOCITY as int)
                + (SPAWN_VELOCITY as int) * (SPAWN_VELOCITY as int)
                <= (MAX_SPEED as int) * (MAX_SPEED as int)) by (nonlinear_arith)
                requires
                    SPAWN_VELOCITY == 20_000,
                    MAX_SPEED == 200_000,
            ;
        }
        Ant {
            position,
            heading: Vec2 { x: SCALE, y: 0 },
            physics: PhysicsObject {
                velocity: Velocity(Vec2 { x: SPAWN_VELOCITY, y: SPAWN_VELOCITY }),
                acceleration: Acceleration(Vec2 { x: 0, y: 0 }),
                max_speed: MaxSpeed(MAX_SPEED),
                max_force: MaxForce(MAX_FORCE),
            },
            sensors: AntennaSensors {
                left_offset: Vec2 { x: ANTENNA_FORWARD, y: ANTENNA_SIDE },
                right_offset: Vec2 { x: ANTENNA_FORWARD, y: -ANTENNA_SIDE },
            },
            target,
        }
    }

    /// Antenna steering: sample the field at both antenna points, steer
    /// along the local X axis by the right-minus-left difference, clamp the
    /// term to the force cap, and add it into the acceleration accumulator.
    pub fn update_ants(&mut self, field: &PheromoneLayer)
        requires
            old(self).wf(),
            field.wf(),
        ensures
            final(self).wf(),
            final(self).physics.acceleration.0 == vadd_spec(
                old(self).physics.acceleration.0,
                old(self).tropotaxis_steer_spec(*field),
            ),
            final(self).position == old(self).position,
            final(self).heading == old(self).heading,
            final(self).physics.velocity == old(self).physics.velocity,
            final(self).physics.max_speed == old(self).physics.max_speed,
            final(self).physics.max_force == old(self).physics.max_force,
            final(self).sensors == old(self).sensors,
            final(self).target == old(self).target,
    {
        let left_pos: Vec2 = vadd(self.position, rotate(self.sensors.left_offset, self.heading));
        let right_pos: Vec2 = vadd(self.position, rotate(self.sensors.right_offset, self.heading));
        let left_strength: i64 = field.get(left_pos);
        let right_strength: i64 = field.get(right_pos);
        let steer_dir: i64 = right_strength - left_strength;
        let steer: Vec2 = clamp_magnitude(Vec2 { x: steer_dir, y: 0 }, self.physics.max_force.0);
        self.physics.acceleration = Acceleration(vadd(self.physics.acceleration.0, steer));
    }

    /// Seek steering: when a target is present, steer toward the velocity
    /// that would reach it at full speed, clamp the term to the force cap,
    /// and add it into the acceleration accumulator; without a target the
    /// agent is left alone.
    pub fn update_steering(&mut self)
        requires
            old(self).wf(),
        ensures
            final(self).wf(),
            match old(self).target {
                Some(t) => final(self).physics.acceleration.0 == vadd_spec(
                    old(self).physics.acceleration.0,
                    old(self).seek_steer_spec(t.0),
                ),
                None => final(self).physics.acceleration == old(self).physics.acceleration,
            },
            final(self).position == old(self).position,
            final(self).heading == old(self).heading,
            final(self).physics.velocity == old(self).physics.velocity,
            final(self).physics.max_speed == old(self).physics.max_speed,
            final(self).physics.max_force == old(self).physics.max_force,
            final(self).sensors == old(self).sensors,
            final(self).target == old(self).target,
    {
        let tgt: Target = match self.target {
            Some(t) => t,
            None => {
                return;
            },
        };
        proof {
            lemma_cap_bounds_components(
                self.physics.velocity.0, self.physics.max_speed.0 as int,
            );
        }
        let desired: Vec2 = scale_to(vsub(tgt.0, self.position), self.physics.max_speed.0);
        let steer: Vec2 = clamp_magnitude(
            vsub(desired, self.physics.velocity.0),
            self.physics.max_force.0,
        );
        self.physics.acceleration = Acceleration(vadd(self.physics.acceleration.0, steer));
    }

    /// One integration step of length `dt` (raw thousandths of a second):
    /// velocity absorbs the accumulated acceleration and is clamped to the
    /// speed cap, position advances by the new velocity, the heading tracks
    /// the velocity direction outside the dead zone, and the acceleration
    /// accumulator is reset.  A zero (or negative) `dt` moves nothing but
    /// still resets the accumulator.
    pub fn update_physics(&mut self, dt: i64)
        requires
            old(self).wf(),
            mag(dt as int) <= DT_LIMIT,
        ensures
            final(self).wf(),
            final(self).physics.velocity.0 == old(self).integrated_velocity(dt as int),
            norm_sq(final(self).physics.velocity.0)
                <= old(self).physics.max_speed.0 * old(self).physics.max_speed.0,
            final(self).position == vadd_spec(
                old(self).position,
                vscale_spec(final(self).physics.velocity.0, dt as int),
            ),
            final(self).heading == (if norm_sq(final(self).physics.velocity.0)
                > HEADING_EPS_SQ {
                scale_to_spec(final(self).physics.velocity.0, SCALE as int)
            } else {
                old(self).heading
            }),
            final(self).physics.acceleration.0 == zero_vec(),
            final(self).physics.max_speed == old(self).physics.max_speed,
            final(self).physics.max_force == old(self).physics.max_force,
            final(self).sensors == old(self).sensors,
            final(self).target == old(self).target,
            dt == 0 ==> final(self).physics.velocity == old(self).physics.velocity
                && final(self).position == old(self).position,
    {
        proof {
            lemma_cap_bounds_components(
                self.physics.velocity.0, self.physics.max_speed.0 as int,
            );
            crate::vec2::lemma_mag_mul_bound(
                self.physics.acceleration.0.x as int, dt as int, LIMIT as int, DT_LIMIT as int,
            );
            crate::vec2::lemma_mag_mul_bound(
                self.physics.acceleration.0.y as int, dt as int, LIMIT as int, DT_LIMIT as int,
            );
        }
        let dv: Vec2 = vscale(self.physics.acceleration.0, dt);
        let vel: Vec2 = clamp_magnitude(
            vadd(self.physics.velocity.0, dv),
            self.physics.max_speed.0,
        );
        proof {
            crate::vec2::lemma_mag_mul_bound(
                vel.x as int, dt as int, CAP_LIMIT as int, DT_LIMIT as int,
            );
            crate::vec2::lemma_mag_mul_bound(
                vel.y as int, dt as int, CAP_LIMIT as int, DT_LIMIT as int,
            );
        }
        let step: Vec2 = vscale(vel, dt);
        let pos: Vec2 = vadd(self.position, step);
        let ns: i128 = norm_sq_exec(vel);
        let heading: Vec2 = if ns > HEADING_EPS_SQ as i128 {
            scale_to(vel, SCALE)
        } else {
            self.heading
        };
        proof {
            if dt == 0 {
                lemma_zero_dt_keeps_state(*old(self));
            }
        }
        self.physics.velocity = Velocity(vel);
        self.position = pos;
        self.heading = heading;
        self.physics.acceleration = Acceleration(Vec2 { x: 0, y: 0 });
    }
}

/// A vector whose squared norm is under a cap has components under the cap.
pub proof fn lemma_cap_bounds_components(v: Vec2, m: int)
    requires
        0 <= m,
        norm_sq(v) <= m * m,
    ensures
        mag(v.x as int) <= m,
        mag(v.y as int) <= m,
{
    assert(mag(v.x as int) <= m && mag(v.y as int) <= m) by (nonlinear_arith)
        requires
            (v.x as int) * (v.x as int) + (v.y as int) * (v.y as int) <= m * m,
            0 <= m,
    ;
}

/// With `dt == 0` the scaled acceleration vanishes, the velocity is already
/// inside the speed cap, and saturating adds of zero change nothing, so the
/// integration step fixes both velocity and position.
proof fn lemma_zero_dt_keeps_state(a: Ant)
    requires
        a.wf(),
    ensures
        a.integrated_velocity(0) == a.physics.velocity.0,
        vadd_spec(a.position, vscale_spec(a.integrated_velocity(0), 0)) == a.position,
{
    let v = a.physics.velocity.0;
    assert(vscale_spec(a.physics.acceleration.0, 0) == zero_vec());
    lemma_cap_bounds_components(v, a.physics.max_speed.0 as int);
    assert(vadd_spec(v, zero_vec()) == v);
    assert(a.integrated_velocity(0) == clamp_mag_spec(v, a.physics.max_speed.0 as int));
    assert(clamp_mag_spec(v, a.physics.max_speed.0 as int) == v);
    assert(vscale_spec(v, 0) == zero_vec());
    assert(vadd_spec(a.position, zero_vec()) == a.position);
}

} // verus!
