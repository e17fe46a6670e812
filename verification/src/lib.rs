//! Core of a stigmergic-navigation simulation: mobile agents deposit and
//! sense a decaying scalar field ("pheromone") on a dense 2D grid and steer
//! by comparing bilateral antenna readings, optionally blended with a
//! seek force toward a target point.
//!
//! All quantities are stored in fixed point: an `i64` counts thousandths of a
//! world unit (see [`fixed::SCALE`]), so every operation is exact integer
//! arithmetic and every contract is stated over mathematical integers.

pub mod fixed;
pub mod vec2;
pub mod pheromone;
pub mod physics;
pub mod input;
pub mod sim;
pub mod laws;
