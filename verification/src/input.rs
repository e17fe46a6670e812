//! Pointer state reported by the surrounding input layer, and the per-tick
//! deposit rule it gates.
//!
//! The presentation shell turns raw window events into plain values (a world
//! point under the cursor, button transitions); this module holds that state
//! and decides what the simulation does with it.

use vstd::prelude::*;
use crate::fixed::SCALE;
use crate::vec2::Vec2;
use crate::pheromone::PheromoneLayer;

verus! {

/// Amount one held-button deposit writes per tick: 5 world units.
pub const DEPOSIT_AMOUNT: i64 = 5 * SCALE;

/// A pointer button, as the input layer reports it.
#[derive(Clone, Copy, PartialEq, Eq, Structural, Debug)]
pub enum MouseButton {
    Left,
    Right,
    Other,
}

/// Latest cursor position in world coordinates; `None` before any cursor
/// event arrived.
#[derive(Clone, Copy, PartialEq, Eq, Structural, Debug)]
pub struct MousePosition(pub Option<Vec2>);

/// Held-state of the two tracked pointer buttons.
#[derive(Clone, Copy, PartialEq, Eq, Structural, Debug)]
pub struct MouseButtons {
    pub left: bool,
    pub right: bool,
}

impl MousePosition {
    pub fn new() -> (r: MousePosition)
        ensures
            r.0 is None,
    {
        MousePosition(None)
    }

    /// Record the cursor's world position when the input layer resolved one;
    /// keep the last known position otherwise.
    pub fn update_mouse_position(&mut self, world_pos: Option<Vec2>)
        ensures
            final(self).0 == (match world_pos {
                Some(p) => Some(p),
                None => old(self).0,
            }),
    {
        match world_pos {
            Some(p) => {
                self.0 = Some(p);
            },
            None => {},
        }
    }
}

impl MouseButtons {
    pub fn new() -> (r: MouseButtons)
        ensures
            !r.left,
            !r.right,
    {
        MouseButtons { left: false, right: false }
    }

    /// Fold one button transition into the held-state: the left and right
    /// flags track their own button, any other button is ignored.
    pub fn update_mouse_buttons(&mut self, button: MouseButton, pressed: bool)
        ensures
            final(self).left == (if button == MouseButton::Left {
                pressed
            } else {
                old(self).left
            }),
            final(self).right == (if button == MouseButton::Right {
                pressed
            } else {
                old(self).right
            }),
    {
        if button == MouseButton::Left {
            self.left = pressed;
        } else if button == MouseButton::Right {
            self.right = pressed;
        }
    }
}

/// The per-tick deposit rule: while the cursor has a known position and the
/// primary button is held, deposit the fixed amount there; otherwise leave
/// the field alone.
pub fn mouse_deposit_pheromone(
    pheromones: &mut PheromoneLayer, cursor: Option<Vec2>, left_pressed: bool,
)
    requires
        old(pheromones).wf(),
    ensures
        final(pheromones).wf(),
        final(pheromones).width == old(pheromones).width,
        final(pheromones).height == old(pheromones).height,
        final(pheromones).cell_size == old(pheromones).cell_size,
        final(pheromones).mode == old(pheromones).mode,
        final(pheromones).values@ == (match cursor {
            Some(p) => if left_pressed {
                old(pheromones).deposit_values_spec(p, DEPOSIT_AMOUNT)
            } else {
                old(pheromones).values@
            },
            None => old(pheromones).values@,
        }),
{
    match cursor {
        Some(position) => {
            if left_pressed {
                pheromones.deposit(position, DEPOSIT_AMOUNT);
            }
        },
        None => {},
    }
}

} // verus!
