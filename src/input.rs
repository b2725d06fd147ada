//! The per-tick input facts the game consumes.
use vstd::prelude::*;

verus! {

/// What the player holds or has just pressed during one tick.
#[derive(Clone, Copy, Debug, PartialEq, Eq, Structural)]
pub struct Inputs {
    pub steer_left: bool,
    pub steer_right: bool,
    pub accelerate: bool,
    pub fire_left: bool,
    pub fire_right: bool,
    pub start: bool,
    pub hard_start: bool,
    pub restart: bool,
}

impl Inputs {
    /// A tick with nothing held or pressed.
    pub fn none() -> (r: Inputs)
        ensures
            !r.steer_left && !r.steer_right && !r.accelerate && !r.fire_left && !r.fire_right
                && !r.start && !r.hard_start && !r.restart,
    {
        Inputs {
            steer_left: false,
            steer_right: false,
            accelerate: false,
            fire_left: false,
            fire_right: false,
            start: false,
            hard_start: false,
            restart: false,
        }
    }
}

} // verus!
