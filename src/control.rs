//! What the player's input asks of the game on a tick.

use vstd::prelude::*;
use crate::game::SnakeControl;

verus! {

#[derive(Clone, Copy, PartialEq, Eq, Debug, Structural)]
pub enum UIControl {
    /// Steer the snake (or leave it be).
    SnakeControl(SnakeControl),
    /// Stop the game.
    ExitProgram,
}

impl UIControl {
    /// The steering that this input carries; none for a request to stop.
    pub fn get_snake_control(self) -> (r: SnakeControl)
        ensures
            r == match self {
                UIControl::SnakeControl(c) => c,
                UIControl::ExitProgram => SnakeControl::Idle,
            },
    {
        match self {
            UIControl::SnakeControl(c) => c,
            UIControl::ExitProgram => SnakeControl::Idle,
        }
    }
}

} // verus!
