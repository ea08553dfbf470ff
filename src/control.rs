//! Decisions of a tick that the host carries out on the physical state:
//! how the player's craft is steered, and whether a new entity's drawn
//! position is kept.
use vstd::prelude::*;

use crate::input::{InputManager, Key};

verus! {

#[derive(Clone, Copy, Debug, PartialEq, Eq, Structural)]
pub enum Turn {
    Straight,
    Left,
    Right,
}

/// What the controlled craft does this tick. The thrust flame shows
/// exactly while `thrust` is set.
#[derive(Clone, Copy, Debug, PartialEq, Eq, Structural)]
pub struct ControlCommand {
    pub turn: Turn,
    pub thrust: bool,
}

/// The command for a craft with `air` units of air left, given which of
/// left, right and thrust are held. Out of air, nothing is obeyed; holding
/// both turn keys turns neither way.
pub open spec fn spec_command(air: u64, left_down: bool, right_down: bool, thrust_down: bool) -> ControlCommand {
    if air == 0 {
        ControlCommand { turn: Turn::Straight, thrust: false }
    } else {
        ControlCommand {
            turn: if left_down && !right_down {
                Turn::Left
            } else if right_down && !left_down {
                Turn::Right
            } else {
                Turn::Straight
            },
            thrust: thrust_down,
        }
    }
}

pub fn player_command(air: u64, left_down: bool, right_down: bool, thrust_down: bool) -> (r: ControlCommand)
    ensures
        r == spec_command(air, left_down, right_down, thrust_down),
{
    if air == 0 {
        // out of air, no controls
        return ControlCommand { turn: Turn::Straight, thrust: false };
    }
    let turn = match (left_down, right_down) {
        (true, false) => Turn::Left,
        (false, true) => Turn::Right,
        _ => Turn::Straight,
    };
    ControlCommand { turn, thrust: thrust_down }
}

/// The command from the held keys: arrow left or A, arrow right or D, arrow
/// up or W.
pub fn update_player_controls(input: &InputManager, air: u64) -> (r: ControlCommand)
    ensures
        r == spec_command(
            air,
            input.down().contains(Key::ArrowLeft) || input.down().contains(Key::KeyA),
            input.down().contains(Key::ArrowRight) || input.down().contains(Key::KeyD),
            input.down().contains(Key::ArrowUp) || input.down().contains(Key::KeyW),
        ),
{
    let left_down = input.is_down(Key::ArrowLeft) || input.is_down(Key::KeyA);
    let right_down = input.is_down(Key::ArrowRight) || input.is_down(Key::KeyD);
    let thrust_down = input.is_down(Key::ArrowUp) || input.is_down(Key::KeyW);
    player_command(air, left_down, right_down, thrust_down)
}

#[derive(Clone, Copy, Debug, PartialEq, Eq, Structural)]
pub enum Placement {
    /// Keep the position and add the entity.
    Accept,
    /// Draw a new position.
    Retry,
    /// Add nothing.
    GiveUp,
}

/// After check number `attempt` of `retry_checks` found the drawn position
/// `occupied` or free: a free position is kept; an occupied one is drawn
/// again, except after the last check, where the entity is dropped unless
/// `add_anyway` (then the position drawn next is kept unchecked).
pub fn placement_step(attempt: u32, retry_checks: u32, occupied: bool, add_anyway: bool) -> (r: Placement)
    ensures
        !occupied ==> r == Placement::Accept,
        occupied && attempt == retry_checks && !add_anyway ==> r == Placement::GiveUp,
        occupied && (attempt != retry_checks || add_anyway) ==> r == Placement::Retry,
{
    if !occupied {
        Placement::Accept
    } else if attempt == retry_checks && !add_anyway {
        Placement::GiveUp
    } else {
        Placement::Retry
    }
}

} // verus!
