//! Turning the movement keys into a direction of movement.
use vstd::prelude::*;

verus! {

/// A direction of movement on the two axes, each component -1, 0 or 1:
/// `x` grows to the right, `y` grows upwards.
#[derive(Clone, Copy, PartialEq, Eq, Structural, Debug)]
pub struct MoveDirection {
    pub x: i32,
    pub y: i32,
}

/// 1 for a held key, 0 otherwise.
pub open spec fn held(b: bool) -> int {
    if b { 1 } else { 0 }
}

/// The direction that the held keys ask for: up and right count +1, down and
/// left count -1, so that opposite keys cancel.
pub open spec fn spec_movement_direction(up: bool, down: bool, left: bool, right: bool) -> MoveDirection {
    MoveDirection {
        x: (held(right) - held(left)) as i32,
        y: (held(up) - held(down)) as i32,
    }
}

/// Maps the state of the up, down, left and right keys (W, S, A, D) to a
/// direction of movement.
pub fn movement_direction(up: bool, down: bool, left: bool, right: bool) -> (d: MoveDirection)
    ensures
        d == spec_movement_direction(up, down, left, right),
        d.x == held(right) - held(left),
        d.y == held(up) - held(down),
{
    let mut direction = MoveDirection { x: 0, y: 0 };
    if up {
        direction.y = direction.y + 1;
    }
    if down {
        direction.y = direction.y - 1;
    }
    if left {
        direction.x = direction.x - 1;
    }
    if right {
        direction.x = direction.x + 1;
    }
    direction
}

/// Opposite keys held together cancel on their axis, each component of the
/// direction is -1, 0 or 1, and no key held means no movement.
pub proof fn lemma_direction_bounds(up: bool, down: bool, left: bool, right: bool)
    ensures
        up == down ==> spec_movement_direction(up, down, left, right).y == 0,
        left == right ==> spec_movement_direction(up, down, left, right).x == 0,
        -1 <= spec_movement_direction(up, down, left, right).x <= 1,
        -1 <= spec_movement_direction(up, down, left, right).y <= 1,
        !up && !down && !left && !right ==> spec_movement_direction(up, down, left, right)
            == (MoveDirection { x: 0, y: 0 }),
{
}

} // verus!
