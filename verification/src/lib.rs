//! The verified core of a small shoot-'em-up: the enemy pool, the broad
//! phase of collision detection, the emission rules of enemy bullet
//! patterns, the movement keys and the debug overlays.
use vstd::prelude::*;

pub mod collision;
pub mod input;
pub mod overlay;
pub mod pattern;
pub mod pool;
pub mod projectile;

verus! {

} // verus!
