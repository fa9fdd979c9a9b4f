//! Who fired a projectile, and whom a projectile can hit.
use vstd::prelude::*;

verus! {

/// The side that fired a projectile.
#[derive(Clone, Copy, PartialEq, Eq, Structural, Debug)]
pub enum ProjectileOwner {
    Player,
    Enemy,
}

impl Default for ProjectileOwner {
    /// A projectile belongs to the player unless said otherwise.
    fn default() -> (owner: Self)
        ensures
            owner == ProjectileOwner::Player,
    {
        ProjectileOwner::Player
    }
}

/// What a projectile may collide with.
#[derive(Clone, Copy, PartialEq, Eq, Structural, Debug)]
pub enum HitTarget {
    /// The player's ship.
    Player,
    /// An active enemy.
    Enemy,
}

/// A projectile hits only the other side: enemy fire hits the player, the
/// player's fire hits enemies.
pub open spec fn spec_can_hit(owner: ProjectileOwner, target: HitTarget) -> bool {
    match (owner, target) {
        (ProjectileOwner::Enemy, HitTarget::Player) => true,
        (ProjectileOwner::Player, HitTarget::Enemy) => true,
        _ => false,
    }
}

/// Whether a projectile fired by `owner` can hit `target`.
pub fn can_hit(owner: ProjectileOwner, target: HitTarget) -> (b: bool)
    ensures
        b == spec_can_hit(owner, target),
{
    match target {
        HitTarget::Player => !matches!(owner, ProjectileOwner::Player),
        HitTarget::Enemy => !matches!(owner, ProjectileOwner::Enemy),
    }
}

/// No projectile can hit the side that fired it.
pub proof fn lemma_no_friendly_fire(owner: ProjectileOwner)
    ensures
        !spec_can_hit(owner, HitTarget::Player) || owner == ProjectileOwner::Enemy,
        !spec_can_hit(owner, HitTarget::Enemy) || owner == ProjectileOwner::Player,
        spec_can_hit(owner, HitTarget::Player) != spec_can_hit(owner, HitTarget::Enemy),
{
}

} // verus!
