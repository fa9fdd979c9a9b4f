//! The firing rules of enemy bullet patterns.
//!
//! Each frame an enemy's emitter ticks two timers: the fire rate and the
//! cooldown between bursts. When the cooldown has just run out the pattern
//! starts over. While the cooldown is running, or when the fire rate has not
//! just come round, nothing is fired. A ring pattern launches its bullets
//! from the free projectile pool; a spinning pattern launches a pair per shot
//! until it has released all its pairs, and then restarts its cooldown.
use vstd::prelude::*;

verus! {

/// The countable part of an enemy's bullet pattern.
#[derive(Clone, Copy, PartialEq, Eq, Structural, Debug)]
pub enum PatternShape {
    /// A ring of `bullet_count` bullets per shot.
    Ring { bullet_count: usize },
    /// A burst of `pairs` pairs of bullets aimed at the player, one pair per
    /// shot.
    Spinning { pairs: usize },
}

/// What an emitter does in one frame.
#[derive(Clone, Copy, PartialEq, Eq, Structural, Debug)]
pub struct EmitPlan {
    /// The pattern state was reset because the cooldown just ran out.
    pub reset_state: bool,
    /// The cooldown timer is restarted: a spinning burst is complete.
    pub reset_cooldown: bool,
    /// How many launches are made: each takes the first free projectile.
    pub launches: usize,
    /// A spinning pair was fired: the pair count and the angle advance.
    pub pair_advanced: bool,
    /// The number of pairs released in the current burst, after the frame.
    pub pairs_released: usize,
}

/// The plan for a frame, given the pattern, the pairs released so far, the
/// state of the two timers after ticking, and the number of free
/// projectiles.
pub open spec fn spec_plan_emission(
    shape: PatternShape,
    pairs_released: usize,
    cooldown_just_finished: bool,
    cooldown_finished: bool,
    fire_just_finished: bool,
    free_projectiles: usize,
) -> EmitPlan {
    let released: usize = if cooldown_just_finished { 0 } else { pairs_released };
    if !cooldown_finished || !fire_just_finished {
        EmitPlan {
            reset_state: cooldown_just_finished,
            reset_cooldown: false,
            launches: 0,
            pair_advanced: false,
            pairs_released: released,
        }
    } else {
        match shape {
            PatternShape::Ring { bullet_count } => EmitPlan {
                reset_state: cooldown_just_finished,
                reset_cooldown: false,
                launches: if free_projectiles > 0 { bullet_count } else { 0 },
                pair_advanced: false,
                pairs_released: released,
            },
            PatternShape::Spinning { pairs } => if released >= pairs {
                EmitPlan {
                    reset_state: cooldown_just_finished,
                    reset_cooldown: true,
                    launches: 0,
                    pair_advanced: false,
                    pairs_released: released,
                }
            } else {
                EmitPlan {
                    reset_state: cooldown_just_finished,
                    reset_cooldown: false,
                    launches: if free_projectiles < 2 { free_projectiles } else { 2 },
                    pair_advanced: true,
                    pairs_released: (released + 1) as usize,
                }
            },
        }
    }
}

/// Decides what an enemy's emitter does this frame.
pub fn plan_emission(
    shape: PatternShape,
    pairs_released: usize,
    cooldown_just_finished: bool,
    cooldown_finished: bool,
    fire_just_finished: bool,
    free_projectiles: usize,
) -> (plan: EmitPlan)
    ensures
        plan == spec_plan_emission(
            shape,
            pairs_released,
            cooldown_just_finished,
            cooldown_finished,
            fire_just_finished,
            free_projectiles,
        ),
        plan.reset_cooldown ==> (shape matches PatternShape::Spinning { pairs }
            && (if cooldown_just_finished { 0 } else { pairs_released }) >= pairs),
        plan.pair_advanced ==> shape is Spinning && plan.launches == (if free_projectiles < 2 {
            free_projectiles
        } else {
            2
        }),
        plan.reset_state == cooldown_just_finished,
        !plan.pair_advanced ==> plan.pairs_released == (if cooldown_just_finished {
            0
        } else {
            pairs_released
        }),
        (!cooldown_finished || !fire_just_finished) ==> plan.launches == 0 && !plan.pair_advanced
            && !plan.reset_cooldown,
        shape matches PatternShape::Ring { bullet_count } ==> ((cooldown_finished
            && fire_just_finished) ==> !plan.reset_cooldown && plan.launches == (
        if free_projectiles > 0 {
            bullet_count
        } else {
            0
        })),
{
    let released: usize = if cooldown_just_finished { 0 } else { pairs_released };
    if !cooldown_finished || !fire_just_finished {
        return EmitPlan {
            reset_state: cooldown_just_finished,
            reset_cooldown: false,
            launches: 0,
            pair_advanced: false,
            pairs_released: released,
        };
    }
    match shape {
        PatternShape::Ring { bullet_count } => {
            // Every launch of a ring takes the first free projectile; none
            // is launched when the pool of free projectiles is empty.
            let launches: usize = if free_projectiles > 0 { bullet_count } else { 0 };
            EmitPlan {
                reset_state: cooldown_just_finished,
                reset_cooldown: false,
                launches,
                pair_advanced: false,
                pairs_released: released,
            }
        },
        PatternShape::Spinning { pairs } => {
            if released >= pairs {
                EmitPlan {
                    reset_state: cooldown_just_finished,
                    reset_cooldown: true,
                    launches: 0,
                    pair_advanced: false,
                    pairs_released: released,
                }
            } else {
                let launches: usize = if free_projectiles < 2 { free_projectiles } else { 2 };
                EmitPlan {
                    reset_state: cooldown_just_finished,
                    reset_cooldown: false,
                    launches,
                    pair_advanced: true,
                    pairs_released: released + 1,
                }
            }
        },
    }
}

/// The cooldown is restarted only by a spinning pattern, and only when its
/// burst is complete: every pair of the burst had been released before the
/// frame (the count starting again at zero when the cooldown just ran out).
/// A ring never restarts the cooldown, and fires its full bullet count on
/// every frame in which the fire rate comes round and a projectile is free.
pub proof fn lemma_cooldown_restart_only_after_burst(
    shape: PatternShape,
    pairs_released: usize,
    cooldown_just_finished: bool,
    cooldown_finished: bool,
    fire_just_finished: bool,
    free_projectiles: usize,
)
    ensures
        ({
            let plan = spec_plan_emission(
                shape,
                pairs_released,
                cooldown_just_finished,
                cooldown_finished,
                fire_just_finished,
                free_projectiles,
            );
            let start: usize = if cooldown_just_finished { 0 } else { pairs_released };
            &&& plan.reset_cooldown ==> (shape matches PatternShape::Spinning { pairs } && start
                >= pairs && cooldown_finished && fire_just_finished)
            &&& (shape matches PatternShape::Spinning { pairs } && start >= pairs
                && cooldown_finished && fire_just_finished) ==> plan.reset_cooldown
            &&& shape is Ring ==> !plan.reset_cooldown && !plan.pair_advanced
                && plan.pairs_released == start
            &&& plan.reset_state == cooldown_just_finished
            &&& shape matches PatternShape::Ring { bullet_count } ==> ((cooldown_finished
                && fire_just_finished && free_projectiles > 0) ==> plan.launches == bullet_count)
        }),
{
}

/// Every shot of a spinning burst is a full pair, whichever pair of the
/// burst it is: two bullets, or as many as there are free projectiles when
/// fewer than two are free. The pair count grows by one per shot.
pub proof fn lemma_every_pair_is_full(
    pairs: usize,
    pairs_released: usize,
    cooldown_just_finished: bool,
    cooldown_finished: bool,
    fire_just_finished: bool,
    free_projectiles: usize,
)
    ensures
        ({
            let plan = spec_plan_emission(
                PatternShape::Spinning { pairs },
                pairs_released,
                cooldown_just_finished,
                cooldown_finished,
                fire_just_finished,
                free_projectiles,
            );
            let start: usize = if cooldown_just_finished { 0 } else { pairs_released };
            &&& plan.pair_advanced <==> (cooldown_finished && fire_just_finished && start < pairs)
            &&& plan.pair_advanced ==> plan.launches == (if free_projectiles < 2 {
                free_projectiles
            } else {
                2
            }) && plan.pairs_released == start + 1
            &&& (plan.pair_advanced && free_projectiles >= 2) ==> plan.launches == 2
        }),
{
}

/// A spinning burst never releases more pairs than it has, fires at most
/// two bullets a shot and never more than there are free projectiles, and
/// restarts its cooldown only once all its pairs are out.
pub proof fn lemma_spinning_bounds(
    pairs: usize,
    pairs_released: usize,
    cooldown_just_finished: bool,
    cooldown_finished: bool,
    fire_just_finished: bool,
    free_projectiles: usize,
)
    requires
        pairs_released <= pairs,
    ensures
        ({
            let plan = spec_plan_emission(
                PatternShape::Spinning { pairs },
                pairs_released,
                cooldown_just_finished,
                cooldown_finished,
                fire_just_finished,
                free_projectiles,
            );
            &&& plan.pairs_released <= pairs
            &&& plan.launches <= 2
            &&& plan.launches <= free_projectiles
            &&& plan.reset_cooldown ==> plan.pairs_released == pairs
            &&& plan.pair_advanced <==> plan.pairs_released == (if cooldown_just_finished {
                0
            } else {
                pairs_released
            }) + 1
        }),
{
}

/// Nothing is fired while the cooldown runs or the fire rate has not just
/// come round, and a frame in which the cooldown runs out starts the burst
/// over.
pub proof fn lemma_idle_frames(
    shape: PatternShape,
    pairs_released: usize,
    cooldown_just_finished: bool,
    cooldown_finished: bool,
    fire_just_finished: bool,
    free_projectiles: usize,
)
    ensures
        ({
            let plan = spec_plan_emission(
                shape,
                pairs_released,
                cooldown_just_finished,
                cooldown_finished,
                fire_just_finished,
                free_projectiles,
            );
            &&& (!cooldown_finished || !fire_just_finished) ==> plan.launches == 0
                && !plan.pair_advanced && !plan.reset_cooldown
            &&& free_projectiles == 0 ==> plan.launches == 0
            &&& cooldown_just_finished ==> plan.reset_state && plan.pairs_released <= 1
        }),
{
}

} // verus!
