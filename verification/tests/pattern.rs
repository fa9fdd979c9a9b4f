use spaceship::pattern::{plan_emission, EmitPlan, PatternShape};

const POOL: usize = 256;

#[test]
fn spinning_pattern_releases_pairs() {
    // The cooldown ran out before this frame; the fire rate comes round now.
    let plan = plan_emission(PatternShape::Spinning { pairs: 3 }, 0, false, true, true, POOL);
    assert_eq!(plan.launches, 2, "Should release 2 bullets in first pair");
    assert!(plan.pair_advanced);
    assert_eq!(plan.pairs_released, 1);
}

#[test]
fn spinning_pattern_restarts_cooldown_after_last_pair() {
    let plan = plan_emission(PatternShape::Spinning { pairs: 3 }, 3, false, true, true, POOL);
    assert_eq!(
        plan,
        EmitPlan {
            reset_state: false,
            reset_cooldown: true,
            launches: 0,
            pair_advanced: false,
            pairs_released: 3,
        }
    );
}

#[test]
fn spinning_pattern_with_one_free_projectile_still_counts_the_pair() {
    let plan = plan_emission(PatternShape::Spinning { pairs: 3 }, 1, false, true, true, 1);
    assert_eq!(plan.launches, 1);
    assert_eq!(plan.pairs_released, 2);
}

#[test]
fn nothing_fires_while_cooling_down() {
    let plan = plan_emission(PatternShape::Ring { bullet_count: 8 }, 0, false, false, true, POOL);
    assert_eq!(plan.launches, 0);
    let plan = plan_emission(PatternShape::Spinning { pairs: 3 }, 2, false, true, false, POOL);
    assert_eq!(plan.launches, 0);
    assert_eq!(plan.pairs_released, 2);
}

#[test]
fn cooldown_running_out_restarts_the_burst() {
    let plan = plan_emission(PatternShape::Spinning { pairs: 3 }, 3, true, true, true, POOL);
    assert!(plan.reset_state);
    assert!(!plan.reset_cooldown);
    assert_eq!(plan.launches, 2);
    assert_eq!(plan.pairs_released, 1);
}

#[test]
fn ring_launches_its_bullet_count_when_a_projectile_is_free() {
    let plan = plan_emission(PatternShape::Ring { bullet_count: 24 }, 0, false, true, true, 3);
    assert_eq!(plan.launches, 24);
    let plan = plan_emission(PatternShape::Ring { bullet_count: 24 }, 0, false, true, true, 0);
    assert_eq!(plan.launches, 0);
}
