use bevy::ecs::entity::Entity;
use spaceship::pool::{return_all_to_pool, return_to_pool, take_for_spawn, EnemyPool, EnemyPoolStats};
use std::collections::HashSet;

const MAX_ENEMIES: usize = 64;

fn filled_pool(n: usize) -> EnemyPool {
    let mut pool = EnemyPool::default();
    for i in 0..n {
        pool.push(Entity::from_bits(i as u64 + 1));
    }
    pool
}

#[test]
fn enemy_pool_acquire_is_atomic() {
    let mut pool = EnemyPool::default();
    let entity = Entity::from_bits(42);
    pool.push(entity);

    let acquired = pool.acquire();
    assert_eq!(acquired, Some(entity));
    assert_eq!(
        pool.acquire(),
        None,
        "second acquire must not return the same entity"
    );
}

#[test]
fn enemy_pool_release_makes_entity_available_again() {
    let mut pool = EnemyPool::default();
    let entity = Entity::from_bits(7);
    pool.release(entity);

    assert_eq!(pool.acquire(), Some(entity));
    assert_eq!(pool.acquire(), None);
}

#[test]
fn enemy_pool_stats_default_is_zero() {
    let stats = EnemyPoolStats::default();
    assert_eq!(stats.failed_spawns, 0);
    assert_eq!(stats.total_releases, 0);
}

#[test]
fn spawn_enemy_when_pool_empty_records_failure() {
    let mut pool = EnemyPool::default();
    let mut stats = EnemyPoolStats::default();

    let result = take_for_spawn(&mut pool, &mut stats);

    assert!(result.is_none());
    assert_eq!(stats.failed_spawns, 1);
}

#[test]
fn release_enemy_makes_entity_inactive_and_returns_to_pool() {
    let mut pool = filled_pool(MAX_ENEMIES);
    let mut stats = EnemyPoolStats::default();

    let entity = take_for_spawn(&mut pool, &mut stats).expect("pool is non-empty");
    assert_eq!(pool.available_count(), MAX_ENEMIES - 1);

    return_to_pool(&mut pool, &mut stats, entity);

    assert_eq!(pool.available_count(), MAX_ENEMIES);
    assert_eq!(stats.total_releases, 1);
}

#[test]
fn enemy_can_be_activated_released_and_activated_again_with_new_state() {
    let mut pool = filled_pool(MAX_ENEMIES);
    let mut stats = EnemyPoolStats::default();

    let entity = take_for_spawn(&mut pool, &mut stats).expect("pool is non-empty");
    return_to_pool(&mut pool, &mut stats, entity);

    let reactivated =
        take_for_spawn(&mut pool, &mut stats).expect("entity should be available again");
    assert_eq!(reactivated, entity, "pool should hand back the same entity");
}

#[test]
fn simultaneous_spawns_acquire_distinct_entities() {
    let mut pool = filled_pool(MAX_ENEMIES);
    let mut stats = EnemyPoolStats::default();

    let mut acquired = Vec::new();
    for _ in 0..MAX_ENEMIES {
        let entity = take_for_spawn(&mut pool, &mut stats).expect("pool should still have entities");
        acquired.push(entity);
    }

    let unique: HashSet<_> = acquired.iter().map(|e| e.index()).collect();
    assert_eq!(unique.len(), acquired.len(), "no entity may be acquired twice");

    let fourth = take_for_spawn(&mut pool, &mut stats);
    assert!(fourth.is_none(), "exhausted pool returns None");
    assert_eq!(
        stats.failed_spawns, 1,
        "exhausted pool increments failed_spawns exactly once"
    );
}

#[test]
fn pool_hands_out_last_released_first() {
    let mut pool = EnemyPool::default();
    pool.push(Entity::from_bits(1));
    pool.push(Entity::from_bits(2));
    pool.release(Entity::from_bits(3));
    assert_eq!(pool.available_count(), 3);
    assert_eq!(pool.acquire(), Some(Entity::from_bits(3)));
    assert_eq!(pool.acquire(), Some(Entity::from_bits(2)));
    assert_eq!(pool.acquire(), Some(Entity::from_bits(1)));
    assert_eq!(pool.acquire(), None);
    assert_eq!(pool.available_count(), 0);
}

#[test]
fn successful_spawn_leaves_counters_alone() {
    let mut pool = filled_pool(2);
    let mut stats = EnemyPoolStats::default();
    assert_eq!(take_for_spawn(&mut pool, &mut stats), Some(Entity::from_bits(2)));
    assert_eq!(stats.failed_spawns, 0);
    assert_eq!(stats.total_releases, 0);
    assert_eq!(pool.available_count(), 1);
}

#[test]
fn releasing_a_batch_returns_every_entity_in_order() {
    let mut pool = filled_pool(1);
    let mut stats = EnemyPoolStats::default();
    let batch = vec![Entity::from_bits(10), Entity::from_bits(11), Entity::from_bits(12)];

    return_all_to_pool(&mut pool, &mut stats, &batch);

    assert_eq!(stats.total_releases, 3);
    assert_eq!(stats.failed_spawns, 0);
    assert_eq!(pool.available_count(), 4);
    assert_eq!(pool.acquire(), Some(Entity::from_bits(12)));
    assert_eq!(pool.acquire(), Some(Entity::from_bits(11)));
    assert_eq!(pool.acquire(), Some(Entity::from_bits(10)));
    assert_eq!(pool.acquire(), Some(Entity::from_bits(1)));
}

#[test]
fn releasing_an_empty_batch_changes_nothing() {
    let mut pool = filled_pool(2);
    let mut stats = EnemyPoolStats::default();
    return_all_to_pool(&mut pool, &mut stats, &Vec::new());
    assert_eq!(stats.total_releases, 0);
    assert_eq!(pool.available_count(), 2);
}
