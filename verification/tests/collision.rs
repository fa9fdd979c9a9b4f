use spaceship::collision::{broad_phase, cell_key, Cell, CollisionGrid, QUERY_RADIUS};
use spaceship::projectile::{can_hit, HitTarget, ProjectileOwner};

fn c(x: i32, y: i32) -> Cell {
    Cell { x, y }
}

#[test]
fn projectile_owner_defaults_to_player() {
    assert_eq!(ProjectileOwner::default(), ProjectileOwner::Player);
}

#[test]
fn projectiles_hit_only_the_other_side() {
    assert!(can_hit(ProjectileOwner::Enemy, HitTarget::Player));
    assert!(!can_hit(ProjectileOwner::Player, HitTarget::Player));
    assert!(can_hit(ProjectileOwner::Player, HitTarget::Enemy));
    assert!(!can_hit(ProjectileOwner::Enemy, HitTarget::Enemy));
}

#[test]
fn distinct_cells_have_distinct_keys() {
    assert_ne!(cell_key(c(0, 1)), cell_key(c(1, 0)));
    assert_ne!(cell_key(c(-1, 0)), cell_key(c(0, -1)));
    assert_eq!(cell_key(c(0, i32::MIN)), 0);
    assert_eq!(cell_key(c(1, i32::MIN)), 1i64 << 32);
    assert_eq!(cell_key(c(i32::MIN, i32::MIN)), i64::MIN);
    assert_eq!(cell_key(c(i32::MAX, i32::MAX)), i64::MAX);
}

#[test]
fn query_finds_enemy_fire_around_the_player() {
    let cells = vec![c(0, 0), c(1, 1), c(2, 0), c(-1, -1), c(0, 0), c(0, 1)];
    let owners = vec![
        ProjectileOwner::Enemy,
        ProjectileOwner::Enemy,
        ProjectileOwner::Enemy,
        ProjectileOwner::Enemy,
        ProjectileOwner::Player,
        ProjectileOwner::Enemy,
    ];
    let mut grid = CollisionGrid::new(cells, owners);
    let found = grid.query(c(0, 0), HitTarget::Player);
    // Searched row by row: (-1,-1), (-1,0), (-1,1), (0,-1), (0,0), (0,1),
    // (1,-1), (1,0), (1,1). Projectile 2 is two cells away; projectile 4 is
    // the player's own.
    assert_eq!(found, vec![3, 0, 5, 1]);
    assert_eq!(grid.queried_cells().len(), 9);
}

#[test]
fn query_finds_player_fire_around_an_enemy() {
    let cells = vec![c(5, 5), c(5, 5), c(6, 4), c(7, 5)];
    let owners = vec![
        ProjectileOwner::Player,
        ProjectileOwner::Enemy,
        ProjectileOwner::Player,
        ProjectileOwner::Player,
    ];
    let mut grid = CollisionGrid::new(cells, owners);
    assert_eq!(grid.query(c(5, 5), HitTarget::Enemy), vec![0, 2]);
}

#[test]
fn queried_cells_are_recorded_once() {
    let mut grid = CollisionGrid::new(Vec::new(), Vec::new());
    assert!(grid.query(c(0, 0), HitTarget::Player).is_empty());
    assert!(grid.query(c(1, 0), HitTarget::Enemy).is_empty());
    let queried = grid.queried_cells();
    // Two overlapping 3x3 blocks: 9 + 3 new cells.
    assert_eq!(queried.len(), 12);
    for x in -1..=2 {
        for y in -1..=1 {
            assert!(queried.contains(&c(x, y)));
        }
    }
    assert_eq!(QUERY_RADIUS, 1);
}

#[test]
fn broad_phase_searches_player_then_enemies() {
    let cells = vec![c(0, 0), c(10, 10), c(10, 11), c(0, 1)];
    let owners = vec![
        ProjectileOwner::Enemy,
        ProjectileOwner::Player,
        ProjectileOwner::Enemy,
        ProjectileOwner::Player,
    ];
    let enemies = vec![c(10, 10), c(0, 0), c(-50, -50)];
    let r = broad_phase(cells, owners, Some(c(0, 0)), &enemies);
    assert_eq!(r.player, vec![0]);
    assert_eq!(r.enemies, vec![vec![1], vec![3], vec![]]);
    assert_eq!(r.queried.len(), 27);
}

#[test]
fn broad_phase_without_player() {
    let cells = vec![c(0, 0)];
    let owners = vec![ProjectileOwner::Enemy];
    let r = broad_phase(cells, owners, None, &Vec::new());
    assert!(r.player.is_empty());
    assert!(r.enemies.is_empty());
    assert!(r.queried.is_empty());
}

#[test]
fn query_at_the_edge_of_the_grid() {
    let cells = vec![c(i32::MAX, i32::MIN), c(i32::MAX - 1, i32::MIN + 1)];
    let owners = vec![ProjectileOwner::Enemy, ProjectileOwner::Enemy];
    let mut grid = CollisionGrid::new(cells, owners);
    assert_eq!(
        grid.query(c(i32::MAX - 1, i32::MIN + 1), HitTarget::Player),
        vec![1, 0]
    );
}
