# spaceship

A small Bevy shoot-'em-up whose game rules are verified with Verus.

- `src/` is the verified library:
  - `pool.rs`: the stack of pre-spawned enemy entities, its counters, and
    the pool side of spawning and releasing enemies;
  - `collision.rs`: the broad phase of collision detection, a spatial hash
    of projectiles searched around each target's cell;
  - `projectile.rs`: which side fired a projectile and whom it can hit;
  - `pattern.rs`: the firing rules of enemy bullet patterns;
  - `input.rs`: the movement keys as a direction;
  - `overlay.rs`: the debug overlays toggled by a key.
- `app/` is the Bevy application: plugins, systems, components, rendering,
  the UI, and everything computed on floats (motion, positions, box overlap,
  timers), which calls into the library for the rules above.
- `tests/` exercises the library.
