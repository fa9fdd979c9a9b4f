use spaceship::input::{movement_direction, MoveDirection};
use spaceship::overlay::{toggle_grid_overlay, toggle_overlay, GridOverlay, OverlayState};

#[test]
fn maps_wasd_to_direction() {
    assert_eq!(
        movement_direction(true, false, true, false),
        MoveDirection { x: -1, y: 1 }
    );
}

#[test]
fn cancels_opposite_keys() {
    assert_eq!(
        movement_direction(true, true, true, true),
        MoveDirection { x: 0, y: 0 }
    );
}

#[test]
fn no_key_means_no_movement() {
    assert_eq!(
        movement_direction(false, false, false, false),
        MoveDirection { x: 0, y: 0 }
    );
}

#[test]
fn single_keys_move_along_one_axis() {
    assert_eq!(movement_direction(false, true, false, false), MoveDirection { x: 0, y: -1 });
    assert_eq!(movement_direction(false, false, false, true), MoveDirection { x: 1, y: 0 });
    assert_eq!(movement_direction(true, false, false, true), MoveDirection { x: 1, y: 1 });
}

#[test]
fn toggle_flips_visible_on_f2() {
    let mut overlay = GridOverlay::default();
    let f2_just_pressed = true;
    toggle_grid_overlay(&mut overlay, f2_just_pressed);
    assert!(overlay.visible, "F2 should make the grid overlay visible");
}

#[test]
fn toggle_ignores_other_keys() {
    let mut overlay = GridOverlay::default();
    // F1 is held, F2 is not.
    let f2_just_pressed = false;
    toggle_grid_overlay(&mut overlay, f2_just_pressed);
    assert!(!overlay.visible, "F1 must not toggle the grid overlay");
}

#[test]
fn toggle_off_after_two_presses() {
    let mut overlay = GridOverlay::default();
    toggle_grid_overlay(&mut overlay, true);
    assert!(overlay.visible, "first press should show");
    toggle_grid_overlay(&mut overlay, true);
    assert!(!overlay.visible, "second F2 press should hide the grid overlay");
}

#[test]
fn debug_overlay_toggles_on_its_key() {
    let mut state = OverlayState::default();
    assert!(!state.visible);
    toggle_overlay(&mut state, false);
    assert!(!state.visible);
    toggle_overlay(&mut state, true);
    assert!(state.visible);
    toggle_overlay(&mut state, false);
    assert!(state.visible);
    toggle_overlay(&mut state, true);
    assert!(!state.visible);
}
