//! The debug overlays that a key shows and hides.
use vstd::prelude::*;

verus! {

/// Whether the spatial-hash grid is drawn.
#[derive(Clone, Copy, PartialEq, Eq, Structural, Debug)]
pub struct GridOverlay {
    pub visible: bool,
}

impl Default for GridOverlay {
    /// The grid is hidden at first.
    fn default() -> (o: Self)
        ensures
            !o.visible,
    {
        GridOverlay { visible: false }
    }
}

/// Whether the debug window is shown.
#[derive(Clone, Copy, PartialEq, Eq, Structural, Debug)]
pub struct OverlayState {
    pub visible: bool,
}

impl Default for OverlayState {
    /// The debug window is hidden at first.
    fn default() -> (o: Self)
        ensures
            !o.visible,
    {
        OverlayState { visible: false }
    }
}

/// The visibility after a frame in which the toggle key was, or was not,
/// just pressed.
pub open spec fn toggled(visible: bool, just_pressed: bool) -> bool {
    if just_pressed { !visible } else { visible }
}

/// Shows or hides the grid when its key (F2) was just pressed; any other
/// frame leaves it as it is.
pub fn toggle_grid_overlay(overlay: &mut GridOverlay, toggle_just_pressed: bool)
    ensures
        final(overlay).visible == toggled(old(overlay).visible, toggle_just_pressed),
{
    if toggle_just_pressed {
        overlay.visible = !overlay.visible;
    }
}

/// Shows or hides the debug window when its key (F1) was just pressed; any
/// other frame leaves it as it is.
pub fn toggle_overlay(state: &mut OverlayState, toggle_just_pressed: bool)
    ensures
        final(state).visible == toggled(old(state).visible, toggle_just_pressed),
{
    if toggle_just_pressed {
        state.visible = !state.visible;
    }
}

/// Pressing the toggle key twice restores the overlay, and a frame without
/// the key changes nothing.
pub proof fn lemma_toggle_twice(visible: bool)
    ensures
        toggled(toggled(visible, true), true) == visible,
        toggled(visible, true) != visible,
        toggled(visible, false) == visible,
{
}

} // verus!
