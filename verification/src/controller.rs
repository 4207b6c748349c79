//! Navigation modes of the unified world-camera controller.

use vstd::prelude::*;

verus! {

/// Operating mode for the world camera.
#[derive(Clone, Copy, Debug, PartialEq, Eq, Structural)]
pub enum Mode {
    /// Unconstrained panning / zooming.
    Free,
    /// Keep the bounds of all automata visible.
    Follow,
    /// One-shot recentre to show all automata once.
    Recenter,
}

impl Default for Mode {
    fn default() -> (r: Self)
        ensures
            r == Mode::Free,
    {
        Mode::Free
    }
}

/// Mode after this frame's toggles: C requests a one-shot recentre, then F
/// toggles follow (from follow back to free, from anything else to follow).
pub open spec fn toggled(mode: Mode, c_just_pressed: bool, f_just_pressed: bool) -> Mode {
    let m = if c_just_pressed {
        Mode::Recenter
    } else {
        mode
    };
    if f_just_pressed {
        if m == Mode::Follow {
            Mode::Free
        } else {
            Mode::Follow
        }
    } else {
        m
    }
}

/// Applies the C / F mode toggles gathered from the keyboard.
pub fn gather_mode_input(mode: Mode, c_just_pressed: bool, f_just_pressed: bool) -> (r: Mode)
    ensures
        r == toggled(mode, c_just_pressed, f_just_pressed),
{
    let mut m = mode;
    if c_just_pressed {
        m = Mode::Recenter;
    }
    if f_just_pressed {
        m = if m == Mode::Follow {
            Mode::Free
        } else {
            Mode::Follow
        };
    }
    m
}

/// What the controller does with its mode this frame.
#[derive(Clone, Copy, Debug, PartialEq, Eq, Structural)]
pub struct ModeStep {
    /// Mode after this frame.
    pub next: Mode,
    /// Fit the camera to the bounds of all automata this frame.
    pub fit: bool,
    /// Stop this frame's update right after the mode change (nothing to show).
    pub stop: bool,
}

/// Free does nothing; Recenter and Follow fit the camera to all automata —
/// with no automata they fall back to Free and stop; Recenter is one-shot.
pub open spec fn mode_step(mode: Mode, no_automata: bool) -> ModeStep {
    match mode {
        Mode::Free => ModeStep { next: Mode::Free, fit: false, stop: false },
        Mode::Recenter => if no_automata {
            ModeStep { next: Mode::Free, fit: false, stop: true }
        } else {
            ModeStep { next: Mode::Free, fit: true, stop: false }
        },
        Mode::Follow => if no_automata {
            ModeStep { next: Mode::Free, fit: false, stop: true }
        } else {
            ModeStep { next: Mode::Follow, fit: true, stop: false }
        },
    }
}

/// Mode-specific part of applying the controller to the world camera.
pub fn apply_mode(mode: Mode, no_automata: bool) -> (r: ModeStep)
    ensures
        r == mode_step(mode, no_automata),
{
    match mode {
        Mode::Free => ModeStep { next: Mode::Free, fit: false, stop: false },
        Mode::Recenter | Mode::Follow => {
            if no_automata {
                return ModeStep { next: Mode::Free, fit: false, stop: true };
            }
            let next = if mode == Mode::Recenter {
                Mode::Free
            } else {
                Mode::Follow
            };
            ModeStep { next, fit: true, stop: false }
        },
    }
}

/// Recentre is one-shot and Follow keeps following: after an update the
/// mode is never Recenter, the camera is fitted exactly when the mode asked
/// for it and automata exist, and Follow persists while automata exist.
pub proof fn lemma_mode_step(mode: Mode, no_automata: bool)
    ensures
        mode_step(mode, no_automata).next != Mode::Recenter,
        mode_step(mode, no_automata).fit <==> (mode != Mode::Free && !no_automata),
        mode == Mode::Follow && !no_automata ==> mode_step(mode, no_automata).next == Mode::Follow,
        no_automata ==> mode_step(mode, no_automata).next == Mode::Free,
{
}

/// F toggles between Free and Follow: pressing it twice restores the mode.
pub proof fn lemma_follow_toggle(mode: Mode)
    requires
        mode != Mode::Recenter,
    ensures
        toggled(toggled(mode, false, true), false, true) == mode,
        toggled(mode, false, true) != mode,
{
}

/// C then an update fits the camera once and returns to Free (when automata
/// exist).
pub proof fn lemma_recenter_once(mode: Mode)
    ensures
        mode_step(toggled(mode, true, false), false) == (ModeStep {
            next: Mode::Free,
            fit: true,
            stop: false,
        }),
{
}

/// The mode changes only on a key press: with neither C nor F pressed every
/// mode stays as it is (Follow keeps following); C alone always asks for a
/// one-shot recentre; F alone turns Follow off to Free and turns any other
/// mode into Follow; C and F together end in Follow.
pub proof fn lemma_mode_changes_only_on_keys(mode: Mode)
    ensures
        toggled(mode, false, false) == mode,
        toggled(mode, true, false) == Mode::Recenter,
        mode == Mode::Follow ==> toggled(mode, false, true) == Mode::Free,
        mode != Mode::Follow ==> toggled(mode, false, true) == Mode::Follow,
        toggled(mode, true, true) == Mode::Follow,
{
}

} // verus!
