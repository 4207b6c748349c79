//! Decisions of the world-camera input systems: mouse-drag panning, orbit
//! dragging, keyboard panning direction and keyboard zoom steps.  Cursor
//! positions are carried through unchanged (`P`); the caller turns the
//! returned cursor pairs into camera motion.

use vstd::prelude::*;

verus! {

/// Cursor position where the current drag last was, if a drag is active.
pub struct DragState<P>(pub Option<P>);

impl<P> DragState<P> {
    /// No drag in progress.
    pub fn new() -> (r: Self)
        ensures
            r.0 is None,
    {
        DragState(None)
    }
}

/// Start a right / middle mouse drag: on a fresh press the drag restarts at
/// the cursor (`cursor` is `None` without a single window or cursor).
pub fn begin_drag<P>(
    drag: &mut DragState<P>,
    right_just_pressed: bool,
    middle_just_pressed: bool,
    cursor: Option<P>,
)
    ensures
        (right_just_pressed || middle_just_pressed) ==> final(drag).0 == cursor,
        !(right_just_pressed || middle_just_pressed) ==> final(drag).0 == old(drag).0,
{
    if right_just_pressed || middle_just_pressed {
        drag.0 = cursor;
    }
}

/// Continue the drag: while the right or middle button is held and both the
/// previous and the current cursor position are known, returns
/// `(previous, current)` for panning and moves the drag to the current
/// position.  Without a world camera nothing changes.
pub fn drag_pan<P: Copy>(
    drag: &mut DragState<P>,
    right_held: bool,
    middle_held: bool,
    cursor: Option<P>,
    has_camera: bool,
) -> (r: Option<(P, P)>)
    ensures
        ({
            let go = (right_held || middle_held) && old(drag).0 is Some && cursor is Some
                && has_camera;
            &&& go ==> r == Some((old(drag).0->0, cursor->0)) && final(drag).0 == cursor
            &&& !go ==> r is None && final(drag).0 == old(drag).0
        }),
{
    if !(right_held || middle_held) {
        return None;
    }
    let prev = match drag.0 {
        Some(p) => p,
        None => return None,
    };
    let cur = match cursor {
        Some(c) => c,
        None => return None,
    };
    if !has_camera {
        return None;
    }
    drag.0 = Some(cur);
    Some((prev, cur))
}

/// End the drag when the right or middle button is released.
pub fn end_drag<P>(drag: &mut DragState<P>, right_just_released: bool, middle_just_released: bool)
    ensures
        (right_just_released || middle_just_released) ==> final(drag).0 is None,
        !(right_just_released || middle_just_released) ==> final(drag).0 == old(drag).0,
{
    if right_just_released || middle_just_released {
        drag.0 = None;
    }
}

/// One frame of the camera controller's drag bookkeeping.  `pressed` is the
/// right or middle button being held, `cursor` the cursor of the single
/// window (`None` without one).  Released: the drag ends.  Held: a drag that
/// has not started starts at the cursor; then, with a start and a cursor,
/// the pan goes from the start to the cursor and the drag moves there.
/// Gives the drag afterwards and the pan `(previous, current)`, if any.
pub open spec fn controller_drag<P>(drag: Option<P>, pressed: bool, cursor: Option<P>) -> (
    Option<P>,
    Option<(P, P)>,
) {
    if !pressed {
        (None, None)
    } else {
        let start = if drag is None {
            cursor
        } else {
            drag
        };
        if start is Some && cursor is Some {
            (cursor, Some((start->0, cursor->0)))
        } else {
            (start, None)
        }
    }
}

/// Drag step of the camera controller's input gathering (see
/// [`controller_drag`]); returns the cursor pair to pan by.
pub fn controller_drag_step<P: Copy>(drag: &mut DragState<P>, pressed: bool, cursor: Option<P>) -> (r:
    Option<(P, P)>)
    ensures
        (final(drag).0, r) == controller_drag(old(drag).0, pressed, cursor),
{
    if !pressed {
        drag.0 = None;
        return None;
    }
    if drag.0.is_none() {
        drag.0 = cursor;
    }
    match (drag.0, cursor) {
        (Some(p), Some(c)) => {
            drag.0 = Some(c);
            Some((p, c))
        },
        _ => None,
    }
}

/// Outcome of one frame of orbit input.
pub open spec fn orbit_step<P>(
    drag: Option<P>,
    left_held: bool,
    alt_held: bool,
    window: Option<Option<P>>,
    has_camera: bool,
) -> (Option<P>, Option<(P, P)>) {
    if !(left_held && alt_held) || window is None {
        (drag, None)
    } else if drag is None {
        (window->0, None)
    } else if window->0 is None {
        (drag, None)
    } else if !has_camera {
        (window->0, None)
    } else {
        (window->0, Some((drag->0, window->0->0)))
    }
}

/// Alt + left mouse orbits the camera: with a single window (`window` holds
/// its cursor), the first frame only records the cursor; later frames move
/// the drag to the current cursor and, with a world camera, return
/// `(previous, current)` for the rotation.
pub fn orbit_camera<P: Copy>(
    drag: &mut DragState<P>,
    left_held: bool,
    alt_held: bool,
    window: Option<Option<P>>,
    has_camera: bool,
) -> (r: Option<(P, P)>)
    ensures
        (final(drag).0, r) == orbit_step(old(drag).0, left_held, alt_held, window, has_camera),
{
    if !(left_held && alt_held) {
        return None;
    }
    let cursor = match window {
        Some(c) => c,
        None => return None,
    };
    let prev = match drag.0 {
        None => {
            drag.0 = cursor;
            return None;
        },
        Some(p) => p,
    };
    let cur = match cursor {
        Some(c) => c,
        None => return None,
    };
    drag.0 = Some(cur);
    if !has_camera {
        return None;
    }
    Some((prev, cur))
}

/// Clear the orbit drag when the left button is released.
pub fn end_orbit<P>(drag: &mut DragState<P>, left_just_released: bool)
    ensures
        left_just_released ==> final(drag).0 is None,
        !left_just_released ==> final(drag).0 == old(drag).0,
{
    if left_just_released {
        drag.0 = None;
    }
}

/// Keys held this frame that pan the camera.
#[derive(Clone, Copy, Debug, PartialEq, Eq, Structural)]
pub struct PanKeys {
    pub w: bool,
    pub s: bool,
    pub a: bool,
    pub d: bool,
    pub arrow_up: bool,
    pub arrow_down: bool,
    pub arrow_left: bool,
    pub arrow_right: bool,
}

/// `1` when `b` holds, else `0`.
pub open spec fn unit(b: bool) -> int {
    if b {
        1
    } else {
        0
    }
}

/// Screen-space pan direction: up (W / ↑) and down (S / ↓) add ±1 on y,
/// right (D / →) and left (A / ←) add ±1 on x; `None` when the result is
/// zero (no pan this frame).
pub fn key_pan_direction(keys: PanKeys) -> (r: Option<(i32, i32)>)
    ensures
        ({
            let x = unit(keys.d || keys.arrow_right) - unit(keys.a || keys.arrow_left);
            let y = unit(keys.w || keys.arrow_up) - unit(keys.s || keys.arrow_down);
            &&& (x == 0 && y == 0) ==> r is None
            &&& !(x == 0 && y == 0) ==> r == Some((x as i32, y as i32))
        }),
{
    let mut x: i32 = 0;
    let mut y: i32 = 0;
    if keys.w || keys.arrow_up {
        y += 1;
    }
    if keys.s || keys.arrow_down {
        y -= 1;
    }
    if keys.d || keys.arrow_right {
        x += 1;
    }
    if keys.a || keys.arrow_left {
        x -= 1;
    }
    if x == 0 && y == 0 {
        None
    } else {
        Some((x, y))
    }
}

/// One keyboard zoom step.
#[derive(Clone, Copy, Debug, PartialEq, Eq, Structural)]
pub enum ZoomStep {
    /// Divide the orthographic scale by the zoom factor (Z).
    In,
    /// Multiply the orthographic scale by the zoom factor (X).
    Out,
}

/// Z zooms in, X zooms out; pressing both (or neither) does nothing.
pub fn zoom_key_step(z_just_pressed: bool, x_just_pressed: bool) -> (r: Option<ZoomStep>)
    ensures
        r == (if z_just_pressed && !x_just_pressed {
            Some(ZoomStep::In)
        } else if x_just_pressed && !z_just_pressed {
            Some(ZoomStep::Out)
        } else {
            None
        }),
{
    if !(z_just_pressed ^ x_just_pressed) {
        return None;
    }
    if z_just_pressed {
        Some(ZoomStep::In)
    } else {
        Some(ZoomStep::Out)
    }
}

/// A drag never pans from a stale position: once a pan step has happened the
/// drag sits at the cursor just used, and a release always ends the drag.
pub proof fn lemma_drag_follows_cursor<P>(prev: Option<P>, cursor: Option<P>)
    ensures
        orbit_step(prev, true, true, Some(cursor), true).1 matches Some(pair) ==> orbit_step(
            prev,
            true,
            true,
            Some(cursor),
            true,
        ).0 == Some(pair.1),
{
}

/// Opposite pan keys cancel, and a direction never exceeds one step per axis.
pub proof fn lemma_pan_direction_bounded(keys: PanKeys)
    ensures
        -1 <= unit(keys.d || keys.arrow_right) - unit(keys.a || keys.arrow_left) <= 1,
        -1 <= unit(keys.w || keys.arrow_up) - unit(keys.s || keys.arrow_down) <= 1,
        (keys.w && keys.s) ==> unit(keys.w || keys.arrow_up) - unit(keys.s || keys.arrow_down)
            == 0,
        (keys.a && keys.d) ==> unit(keys.d || keys.arrow_right) - unit(keys.a || keys.arrow_left)
            == 0,
{
}

} // verus!
