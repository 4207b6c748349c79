//! Two-camera (UI + world) stack: spawn-time settings and the clear-colour /
//! activation switching applied when the application enters or leaves the
//! main menu and the game.

use vstd::prelude::*;
use crate::state::AppState;

verus! {

/// Render layer of the UI camera.
pub const UI_LAYER: u8 = 0;
/// Render layer of the world camera.
pub const WORLD_LAYER: u8 = 1;
/// Draw order of the UI camera (drawn last).
pub const UI_ORDER: isize = 100;
/// Draw order of the world camera.
pub const WORLD_ORDER: isize = 2;

/// Which of the two managed cameras an entity is.
#[derive(Clone, Copy, Debug, PartialEq, Eq, Structural)]
pub enum CameraKind {
    Ui,
    World,
}

/// How a camera clears its target before drawing.
#[derive(Clone, Copy, Debug, PartialEq, Eq, Structural)]
pub enum ClearColor {
    /// Clear to the application's default clear colour (solid background).
    Default,
    /// Clear to a camera-specific colour.
    Custom,
    /// Do not clear (transparent overlay).
    NoClear,
}

/// Entity visibility.
#[derive(Clone, Copy, Debug, PartialEq, Eq, Structural)]
pub enum Visibility {
    Inherited,
    Hidden,
    Visible,
}

/// The camera settings this module manages.
#[derive(Clone, Copy, Debug, PartialEq, Eq, Structural)]
pub struct CameraState {
    pub kind: CameraKind,
    pub order: isize,
    pub is_active: bool,
    pub clear_color: ClearColor,
    pub visibility: Visibility,
    pub layer: u8,
}

/// The UI camera as spawned: drawn last, active, not clearing.
pub open spec fn spawned_ui() -> CameraState {
    CameraState {
        kind: CameraKind::Ui,
        order: UI_ORDER,
        is_active: true,
        clear_color: ClearColor::NoClear,
        visibility: Visibility::Inherited,
        layer: UI_LAYER,
    }
}

/// The world camera as spawned: inactive and hidden until gameplay starts.
pub open spec fn spawned_world() -> CameraState {
    CameraState {
        kind: CameraKind::World,
        order: WORLD_ORDER,
        is_active: false,
        clear_color: ClearColor::Default,
        visibility: Visibility::Hidden,
        layer: WORLD_LAYER,
    }
}

/// The two cameras spawned at start-up: the UI camera, then the world camera.
pub fn spawn_cameras() -> (r: Vec<CameraState>)
    ensures
        r@ == seq![spawned_ui(), spawned_world()],
{
    let mut r: Vec<CameraState> = Vec::new();
    r.push(
        CameraState {
            kind: CameraKind::Ui,
            order: UI_ORDER,
            is_active: true,
            clear_color: ClearColor::NoClear,
            visibility: Visibility::Inherited,
            layer: UI_LAYER,
        },
    );
    r.push(
        CameraState {
            kind: CameraKind::World,
            order: WORLD_ORDER,
            is_active: false,
            clear_color: ClearColor::Default,
            visibility: Visibility::Hidden,
            layer: WORLD_LAYER,
        },
    );
    assert(r@ =~= seq![spawned_ui(), spawned_world()]);
    r
}

/// Entering the game: the world camera is switched on and shown; the UI
/// camera stays untouched.
pub open spec fn world_activated(c: CameraState) -> CameraState {
    match c.kind {
        CameraKind::World => CameraState { is_active: true, visibility: Visibility::Inherited, ..c },
        CameraKind::Ui => c,
    }
}

/// Entering the main menu: the UI camera clears to the default colour
/// (solid background) and is shown; the world camera is switched off and
/// hidden to avoid wasted draws.
pub open spec fn menu_entered(c: CameraState) -> CameraState {
    match c.kind {
        CameraKind::Ui => CameraState {
            is_active: true,
            clear_color: ClearColor::Default,
            visibility: Visibility::Inherited,
            ..c
        },
        CameraKind::World => CameraState { is_active: false, visibility: Visibility::Hidden, ..c },
    }
}

/// Leaving the main menu: the UI camera goes back to transparent overlay.
pub open spec fn menu_left(c: CameraState) -> CameraState {
    match c.kind {
        CameraKind::Ui => CameraState { clear_color: ClearColor::NoClear, ..c },
        CameraKind::World => c,
    }
}

/// Applies `f` to every camera.
pub open spec fn each(cams: Seq<CameraState>, f: spec_fn(CameraState) -> CameraState) -> Seq<
    CameraState,
> {
    cams.map_values(f)
}

/// Switches the world camera on when the game is entered.
pub fn activate_world_camera(cams: &mut Vec<CameraState>)
    ensures
        final(cams)@ == each(old(cams)@, |c: CameraState| world_activated(c)),
{
    let n = cams.len();
    for i in 0..n
        invariant
            n == cams@.len(),
            cams@.len() == old(cams)@.len(),
            forall|k: int| 0 <= k < i ==> #[trigger] cams@[k] == world_activated(old(cams)@[k]),
            forall|k: int| i <= k < n ==> #[trigger] cams@[k] == old(cams)@[k],
    {
        let c = cams[i];
        if c.kind == CameraKind::World {
            cams.set(i, CameraState { is_active: true, visibility: Visibility::Inherited, ..c });
        }
    }
    assert(cams@ =~= each(old(cams)@, |c: CameraState| world_activated(c)));
}

/// Entering the main menu: the UI camera clears to the default colour and
/// the world camera is shut off.
pub fn ui_camera_enable_clear(cams: &mut Vec<CameraState>)
    ensures
        final(cams)@ == each(old(cams)@, |c: CameraState| menu_entered(c)),
{
    let n = cams.len();
    for i in 0..n
        invariant
            n == cams@.len(),
            cams@.len() == old(cams)@.len(),
            forall|k: int| 0 <= k < i ==> #[trigger] cams@[k] == menu_entered(old(cams)@[k]),
            forall|k: int| i <= k < n ==> #[trigger] cams@[k] == old(cams)@[k],
    {
        let c = cams[i];
        match c.kind {
            CameraKind::Ui => {
                cams.set(
                    i,
                    CameraState {
                        is_active: true,
                        clear_color: ClearColor::Default,
                        visibility: Visibility::Inherited,
                        ..c
                    },
                );
            },
            CameraKind::World => {
                cams.set(i, CameraState { is_active: false, visibility: Visibility::Hidden, ..c });
            },
        }
    }
    assert(cams@ =~= each(old(cams)@, |c: CameraState| menu_entered(c)));
}

/// Leaving the main menu: restore the transparent-overlay UI camera.
pub fn ui_camera_disable_clear(cams: &mut Vec<CameraState>)
    ensures
        final(cams)@ == each(old(cams)@, |c: CameraState| menu_left(c)),
{
    let n = cams.len();
    for i in 0..n
        invariant
            n == cams@.len(),
            cams@.len() == old(cams)@.len(),
            forall|k: int| 0 <= k < i ==> #[trigger] cams@[k] == menu_left(old(cams)@[k]),
            forall|k: int| i <= k < n ==> #[trigger] cams@[k] == old(cams)@[k],
    {
        let c = cams[i];
        if c.kind == CameraKind::Ui {
            cams.set(i, CameraState { clear_color: ClearColor::NoClear, ..c });
        }
    }
    assert(cams@ =~= each(old(cams)@, |c: CameraState| menu_left(c)));
}

/// Camera settings after the application moves from state `from` to `to`:
/// leaving the main menu restores the overlay, then entering the game
/// switches the world camera on, entering the main menu switches to the
/// menu background.  Nothing happens when the state does not change.
pub open spec fn after_transition(c: CameraState, from: AppState, to: AppState) -> CameraState {
    if from == to {
        c
    } else {
        let left = if from == AppState::MainMenu {
            menu_left(c)
        } else {
            c
        };
        if to == AppState::InGame {
            world_activated(left)
        } else if to == AppState::MainMenu {
            menu_entered(left)
        } else {
            left
        }
    }
}

/// Runs the exit and enter camera systems of a state change, in that order.
pub fn on_state_transition(cams: &mut Vec<CameraState>, from: AppState, to: AppState)
    ensures
        final(cams)@ == each(old(cams)@, |c: CameraState| after_transition(c, from, to)),
{
    if from != to {
        if from == AppState::MainMenu {
            ui_camera_disable_clear(cams);
        }
        if to == AppState::InGame {
            activate_world_camera(cams);
        } else if to == AppState::MainMenu {
            ui_camera_enable_clear(cams);
        }
    }
    assert(cams@ =~= each(old(cams)@, |c: CameraState| after_transition(c, from, to)));
}

/// Starting a game from the main menu draws the world under a transparent
/// UI overlay: both spawned cameras end up active and shown, and the UI
/// camera no longer clears, whatever the menu had set.
pub proof fn lemma_menu_to_game(cams: Seq<CameraState>)
    ensures
        forall|k: int|
            0 <= k < cams.len() ==> {
                let c = #[trigger] after_transition(
                    after_transition(cams[k], AppState::Options, AppState::MainMenu),
                    AppState::MainMenu,
                    AppState::InGame,
                );
                &&& c.is_active
                &&& c.visibility == Visibility::Inherited
                &&& c.kind == CameraKind::Ui ==> c.clear_color == ClearColor::NoClear
                &&& c.kind == CameraKind::World ==> c.clear_color == cams[k].clear_color
            },
{
}

/// In the main menu only the UI camera is drawn, with a solid background;
/// entering the menu twice changes nothing more than entering it once.
pub proof fn lemma_menu_entered(c: CameraState)
    ensures
        menu_entered(c).kind == CameraKind::Ui ==> menu_entered(c).is_active && menu_entered(
            c,
        ).clear_color == ClearColor::Default,
        menu_entered(c).kind == CameraKind::World ==> !menu_entered(c).is_active && menu_entered(
            c,
        ).visibility == Visibility::Hidden,
        menu_entered(menu_entered(c)) == menu_entered(c),
        world_activated(world_activated(c)) == world_activated(c),
        menu_left(menu_left(c)) == menu_left(c),
        menu_entered(c).order == c.order && menu_entered(c).layer == c.layer,
{
}

/// Entering the game never touches the UI camera, and leaving the menu
/// never touches the world camera.
pub proof fn lemma_cameras_independent(c: CameraState)
    ensures
        c.kind == CameraKind::Ui ==> world_activated(c) == c,
        c.kind == CameraKind::World ==> menu_left(c) == c,
{
}

/// Entering the game from any other state switches the world camera on and
/// shows it; the UI camera only loses its menu background when the game is
/// entered from the main menu.  Nothing else of either camera changes.
pub proof fn lemma_entering_game(c: CameraState, from: AppState)
    requires
        from != AppState::InGame,
    ensures
        ({
            let d = after_transition(c, from, AppState::InGame);
            &&& d.kind == c.kind && d.order == c.order && d.layer == c.layer
            &&& c.kind == CameraKind::World ==> d.is_active && d.visibility
                == Visibility::Inherited && d.clear_color == c.clear_color
            &&& c.kind == CameraKind::Ui ==> d.is_active == c.is_active && d.visibility
                == c.visibility && d.clear_color == (if from == AppState::MainMenu {
                ClearColor::NoClear
            } else {
                c.clear_color
            })
        }),
{
}

/// Entering the main menu from any other state shows the UI camera with a
/// solid background and switches the world camera off and hides it.
pub proof fn lemma_entering_menu(c: CameraState, from: AppState)
    requires
        from != AppState::MainMenu,
    ensures
        ({
            let d = after_transition(c, from, AppState::MainMenu);
            &&& d.kind == c.kind && d.order == c.order && d.layer == c.layer
            &&& c.kind == CameraKind::Ui ==> d.is_active && d.visibility == Visibility::Inherited
                && d.clear_color == ClearColor::Default
            &&& c.kind == CameraKind::World ==> !d.is_active && d.visibility == Visibility::Hidden
                && d.clear_color == c.clear_color
        }),
{
}

/// Moving between two states other than the game and the main menu changes
/// nothing, except that leaving the main menu drops the UI camera's menu
/// background; staying in a state changes nothing.
pub proof fn lemma_other_transitions(c: CameraState, from: AppState, to: AppState)
    requires
        to != AppState::InGame,
        to != AppState::MainMenu,
    ensures
        after_transition(c, from, to) == (if from == AppState::MainMenu && c.kind == CameraKind::Ui {
            CameraState { clear_color: ClearColor::NoClear, ..c }
        } else {
            c
        }),
        after_transition(c, to, to) == c,
{
}

} // verus!
