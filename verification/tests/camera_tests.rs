use soul_engine::camera::{
    activate_world_camera, on_state_transition, spawn_cameras, ui_camera_disable_clear,
    ui_camera_enable_clear, CameraKind, ClearColor, Visibility, UI_LAYER, WORLD_LAYER,
};
use soul_engine::controller::{apply_mode, gather_mode_input, Mode, ModeStep};
use soul_engine::input::{
    begin_drag, controller_drag_step, drag_pan, end_drag, end_orbit, key_pan_direction, orbit_camera, zoom_key_step,
    DragState, PanKeys, ZoomStep,
};
use soul_engine::math::IVec2;
use soul_engine::origin::{dynamic_snap, WorldOffset, SNAP};
use soul_engine::state::{AppState, MainSet};

#[test]
fn spawned_cameras() {
    let c = spawn_cameras();
    assert_eq!(c.len(), 2);
    assert_eq!(c[0].kind, CameraKind::Ui);
    assert_eq!(c[0].order, 100);
    assert!(c[0].is_active);
    assert_eq!(c[0].clear_color, ClearColor::NoClear);
    assert_eq!(c[0].layer, UI_LAYER);
    assert_eq!(c[1].kind, CameraKind::World);
    assert_eq!(c[1].order, 2);
    assert!(!c[1].is_active);
    assert_eq!(c[1].visibility, Visibility::Hidden);
    assert_eq!(c[1].layer, WORLD_LAYER);
}

#[test]
fn menu_switches_to_solid_background() {
    let mut c = spawn_cameras();
    ui_camera_enable_clear(&mut c);
    assert!(c[0].is_active);
    assert_eq!(c[0].clear_color, ClearColor::Default);
    assert!(!c[1].is_active);
    assert_eq!(c[1].visibility, Visibility::Hidden);
    ui_camera_disable_clear(&mut c);
    assert_eq!(c[0].clear_color, ClearColor::NoClear);
    assert!(c[0].is_active);
}

#[test]
fn entering_game_shows_world_and_keeps_ui() {
    let mut c = spawn_cameras();
    let ui_before = c[0];
    activate_world_camera(&mut c);
    assert_eq!(c[0], ui_before);
    assert!(c[1].is_active);
    assert_eq!(c[1].visibility, Visibility::Inherited);
}

#[test]
fn menu_to_game_transition() {
    let mut c = spawn_cameras();
    on_state_transition(&mut c, AppState::Options, AppState::MainMenu);
    assert_eq!(c[0].clear_color, ClearColor::Default);
    on_state_transition(&mut c, AppState::MainMenu, AppState::InGame);
    assert!(c[0].is_active && c[1].is_active);
    assert_eq!(c[0].clear_color, ClearColor::NoClear);
    assert_eq!(c[1].visibility, Visibility::Inherited);
    let snapshot = c.clone();
    on_state_transition(&mut c, AppState::InGame, AppState::InGame);
    assert_eq!(c, snapshot);
    on_state_transition(&mut c, AppState::InGame, AppState::Paused);
    assert_eq!(c, snapshot);
}

#[test]
fn default_state_is_main_menu() {
    assert_eq!(AppState::default(), AppState::MainMenu);
    assert_ne!(MainSet::Input, MainSet::Render);
}

#[test]
fn drag_cycle() {
    let mut d: DragState<(i32, i32)> = DragState::new();
    assert_eq!(drag_pan(&mut d, true, false, Some((5, 5)), true), None);
    begin_drag(&mut d, false, true, Some((1, 2)));
    assert_eq!(d.0, Some((1, 2)));
    assert_eq!(drag_pan(&mut d, false, false, Some((3, 3)), true), None);
    assert_eq!(drag_pan(&mut d, true, false, Some((3, 4)), false), None);
    assert_eq!(d.0, Some((1, 2)));
    assert_eq!(drag_pan(&mut d, true, false, Some((3, 4)), true), Some(((1, 2), (3, 4))));
    assert_eq!(d.0, Some((3, 4)));
    assert_eq!(drag_pan(&mut d, false, true, None, true), None);
    end_drag(&mut d, false, false);
    assert_eq!(d.0, Some((3, 4)));
    end_drag(&mut d, true, false);
    assert_eq!(d.0, None);
    begin_drag(&mut d, false, false, Some((9, 9)));
    assert_eq!(d.0, None);
}

#[test]
fn orbit_cycle() {
    let mut d: DragState<(i32, i32)> = DragState::new();
    assert_eq!(orbit_camera(&mut d, true, false, Some(Some((1, 1))), true), None);
    assert_eq!(d.0, None);
    assert_eq!(orbit_camera(&mut d, true, true, None, true), None);
    assert_eq!(orbit_camera(&mut d, true, true, Some(Some((1, 1))), true), None);
    assert_eq!(d.0, Some((1, 1)));
    assert_eq!(orbit_camera(&mut d, true, true, Some(Some((4, 0))), true), Some(((1, 1), (4, 0))));
    assert_eq!(orbit_camera(&mut d, true, true, Some(Some((6, 0))), false), None);
    assert_eq!(d.0, Some((6, 0)));
    assert_eq!(orbit_camera(&mut d, true, true, Some(None), true), None);
    assert_eq!(d.0, Some((6, 0)));
    end_orbit(&mut d, true);
    assert_eq!(d.0, None);
}

fn keys() -> PanKeys {
    PanKeys {
        w: false,
        s: false,
        a: false,
        d: false,
        arrow_up: false,
        arrow_down: false,
        arrow_left: false,
        arrow_right: false,
    }
}

#[test]
fn pan_direction_from_keys() {
    assert_eq!(key_pan_direction(keys()), None);
    assert_eq!(key_pan_direction(PanKeys { w: true, ..keys() }), Some((0, 1)));
    assert_eq!(key_pan_direction(PanKeys { arrow_down: true, a: true, ..keys() }), Some((-1, -1)));
    assert_eq!(key_pan_direction(PanKeys { w: true, s: true, ..keys() }), None);
    assert_eq!(key_pan_direction(PanKeys { w: true, arrow_up: true, d: true, ..keys() }), Some((1, 1)));
    assert_eq!(key_pan_direction(PanKeys { arrow_left: true, arrow_right: true, s: true, ..keys() }), Some((0, -1)));
}

#[test]
fn zoom_keys() {
    assert_eq!(zoom_key_step(true, false), Some(ZoomStep::In));
    assert_eq!(zoom_key_step(false, true), Some(ZoomStep::Out));
    assert_eq!(zoom_key_step(true, true), None);
    assert_eq!(zoom_key_step(false, false), None);
}

#[test]
fn controller_modes() {
    assert_eq!(Mode::default(), Mode::Free);
    assert_eq!(gather_mode_input(Mode::Free, true, false), Mode::Recenter);
    assert_eq!(gather_mode_input(Mode::Free, false, true), Mode::Follow);
    assert_eq!(gather_mode_input(Mode::Follow, false, true), Mode::Free);
    assert_eq!(gather_mode_input(Mode::Follow, true, true), Mode::Follow);
    assert_eq!(gather_mode_input(Mode::Recenter, false, false), Mode::Recenter);
    assert_eq!(apply_mode(Mode::Free, false), ModeStep { next: Mode::Free, fit: false, stop: false });
    assert_eq!(apply_mode(Mode::Recenter, false), ModeStep { next: Mode::Free, fit: true, stop: false });
    assert_eq!(apply_mode(Mode::Follow, false), ModeStep { next: Mode::Follow, fit: true, stop: false });
    assert_eq!(apply_mode(Mode::Follow, true), ModeStep { next: Mode::Free, fit: false, stop: true });
    assert_eq!(apply_mode(Mode::Recenter, true), ModeStep { next: Mode::Free, fit: false, stop: true });
}

#[test]
fn world_offset_accumulates_chunks() {
    let mut o = WorldOffset::new();
    o.accumulate(2, -1, SNAP);
    assert_eq!(o.0, IVec2::new(512, -256));
    o.accumulate(-2, 3, 64);
    assert_eq!(o.0, IVec2::new(384, -64));
}

#[test]
fn snap_is_next_power_of_two() {
    assert_eq!(dynamic_snap(0), 1);
    assert_eq!(dynamic_snap(1), 1);
    assert_eq!(dynamic_snap(3), 4);
    assert_eq!(dynamic_snap(640), 1024);
    assert_eq!(dynamic_snap(1024), 1024);
    assert_eq!(dynamic_snap(0x8000_0000), 0x8000_0000);
    for h in 0..5000u32 {
        assert_eq!(dynamic_snap(h), h.next_power_of_two());
    }
}

#[test]
fn controller_drag_starts_pans_and_ends() {
    let mut d: DragState<(i32, i32)> = DragState::new();
    // held without a window: nothing starts
    assert_eq!(controller_drag_step(&mut d, true, None), None);
    assert_eq!(d.0, None);
    // first held frame with a cursor: starts there, pans by nothing
    assert_eq!(controller_drag_step(&mut d, true, Some((3, 4))), Some(((3, 4), (3, 4))));
    assert_eq!(d.0, Some((3, 4)));
    // moves with the cursor
    assert_eq!(controller_drag_step(&mut d, true, Some((5, 1))), Some(((3, 4), (5, 1))));
    assert_eq!(d.0, Some((5, 1)));
    // cursor lost: no pan, drag kept
    assert_eq!(controller_drag_step(&mut d, true, None), None);
    assert_eq!(d.0, Some((5, 1)));
    // released: drag ends
    assert_eq!(controller_drag_step(&mut d, false, Some((9, 9))), None);
    assert_eq!(d.0, None);
}
