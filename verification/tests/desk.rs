use oxin::config::{Action, Config, Direction};
use oxin::desk::{Desk, Effect, Rect, Win, WORKSPACE_COUNT};

fn rect(x: i32, y: i32, w: i32, h: i32) -> Rect {
    Rect { x, y, w, h }
}

fn win(id: u64) -> Win {
    Win { id, floating: false, fullscreen: false, rect: rect(0, 0, 0, 0) }
}

/// Two side-by-side 1000x800 outputs, pointer on the first.
fn two_outputs() -> Desk {
    let mut d = Desk::new(true);
    d.add_output(rect(0, 0, 1000, 800), rect(0, 0, 1000, 800));
    d.add_output(rect(1000, 0, 1000, 800), rect(1000, 30, 1000, 770));
    d.set_pointer(10, 10);
    d
}

#[test]
fn new_outputs_take_the_lowest_free_workspace() {
    let d = two_outputs();
    assert_eq!(d.workspaces.len(), WORKSPACE_COUNT);
    assert_eq!(d.outputs[0].workspace, 0);
    assert_eq!(d.outputs[1].workspace, 1);
    let mut d = d;
    d.remove_output(0);
    d.add_output(rect(0, 0, 10, 10), rect(0, 0, 10, 10));
    assert_eq!(d.outputs[1].workspace, 0);
}

#[test]
fn the_pointer_picks_the_active_output() {
    let mut d = two_outputs();
    assert_eq!(d.active_output(), 0);
    d.set_pointer(1500, 400);
    assert_eq!(d.active_output(), 1);
    assert_eq!(d.active_workspace(), 1);
    // Off every output: output 0.
    d.set_pointer(-5, -5);
    assert_eq!(d.active_output(), 0);
}

#[test]
fn switching_to_a_workspace_shown_elsewhere_swaps_the_outputs() {
    let mut d = two_outputs();
    let cfg = Config::default();
    let effects = d.dispatch_action(&Action::Workspace(1), &cfg);
    assert_eq!(effects, vec![Effect::Refresh]);
    assert_eq!(d.outputs[0].workspace, 1);
    assert_eq!(d.outputs[1].workspace, 0, "no workspace is on two monitors");
    // Switching to the one already shown does nothing.
    assert!(d.dispatch_action(&Action::Workspace(1), &cfg).is_empty());
    // Out of range: nothing.
    assert!(d.dispatch_action(&Action::Workspace(9), &cfg).is_empty());
}

#[test]
fn next_then_previous_gives_every_output_its_workspace_back() {
    let mut d = two_outputs();
    let cfg = Config::default();
    d.dispatch_action(&Action::WorkspaceNext, &cfg);
    assert_eq!((d.outputs[0].workspace, d.outputs[1].workspace), (1, 0));
    d.dispatch_action(&Action::WorkspacePrevious, &cfg);
    assert_eq!((d.outputs[0].workspace, d.outputs[1].workspace), (0, 1));
    // From workspace 9 the next is workspace 1 again.
    d.dispatch_action(&Action::Workspace(8), &cfg);
    d.dispatch_action(&Action::WorkspaceNext, &cfg);
    assert_eq!(d.outputs[0].workspace, 0);
}

#[test]
fn mapped_windows_join_the_active_workspace_and_take_focus() {
    let mut d = two_outputs();
    let e = d.map_window(win(7), false, 0, 0, false);
    assert_eq!(e, vec![Effect::TreeTrack(0, 7), Effect::Refresh, Effect::Focus(7)]);
    let e = d.map_window(win(8), false, 0, 0, false);
    assert_eq!(e, vec![Effect::TreeTrack(0, 8), Effect::Refresh, Effect::Focus(8)]);
    assert_eq!(d.workspaces[0].windows.len(), 2);
    assert_eq!(d.workspaces[0].focused, 1);
}

#[test]
fn a_dialog_floats_centred_and_capped_to_the_usable_area() {
    let mut d = two_outputs();
    d.set_pointer(1500, 400);
    let e = d.map_window(win(3), true, 400, 2000, false);
    // Usable area of output 1 is (1000, 30) 1000x770: height capped to 770.
    let placed = rect(1300, 30, 400, 770);
    assert_eq!(e, vec![Effect::Place(3, placed), Effect::Refresh, Effect::Focus(3)]);
    assert!(d.workspaces[1].windows[0].floating);
    assert_eq!(d.workspaces[1].windows[0].rect, placed);
}

#[test]
fn no_output_means_nowhere_to_map() {
    let mut d = Desk::new(true);
    assert!(d.map_window(win(1), false, 0, 0, false).is_empty());
    assert!(d.workspaces.iter().all(|w| w.windows.is_empty()));
}

#[test]
fn focus_cycles_forwards_and_backwards() {
    let mut d = two_outputs();
    let cfg = Config::default();
    for id in 1..=3 {
        d.map_window(win(id), false, 0, 0, false);
    }
    assert_eq!(d.workspaces[0].focused, 2);
    assert_eq!(d.dispatch_action(&Action::FocusNext, &cfg), vec![Effect::Focus(1)]);
    assert_eq!(d.workspaces[0].focused, 0);
    assert_eq!(d.dispatch_action(&Action::FocusPrev, &cfg), vec![Effect::Focus(3)]);
    assert_eq!(d.workspaces[0].focused, 2);
}

#[test]
fn moving_a_window_takes_it_to_the_end_of_the_target() {
    let mut d = two_outputs();
    let cfg = Config::default();
    d.map_window(win(1), false, 0, 0, false);
    d.map_window(win(2), false, 0, 0, false);
    let e = d.dispatch_action(&Action::MoveToWorkspace(4), &cfg);
    assert_eq!(
        e,
        vec![Effect::TreeUntrack(0, 2), Effect::TreeTrack(4, 2), Effect::Refresh, Effect::Focus(1)]
    );
    assert_eq!(d.workspaces[0].windows.iter().map(|w| w.id).collect::<Vec<_>>(), vec![1]);
    assert_eq!(d.workspaces[4].windows.iter().map(|w| w.id).collect::<Vec<_>>(), vec![2]);
    assert_eq!(d.workspaces[0].focused, 0);
    // Moving to the active workspace itself does nothing.
    assert!(d.dispatch_action(&Action::MoveToWorkspace(0), &cfg).is_empty());
}

#[test]
fn directional_focus_and_swap_follow_the_rects() {
    let mut d = two_outputs();
    let cfg = Config::default();
    d.map_window(win(1), false, 0, 0, false);
    d.map_window(win(2), false, 0, 0, false);
    d.set_window_rect(0, 0, rect(0, 0, 500, 800));
    d.set_window_rect(0, 1, rect(500, 0, 500, 800));
    assert_eq!(d.dispatch_action(&Action::MoveFocus(Direction::Left), &cfg), vec![Effect::Focus(1)]);
    assert!(d.dispatch_action(&Action::MoveFocus(Direction::Left), &cfg).is_empty());
    assert_eq!(d.dispatch_action(&Action::MoveWindow(Direction::Right), &cfg), vec![Effect::Refresh]);
    assert_eq!(d.workspaces[0].windows[1].id, 1);
    assert_eq!(d.workspaces[0].focused, 1);
}

#[test]
fn a_floating_window_is_nudged_and_kept_on_its_output() {
    let mut d = two_outputs();
    let cfg = Config::default();
    d.map_window(win(5), true, 200, 100, false);
    // Centred on output 0: (400, 350).
    assert_eq!(d.workspaces[0].windows[0].rect, rect(400, 350, 200, 100));
    let e = d.dispatch_action(&Action::MoveWindow(Direction::Up), &cfg);
    assert_eq!(e, vec![Effect::Place(5, rect(400, 300, 200, 100))]);
    d.set_window_rect(0, 0, rect(20, 20, 200, 100));
    let e = d.dispatch_action(&Action::MoveWindow(Direction::Left), &cfg);
    assert_eq!(e, vec![Effect::Place(5, rect(0, 20, 200, 100))], "clamped at the left edge");
}

#[test]
fn solo_floating_and_fullscreen_toggle() {
    let mut d = two_outputs();
    let cfg = Config::default();
    d.map_window(win(1), false, 0, 0, false);
    assert_eq!(d.dispatch_action(&Action::ToggleSolo, &cfg), vec![Effect::Refresh]);
    assert_eq!(d.workspaces[0].solo, Some(1));
    assert_eq!(d.dispatch_action(&Action::ToggleSolo, &cfg), vec![Effect::Refresh]);
    assert_eq!(d.workspaces[0].solo, None);

    d.dispatch_action(&Action::ToggleSolo, &cfg);
    // Floating a solo window ends solo, and it floats at 60% of the area.
    let e = d.dispatch_action(&Action::ToggleFloating, &cfg);
    assert_eq!(
        e,
        vec![
            Effect::TreeUntrack(0, 1),
            Effect::SetTiledStates(1, false),
            Effect::Place(1, rect(200, 160, 600, 480)),
            Effect::Refresh,
        ]
    );
    assert_eq!(d.workspaces[0].solo, None);
    let e = d.dispatch_action(&Action::ToggleFloating, &cfg);
    assert_eq!(e, vec![Effect::SetTiledStates(1, true), Effect::TreeTrack(0, 1), Effect::Refresh]);

    let e = d.dispatch_action(&Action::Fullscreen, &cfg);
    assert_eq!(
        e,
        vec![Effect::TreeUntrack(0, 1), Effect::SendFullscreen(1, true), Effect::Refresh]
    );
    // A fullscreen window cannot go solo.
    assert!(d.dispatch_action(&Action::ToggleSolo, &cfg).is_empty());
}

#[test]
fn unmapping_drops_the_window_and_refocuses() {
    let mut d = two_outputs();
    d.map_window(win(1), false, 0, 0, false);
    d.map_window(win(2), false, 0, 0, false);
    let e = d.unmap_window(2);
    assert_eq!(
        e,
        vec![Effect::Unmap(2), Effect::TreeUntrack(0, 2), Effect::Refresh, Effect::Focus(1)]
    );
    assert_eq!(d.workspaces[0].windows.len(), 1);
    assert_eq!(d.workspaces[0].focused, 0);
    // An unknown window only leaves the scene.
    assert_eq!(d.unmap_window(99), vec![Effect::Unmap(99), Effect::Refresh, Effect::Focus(1)]);
}

#[test]
fn the_keyboard_needs_a_command() {
    let mut d = two_outputs();
    let mut cfg = Config::default();
    assert_eq!(
        d.dispatch_action(&Action::KeyboardShow, &cfg),
        vec![Effect::NoKeyboardCommand(true)]
    );
    assert!(!d.keyboard_visible);
    cfg.virtual_keyboard_show = Some("kbd --show".to_string());
    assert_eq!(
        d.dispatch_action(&Action::KeyboardToggle, &cfg),
        vec![Effect::Spawn("kbd --show".to_string()), Effect::KeyboardShown(true)]
    );
    assert!(d.keyboard_visible);
    assert!(d.dispatch_action(&Action::KeyboardShow, &cfg).is_empty());
}

#[test]
fn plain_actions_only_ask_the_shell() {
    let mut d = two_outputs();
    let cfg = Config::default();
    assert!(d.dispatch_action(&Action::Close, &cfg).is_empty());
    d.map_window(win(4), false, 0, 0, false);
    assert_eq!(d.dispatch_action(&Action::Close, &cfg), vec![Effect::Close(4)]);
    assert_eq!(d.dispatch_action(&Action::Quit, &cfg), vec![Effect::Quit]);
    assert_eq!(
        d.dispatch_action(&Action::Spawn("kitty".to_string()), &cfg),
        vec![Effect::Spawn("kitty".to_string())]
    );
    assert_eq!(
        d.dispatch_action(&Action::ResizeWindow(Direction::Right), &cfg),
        vec![Effect::ResizeSplit(0, 0, Direction::Right), Effect::Refresh]
    );
    assert_eq!(d.dispatch_action(&Action::Lua(3), &cfg), vec![Effect::CallFunction(3)]);
    assert_eq!(d.float_default_size((50, 25)), (500, 200));
}

use oxin::refresh::{Placed, Placement};

#[test]
fn refresh_hides_unshown_workspaces_and_places_by_kind() {
    let mut d = two_outputs();
    // Workspace 0 (first output): a tiled, a floating and a fullscreen window.
    d.workspaces[0].windows.push(win(1));
    d.workspaces[0].windows.push(Win { id: 2, floating: true, fullscreen: false, rect: rect(5, 6, 70, 80) });
    d.workspaces[0].windows.push(win(3));
    d.workspaces[0].windows.push(Win { id: 4, floating: false, fullscreen: true, rect: rect(0, 0, 0, 0) });
    // Workspace 2 is on no output.
    d.workspaces[2].windows.push(win(9));
    // Workspace 1 (second output) shows one window alone.
    d.workspaces[1].windows.push(win(5));
    d.workspaces[1].windows.push(win(6));
    d.workspaces[1].solo = Some(6);

    let plan = d.refresh_plan();
    assert_eq!(plan.hidden, vec![5, 9]);
    assert_eq!(
        plan.placed,
        vec![
            Placed { id: 4, placement: Placement::At(rect(0, 0, 1000, 800)) },
            Placed { id: 2, placement: Placement::At(rect(5, 6, 70, 80)) },
            Placed { id: 1, placement: Placement::Tiled(0) },
            Placed { id: 3, placement: Placement::Tiled(1) },
            Placed { id: 6, placement: Placement::At(rect(1000, 30, 1000, 770)) },
        ]
    );
}
