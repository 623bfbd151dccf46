use oxin::backend::Backend;
use oxin::config::{Action, Bind, HoldBind, MOD_ALT, MOD_CTRL, MOD_LOGO};
use oxin::keybind::{HoldState, KeyCommand};

const POWER: u32 = 0x1008ff2a;
const Q: u32 = 0x71;
const F3: u32 = 0xffc0;

fn binds() -> Vec<Bind> {
    vec![
        Bind { mods: MOD_LOGO, keysym: Q, action: Action::Close },
        Bind { mods: 0, keysym: POWER, action: Action::Spawn("swaylock".to_string()) },
    ]
}

fn holds() -> Vec<HoldBind> {
    vec![HoldBind {
        mods: 0,
        keysym: POWER,
        duration_ms: 2000,
        action: Action::Spawn("session-menu".to_string()),
    }]
}

#[test]
fn a_bound_chord_runs_on_press_and_swallows_its_release() {
    let mut s = HoldState::new();
    let (consumed, cmds) = s.handle_key(&binds(), &holds(), false, Backend::Udev, Q, MOD_LOGO, true);
    assert!(consumed);
    assert_eq!(cmds, vec![KeyCommand::Dispatch(Action::Close)]);
    let (consumed, cmds) = s.handle_key(&binds(), &holds(), false, Backend::Udev, Q, MOD_LOGO, false);
    assert!(consumed);
    assert!(cmds.is_empty());
}

#[test]
fn caps_and_num_lock_do_not_break_a_binding() {
    let mut s = HoldState::new();
    // Caps Lock (1 << 1) and Num Lock (1 << 4) are masked off.
    let (consumed, cmds) =
        s.handle_key(&binds(), &holds(), false, Backend::Udev, Q, MOD_LOGO | 2 | 16, true);
    assert!(consumed);
    assert_eq!(cmds, vec![KeyCommand::Dispatch(Action::Close)]);
}

#[test]
fn an_unbound_chord_reaches_the_client() {
    let mut s = HoldState::new();
    let (consumed, cmds) = s.handle_key(&binds(), &holds(), false, Backend::Udev, Q, 0, true);
    assert!(!consumed);
    assert!(cmds.is_empty());
}

#[test]
fn the_lock_client_owns_the_keyboard() {
    let mut s = HoldState::new();
    let (consumed, cmds) = s.handle_key(&binds(), &holds(), true, Backend::Udev, Q, MOD_LOGO, true);
    assert!(!consumed);
    assert!(cmds.is_empty());
}

#[test]
fn a_tapped_hold_chord_runs_its_ordinary_binding() {
    let mut s = HoldState::new();
    let (c, cmds) = s.handle_key(&binds(), &holds(), false, Backend::Udev, POWER, 0, true);
    assert!(c);
    assert_eq!(cmds, vec![KeyCommand::ArmTimer(2000)]);
    let (c, cmds) = s.handle_key(&binds(), &holds(), false, Backend::Udev, POWER, 0, false);
    assert!(c);
    assert_eq!(
        cmds,
        vec![KeyCommand::CancelTimer, KeyCommand::Dispatch(Action::Spawn("swaylock".to_string()))]
    );
    assert_eq!(s.held_keysym, 0);
}

#[test]
fn a_held_chord_fires_its_hold_action_once() {
    let mut s = HoldState::new();
    s.handle_key(&binds(), &holds(), false, Backend::Udev, POWER, 0, true);
    assert_eq!(s.hold_timeout(), Some(Action::Spawn("session-menu".to_string())));
    assert_eq!(s.hold_timeout(), None);
    let (c, cmds) = s.handle_key(&binds(), &holds(), false, Backend::Udev, POWER, 0, false);
    assert!(c);
    assert!(cmds.is_empty(), "the release after the hold fired runs nothing");
}

#[test]
fn ctrl_alt_function_keys_switch_terminals_on_a_session_only() {
    let mut s = HoldState::new();
    let (c, cmds) = s.handle_key(&binds(), &holds(), false, Backend::Udev, F3, MOD_CTRL | MOD_ALT, true);
    assert!(c);
    assert_eq!(cmds, vec![KeyCommand::ChangeVt(3)]);
    let (c, cmds) = s.handle_key(&binds(), &holds(), false, Backend::Winit, F3, MOD_CTRL | MOD_ALT, true);
    assert!(c, "consumed even when nested");
    assert!(cmds.is_empty());
}

#[test]
fn change_vt_asks_the_session_only_when_there_is_one() {
    assert_eq!(Backend::Udev.change_vt(2), Some(2));
    assert_eq!(Backend::Winit.change_vt(2), None);
}
