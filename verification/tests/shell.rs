use oxin::capture::{copy_region, CaptureError};
use oxin::commit::{commit, initial_size, CommitAction, Stage};
use oxin::config::{Action, Config, GestureBind, GestureTrigger};
use oxin::control::{ctl_request, decide, parse_rotate, reply, socket_name, Request};
use oxin::cursor::{cursor_size, theme_name, Shape, CURSOR_SIZE};
use oxin::wallpaper::{crop_offset, wallpaper_target};
use oxin::defaults::knows_builtin_keys;
use oxin::drive::{finish_load, Drive, Registry, RunEnd, Stop, FUEL_FOR_CONFIG, FUEL_PER_SLICE};
use oxin::events::{event_named, read_rule, register_handler, HandlerError, RuleError, WindowRule};
use oxin::keybind::gesture_action;
use oxin::lock::{LockCommand, LockEvent, LockState};
use oxin::desk::OutputEntry;
use oxin::module::seed_value;
use oxin::outputs::{first_free, lay_out, next_output_x, pick_mode};
use oxin::power::PowerTable;
use oxin::registrars::{ScriptValue, TableKey};
use oxin::names::Keysyms;
use oxin::session::{
    config_override, no_plugins, pick, settle, system_config_path, text_config_path, user_config_path,
};
use oxin::staging::{Event, Staged};

#[test]
fn the_config_path_prefers_the_users_file_then_the_systems() {
    let user = user_config_path(Some("/x"), Some("/home/u"));
    assert_eq!(user.as_deref(), Some("/x/0xin/init.lua"));
    assert_eq!(user_config_path(None, Some("/home/u")).as_deref(), Some("/home/u/.config/0xin/init.lua"));
    assert_eq!(user_config_path(Some(""), None), None);
    let system = system_config_path();
    assert_eq!(system, "/etc/xdg/0xin/init.lua");
    assert_eq!(pick(user.clone(), true, system.clone(), true), user);
    assert_eq!(pick(user.clone(), false, system.clone(), true), Some(system.clone()));
    // Neither exists: the user's path, which is the useful one to report.
    assert_eq!(pick(user.clone(), false, system.clone(), false), user);
    assert_eq!(pick(None, false, system.clone(), false), None);
    assert_eq!(config_override(Some("/repo/init.lua")).as_deref(), Some("/repo/init.lua"));
    assert_eq!(config_override(Some("")), None);
    assert!(no_plugins(true, None));
    assert!(no_plugins(false, Some("1")));
    assert!(!no_plugins(false, Some("")));
}

#[test]
fn a_runaway_drive_is_stopped_by_its_budget() {
    let mut d = Drive::new(FUEL_PER_SLICE * 2 + 5);
    assert_eq!(d.slice(), FUEL_PER_SLICE);
    assert_eq!(d.record(FUEL_PER_SLICE, 0, false, false), None);
    assert_eq!(d.record(FUEL_PER_SLICE, 0, false, false), None);
    // What is left of the budget, not a full slice.
    assert_eq!(d.slice(), 5);
    assert_eq!(d.record(5, 0, false, false), Some(Stop::OutOfFuel));
    assert_eq!(Stop::OutOfFuel.reason(), "fuel budget exhausted");
}

#[test]
fn a_drive_stops_when_finished_or_past_its_deadline() {
    let mut d = Drive::new(FUEL_FOR_CONFIG);
    assert_eq!(d.record(100, 40, true, true), Some(Stop::Finished));
    assert_eq!(d.spent, 60);
    let mut d = Drive::new(FUEL_FOR_CONFIG);
    assert_eq!(d.record(100, 40, false, true), Some(Stop::PastDeadline));
    // A step that overspent counts as spending what it had, never less.
    let mut d = Drive::new(10);
    assert_eq!(d.record(3, 7, false, false), None);
    assert_eq!(d.spent, 0);
    let mut registry = Registry::new();
    assert!(registry.event_may_run());
    registry.enter_drive();
    registry.enter_drive();
    assert!(!registry.event_may_run());
    registry.leave_drive();
    assert_eq!(registry.depth(), 1);
    registry.leave_drive();
    registry.leave_drive();
    assert_eq!(registry.depth(), 0);
}

#[test]
fn a_stopped_binding_is_skipped_from_then_on() {
    let mut registry = Registry::new();
    assert!(!registry.is_quarantined(3));
    registry.quarantine(3);
    registry.quarantine(3);
    assert!(registry.is_quarantined(3));
    assert!(!registry.is_quarantined(4));
    assert_eq!(registry.quarantined, vec![3]);
    assert!(!registry.drive_ended(Some(5), Stop::Finished));
    assert!(!registry.is_quarantined(5));
    assert!(registry.drive_ended(None, Stop::PastDeadline), "a stopped handler forces a re-place");
    assert_eq!(registry.quarantined, vec![3]);
    assert!(registry.drive_ended(Some(5), Stop::OutOfFuel));
    assert!(registry.is_quarantined(5));
}

#[test]
fn control_requests_are_decided_line_by_line() {
    assert_eq!(decide(false, "quit"), Request::Quit);
    assert_eq!(decide(true, "quit"), Request::Locked);
    assert_eq!(decide(false, "rotate HDMI-A-1 90"), Request::Rotate { name: "HDMI-A-1".into(), transform: 1 });
    assert_eq!(decide(false, "rotate HDMI-A-1 45"), Request::BadRotate);
    assert_eq!(decide(false, "wallpaper clear"), Request::WallpaperClear);
    assert_eq!(decide(false, "wallpaper "), Request::WallpaperEmpty);
    assert_eq!(decide(false, "wallpaper /a b.png"), Request::Wallpaper("/a b.png".into()));
    assert_eq!(decide(false, "reboot"), Request::Unknown);
    assert_eq!(Request::Locked.immediate_reply(), Some("error session is locked\n"));
    assert_eq!(Request::Quit.immediate_reply(), None);
    assert_eq!(parse_rotate("eDP 1 270"), Some(("eDP 1".to_string(), 3)));
    assert_eq!(parse_rotate(" normal"), None);
    assert_eq!(parse_rotate("normal"), None);
    assert_eq!(reply(&Ok(())), "ok\n");
    assert_eq!(reply(&Err("no such output".into())), "error no such output\n");
    assert_eq!(socket_name(Some("wayland-1")), "0xin-control-wayland-1.sock");
    assert_eq!(socket_name(Some("a/b")), "0xin-control-a_b.sock");
    assert_eq!(socket_name(None), "0xin-control-default.sock");
    assert_eq!(ctl_request(Some("quit"), None, false).as_deref(), Some("quit\n"));
    assert_eq!(ctl_request(Some("wallpaper"), Some("clear"), false).as_deref(), Some("wallpaper clear\n"));
    assert_eq!(ctl_request(Some("wallpaper"), Some("/p.png"), false).as_deref(), Some("wallpaper /p.png\n"));
    assert_eq!(ctl_request(Some("quit"), Some("now"), false), None);
    assert_eq!(ctl_request(Some("wallpaper"), Some("a"), true), None);
    assert_eq!(ctl_request(None, None, false), None);
}

#[test]
fn cursor_theme_and_size_follow_the_environment() {
    assert_eq!(Shape::Default.icon(), "default");
    assert_eq!(Shape::Grabbing.icon(), "grabbing");
    assert_eq!(cursor_size(Some("32")), 32);
    assert_eq!(cursor_size(Some("+48")), 48);
    assert_eq!(cursor_size(Some("big")), CURSOR_SIZE);
    assert_eq!(cursor_size(Some("99999999999")), CURSOR_SIZE);
    assert_eq!(cursor_size(None), 24);
    assert_eq!(theme_name(None), "default");
    assert_eq!(theme_name(Some("Adwaita")), "Adwaita");
}

#[test]
fn a_capture_copies_rows_into_the_clients_stride() {
    let pixels: Vec<u8> = (0..16).collect();
    let mut target = vec![0xAAu8; 24];
    // Two rows of two pixels into rows twelve bytes apart.
    assert_eq!(copy_region(&mut target, 12, true, &pixels, 2, 2), Ok(()));
    assert_eq!(&target[0..8], &pixels[0..8]);
    assert_eq!(&target[8..12], &[0xAA; 4]);
    assert_eq!(&target[12..20], &pixels[8..16]);
    assert_eq!(&target[20..24], &[0xAA; 4]);
}

#[test]
fn a_capture_is_refused_without_touching_the_buffer() {
    let pixels = vec![1u8; 16];
    let mut target = vec![0u8; 15];
    assert_eq!(copy_region(&mut target, 8, true, &pixels, 2, 2), Err(CaptureError::TooSmall));
    assert_eq!(copy_region(&mut target, 8, false, &pixels, 2, 2), Err(CaptureError::UnsupportedFormat));
    assert_eq!(copy_region(&mut target, 8, true, &pixels, 0, 2), Err(CaptureError::EmptyRegion));
    // A stride shorter than a row cannot hold the region.
    let mut wide = vec![0u8; 64];
    assert_eq!(copy_region(&mut wide, 4, true, &pixels, 2, 2), Err(CaptureError::TooSmall));
    assert!(target.iter().all(|b| *b == 0));
    assert!(wide.iter().all(|b| *b == 0));
    assert_eq!(CaptureError::TooSmall.message(), "client buffer is too small");
}

#[test]
fn outputs_are_on_until_switched() {
    let mut t = PowerTable::new();
    assert!(t.is_on("DP-1"));
    assert_eq!(t.set_mode("DP-1", false, true), Some(false));
    assert!(!t.is_on("DP-1"));
    assert!(t.is_on("DP-2"));
    assert_eq!(t.set_mode("DP-9", false, false), None);
    assert!(t.is_on("DP-9"));
    t.set_powered("DP-1", true);
    assert!(t.is_on("DP-1"));
}

#[test]
fn handlers_register_per_event_in_order() {
    let mut staged = Staged::new();
    assert_eq!(event_named("window"), Some(Event::Window));
    assert_eq!(event_named("windows"), None);
    assert_eq!(register_handler(&mut staged, "window", &ScriptValue::Function), Ok(0));
    assert_eq!(register_handler(&mut staged, "window", &ScriptValue::Function), Ok(1));
    assert_eq!(register_handler(&mut staged, "startup", &ScriptValue::Function), Ok(0));
    assert_eq!(register_handler(&mut staged, "resize", &ScriptValue::Function), Err(HandlerError::NoSuchEvent));
    assert_eq!(register_handler(&mut staged, "window", &ScriptValue::Int(1)), Err(HandlerError::NotAFunction));
    assert_eq!(staged.handlers, vec![1, 2, 0]);
}

#[test]
fn a_window_handler_returns_nil_or_a_rule() {
    assert_eq!(read_rule(&ScriptValue::Nil), Ok(None));
    let rule = ScriptValue::Table(vec![
        (TableKey::Name("float".into()), ScriptValue::Bool(true)),
        (TableKey::Name("workspace".into()), ScriptValue::Int(3)),
    ]);
    assert_eq!(read_rule(&rule), Ok(Some(WindowRule { float: Some(true), workspace: Some(3) })));
    let truthy = ScriptValue::Table(vec![(TableKey::Name("float".into()), ScriptValue::Str("yes".into()))]);
    assert_eq!(read_rule(&truthy), Ok(Some(WindowRule { float: Some(true), workspace: None })));
    let bad = ScriptValue::Table(vec![(TableKey::Name("workspace".into()), ScriptValue::Str("3".into()))]);
    assert_eq!(read_rule(&bad), Err(RuleError::WorkspaceNotANumber));
    assert_eq!(read_rule(&ScriptValue::Int(1)), Err(RuleError::NotATable));
}

#[test]
fn a_gesture_runs_its_first_binding_unless_locked() {
    let gestures = vec![
        GestureBind { trigger: GestureTrigger::TwoUp, action: Action::Quit },
        GestureBind { trigger: GestureTrigger::BottomUp, action: Action::KeyboardShow },
        GestureBind { trigger: GestureTrigger::BottomUp, action: Action::Close },
    ];
    assert_eq!(gesture_action(&gestures, GestureTrigger::BottomUp, false), Some(Action::KeyboardShow));
    assert_eq!(gesture_action(&gestures, GestureTrigger::BottomUp, true), None);
    assert_eq!(gesture_action(&gestures, GestureTrigger::DoubleTap, false), None);
}

#[test]
fn a_setting_can_be_read_back_before_it_is_written() {
    let cfg = Config::default();
    match seed_value(&cfg, "gap") {
        Some(ScriptValue::Int(g)) => assert_eq!(g, i64::from(cfg.gap)),
        other => panic!("{other:?}"),
    }
    match seed_value(&cfg, "modifier") {
        Some(ScriptValue::Str(m)) => assert_eq!(m, "Super"),
        other => panic!("{other:?}"),
    }
    assert!(seed_value(&cfg, "background").is_none());
    assert!(seed_value(&cfg, "nonsense").is_none());
}

use oxin::config::{MOD_ALT, MOD_LOGO, MOD_SHIFT};
use oxin::desk::{Desk, Effect, GrabMode, Rect, Win};
use oxin::host::{bindings_pending, current_workspace_number, for_registration, for_server, workspace_rows, Host, HostError};
use oxin::pointer::{floats_by_rule, floats_naturally, grab_for, modifier_bits, BTN_LEFT, BTN_RIGHT};

#[test]
fn host_calls_are_refused_at_the_wrong_time() {
    assert_eq!(for_registration(Host::Load), Ok(()));
    assert_eq!(for_registration(Host::Live), Err(HostError::OnlyWhileLoading));
    assert_eq!(for_server(Host::Live), Ok(()));
    assert_eq!(for_server(Host::Load), Err(HostError::NeedsRunningCompositor));
    assert!(bindings_pending(Host::Load, true));
    assert!(!bindings_pending(Host::Live, true));
    assert!(HostError::OnlyWhileLoading.message().contains("while the config is loading"));
}

fn r(x: i32, y: i32, w: i32, h: i32) -> Rect {
    Rect { x, y, w, h }
}

#[test]
fn scripts_read_workspaces_counted_from_one() {
    let mut d = Desk::new(true);
    assert_eq!(current_workspace_number(&d), 0);
    d.add_output(r(0, 0, 100, 100), r(0, 0, 100, 100));
    d.set_pointer(5, 5);
    assert_eq!(current_workspace_number(&d), 1);
    d.workspaces[0].windows.push(Win { id: 1, floating: false, fullscreen: false, rect: r(0, 0, 0, 0) });
    let rows = workspace_rows(&d);
    assert_eq!(rows.len(), 9);
    assert_eq!(rows[0], (1, 1));
    assert_eq!(rows[8], (9, 0));
}

#[test]
fn the_primary_modifier_and_a_button_start_a_grab_on_floating_windows() {
    assert_eq!(modifier_bits(true, false, false, true), MOD_SHIFT | MOD_LOGO);
    assert_eq!(modifier_bits(false, false, false, false), 0);
    assert_eq!(grab_for(MOD_LOGO, MOD_LOGO, BTN_LEFT), Some(GrabMode::Move));
    assert_eq!(grab_for(MOD_LOGO, MOD_LOGO, BTN_RIGHT), Some(GrabMode::Resize));
    assert_eq!(grab_for(MOD_LOGO | MOD_SHIFT, MOD_LOGO, BTN_LEFT), None);
    assert_eq!(grab_for(MOD_ALT, MOD_LOGO, BTN_LEFT), None);

    let mut d = Desk::new(true);
    d.add_output(r(0, 0, 100, 100), r(0, 0, 100, 100));
    d.workspaces[0].windows.push(Win { id: 7, floating: true, fullscreen: false, rect: r(1, 1, 10, 10) });
    d.workspaces[0].windows.push(Win { id: 8, floating: false, fullscreen: false, rect: r(0, 0, 0, 0) });
    assert!(!d.start_grab(MOD_LOGO, MOD_LOGO, BTN_LEFT, Some((0, 1))), "tiled windows are not grabbed");
    assert!(!d.start_grab(MOD_LOGO, MOD_LOGO, BTN_LEFT, None));
    assert!(d.start_grab(MOD_LOGO, MOD_LOGO, BTN_LEFT, Some((0, 0))));
    assert_eq!(d.grab, GrabMode::Move);
    assert_eq!(d.grab_window, Some(7));
    assert!(d.release_button());
    assert_eq!(d.grab, GrabMode::Inactive);
    assert!(!d.release_button());
}

#[test]
fn dialogs_fixed_size_windows_and_ruled_apps_float() {
    assert!(floats_naturally(true, (0, 0), (0, 0)));
    assert!(floats_naturally(false, (300, 200), (300, 200)));
    assert!(!floats_naturally(false, (0, 0), (0, 0)));
    assert!(!floats_naturally(false, (300, 200), (600, 400)));
    let rules = vec!["pavucontrol".to_string()];
    assert!(floats_by_rule(Some("Pavucontrol"), &rules));
    assert!(!floats_by_rule(Some("kitty"), &rules));
    assert!(!floats_by_rule(None, &rules));
}

use oxin::touch::{enabled, handle_rect, multi_enabled, updated_keyboard_height};

#[test]
fn the_keyboard_handle_pill_follows_the_keyboard() {
    let mask = 1u32 << GestureTrigger::BottomUp.bit();
    assert!(enabled(mask, GestureTrigger::BottomUp));
    assert!(!enabled(mask, GestureTrigger::TwoUp));
    assert!(!multi_enabled(mask));
    assert!(multi_enabled(1u32 << GestureTrigger::DoubleTap.bit()));
    let out = r(0, 0, 1080, 2400);
    assert_eq!(handle_rect(mask, true, false, 300, out), Some(r(480, 2390, 120, 5)));
    assert_eq!(handle_rect(mask, true, true, 300, out), Some(r(480, 2092, 120, 5)));
    assert_eq!(handle_rect(mask, false, false, 300, out), None);
    assert_eq!(handle_rect(0, true, false, 300, out), None);
    // A narrow output: the offset rounds toward zero, as Rust's division does.
    assert_eq!(handle_rect(mask, true, false, 300, r(0, 0, 101, 50)), Some(r(-9, 40, 120, 5)));
    assert_eq!(updated_keyboard_height(300, 262), 262);
    assert_eq!(updated_keyboard_height(300, 0), 300);
}

use oxin::settings::key_names;

#[test]
fn the_key_names_binds_use_are_listed_for_xkb() {
    let text = "bind = SUPER, Return, exec, kitty\n# bind = SUPER, Y, close\n  hold = , XF86PowerOff , 2000, quit\ngap = 4\nbind = SUPER\n";
    assert_eq!(key_names(text), vec!["Return".to_string(), "XF86PowerOff".to_string()]);
}

#[test]
fn the_line_based_config_is_found_like_the_script() {
    assert_eq!(text_config_path(Some("/t/0xin.conf"), Some("/x"), Some("/h")).as_deref(), Some("/t/0xin.conf"));
    assert_eq!(text_config_path(Some(""), Some("/x"), Some("/h")).as_deref(), Some("/x/0xin/0xin.conf"));
    assert_eq!(text_config_path(None, None, Some("/h/")).as_deref(), Some("/h/.config/0xin/0xin.conf"));
    // An empty HOME joins like a relative path.
    assert_eq!(text_config_path(None, None, Some("")).as_deref(), Some(".config/0xin/0xin.conf"));
    assert_eq!(text_config_path(None, None, None), None);
}

#[test]
fn content_lines_are_numbered_and_trimmed() {
    let got = oxin::parse::lines("a = 1\n\n  # c\n  b = 2  \r\n");
    assert_eq!(got, vec![(1, "a = 1".to_string()), (4, "b = 2".to_string())]);
    let mut keys = oxin::names::Keysyms::new();
    keys.insert("Return", 0xff0d);
    assert_eq!(oxin::names::key(&keys, "Return"), 0xff0d);
}

#[test]
fn new_outputs_get_a_mode_a_controller_and_a_place() {
    assert_eq!(pick_mode(&vec![false, true, true]), Some(1));
    assert_eq!(pick_mode(&vec![false, false]), Some(0));
    assert_eq!(pick_mode(&vec![]), None);
    assert_eq!(first_free(&vec![3, 4, 5], &vec![3, 5]), Some(4));
    assert_eq!(first_free(&vec![3], &vec![3]), None);
    let outs = vec![
        OutputEntry { geometry: r(0, 0, 1920, 1080), usable: r(0, 0, 1920, 1080), workspace: 0 },
        OutputEntry { geometry: r(1920, 0, 1280, 1024), usable: r(1920, 0, 1280, 1024), workspace: 1 },
    ];
    assert_eq!(next_output_x(&outs), 3200);
    assert_eq!(next_output_x(&vec![]), 0);
    assert_eq!(lay_out(3200, &vec![1920, 800]), vec![3200, 5120]);
    assert_eq!(lay_out(2_000_000_000, &vec![100_000_000, 40_000_000]), vec![2_000_000_000, 2_100_000_000]);
    assert_eq!(lay_out(-5, &vec![]), Vec::<i32>::new());
}

#[test]
fn a_double_tap_focuses_and_solos_the_tapped_window() {
    let mut d = Desk::new(true);
    d.add_output(r(0, 0, 100, 100), r(0, 0, 100, 100));
    d.set_pointer(5, 5);
    d.workspaces[0].windows.push(Win { id: 1, floating: false, fullscreen: false, rect: r(0, 0, 0, 0) });
    d.workspaces[0].windows.push(Win { id: 2, floating: false, fullscreen: false, rect: r(0, 0, 0, 0) });
    let mut cfg = Config::default();
    cfg.gestures = vec![GestureBind { trigger: GestureTrigger::DoubleTap, action: Action::ToggleSolo }];
    let fx = d.double_tap(2, &cfg, false);
    assert_eq!(fx, vec![Effect::Focus(2), Effect::Refresh]);
    assert_eq!(d.workspaces[0].focused, 1);
    assert_eq!(d.workspaces[0].solo, Some(2));
    let fx = d.double_tap(2, &cfg, false);
    assert_eq!(fx, vec![Effect::Focus(2), Effect::Refresh]);
    assert_eq!(d.workspaces[0].solo, None);
    assert!(d.double_tap(1, &cfg, true).is_empty(), "a locked session ignores taps");
    assert!(d.focus_clicked(99).is_empty());
    assert_eq!(d.focus_clicked(1), vec![Effect::Focus(1)]);
    assert_eq!(d.workspaces[0].focused, 0);
}

#[test]
fn a_wallpaper_path_may_start_at_home() {
    assert_eq!(oxin::wallpaper::expand_home("~/pics/a.png", Some("/home/u")), "/home/u/pics/a.png");
    assert_eq!(oxin::wallpaper::expand_home("~/pics/a.png", None), "~/pics/a.png");
    assert_eq!(oxin::wallpaper::expand_home("/srv/a.png", Some("/home/u")), "/srv/a.png");
    assert_eq!(oxin::wallpaper::expand_home("~x/a.png", Some("/home/u")), "~x/a.png");
}

#[test]
fn a_touch_finds_the_output_it_landed_on() {
    let mut d = Desk::new(true);
    d.add_output(r(0, 0, 100, 100), r(0, 0, 100, 100));
    d.add_output(r(100, 0, 50, 50), r(100, 0, 50, 50));
    assert_eq!(d.output_rect_at(120, 10), Some(r(100, 0, 50, 50)));
    assert_eq!(d.output_rect_at(5, 5), Some(r(0, 0, 100, 100)));
    assert_eq!(d.output_rect_at(120, 80), None);
}

#[test]
fn a_grab_moves_or_resizes_the_floating_window() {
    let mut d = Desk::new(true);
    d.add_output(r(0, 0, 100, 100), r(0, 0, 100, 100));
    d.set_pointer(5, 5);
    d.workspaces[0].windows.push(Win { id: 7, floating: true, fullscreen: false, rect: r(10, 10, 20, 20) });
    assert!(d.drag(r(10, 10, 20, 20), 5, 5).is_empty(), "no grab, no drag");
    assert!(d.start_grab(MOD_LOGO, MOD_LOGO, BTN_LEFT, Some((0, 0))));
    assert_eq!(d.drag(r(10, 10, 20, 20), 5, 7), vec![Effect::Place(7, r(15, 17, 20, 20))]);
    assert_eq!(d.drag(r(10, 10, 20, 20), 500, -50), vec![Effect::Place(7, r(80, 0, 20, 20))]);
    assert!(d.release_button());
    assert!(d.start_grab(MOD_LOGO, MOD_LOGO, BTN_RIGHT, Some((0, 0))));
    assert_eq!(d.drag(r(80, 0, 20, 20), -100, 30), vec![Effect::Place(7, r(80, 0, 50, 50))]);
    assert_eq!(d.workspaces[0].windows[0].rect, r(80, 0, 50, 50));
}

#[test]
fn a_failed_load_starts_on_the_builtin_configuration() {
    let mut keys = Keysyms::new();
    assert!(!knows_builtin_keys(&keys));
    for (i, name) in ["Return", "Q", "H", "J", "K", "L", "F", "V", "1", "2", "3", "4", "5", "6", "7", "8", "9"]
        .iter()
        .enumerate()
    {
        keys.insert(name, 100 + i as u32);
    }
    assert!(knows_builtin_keys(&keys));

    let mut staged = Staged::new();
    staged.config.gap = 11;
    let mut reg = Registry::new();
    let fine = settle(Ok(staged.finish(&keys)), &mut reg, &keys);
    assert_eq!(fine.config.gap, 11);
    assert!(reg.config_error.is_none());

    let broken = settle(Err("init.lua:2: nonsense".to_string()), &mut reg, &keys);
    assert_eq!(broken.config.gap, Config::default().gap);
    assert_eq!(broken.config.binds.len(), Staged::new().finish(&keys).config.binds.len());
    assert_eq!(reg.config_error.as_deref(), Some("init.lua:2: nonsense"));
}

#[test]
fn a_capture_region_is_cut_to_its_output() {
    let full = r(0, 0, 1920, 1080);
    assert_eq!(oxin::capture::capture_region(r(10, 10, 100, 100), full), r(10, 10, 100, 100));
    assert_eq!(oxin::capture::capture_region(r(1900, 1000, 100, 100), full), r(1900, 1000, 20, 80));
    assert_eq!(oxin::capture::capture_region(r(-50, -50, 100, 100), full), r(0, 0, 50, 50));
    assert_eq!(oxin::capture::capture_region(r(3000, 0, 10, 10), full), full);
    assert_eq!(oxin::capture::capture_region(r(1920, 0, 10, 10), full), full, "touching is not overlapping");
}

#[test]
fn the_cursor_image_nearest_the_wanted_size_is_drawn() {
    assert_eq!(oxin::cursor::nearest_size(&vec![16, 24, 32, 48], 24), Some(1));
    assert_eq!(oxin::cursor::nearest_size(&vec![16, 32, 48], 24), Some(0), "a tie goes to the first");
    assert_eq!(oxin::cursor::nearest_size(&vec![48, 64], 24), Some(0));
    assert_eq!(oxin::cursor::nearest_size(&vec![], 24), None);
}

fn le(out: &mut Vec<u8>, v: u32) {
    out.extend_from_slice(&v.to_le_bytes());
}

/// A cursor file with one 1x1 image per nominal size, pixel `[k, 0, 0, 255]`.
fn cursor_file(sizes: &[u32]) -> Vec<u8> {
    let mut out = b"Xcur".to_vec();
    le(&mut out, 16);
    le(&mut out, 0x1_0000);
    le(&mut out, sizes.len() as u32);
    let first = 16 + 12 * sizes.len() as u32;
    for (k, size) in sizes.iter().enumerate() {
        le(&mut out, 0xfffd_0002);
        le(&mut out, *size);
        le(&mut out, first + 40 * k as u32);
    }
    for (k, size) in sizes.iter().enumerate() {
        for v in [36, 0xfffd_0002, *size, 1, 1, 1, 0, 1, 50 + k as u32] {
            le(&mut out, v);
        }
        out.extend_from_slice(&[k as u8, 0, 0, 255]);
    }
    out
}

#[test]
fn a_cursor_file_is_decoded_and_its_nearest_image_drawn() {
    let bytes = cursor_file(&[16, 24, 32]);
    let image = oxin::cursor::cursor_image_from_file(&bytes, 24).expect("the file decodes");
    assert_eq!((image.size, image.width, image.height, image.xhot, image.yhot), (24, 1, 1, 0, 1));
    assert_eq!(image.delay, 51);
    assert_eq!(image.pixels_rgba, vec![1, 0, 0, 255]);

    let bytes = cursor_file(&[16, 32, 48]);
    let image = oxin::cursor::cursor_image_from_file(&bytes, 24).expect("the file decodes");
    assert_eq!(image.size, 16, "a tie goes to the first image");

    let bytes = cursor_file(&[64]);
    assert_eq!(oxin::cursor::cursor_image_from_file(&bytes, 24).map(|i| i.size), Some(64));
}

#[test]
fn a_cursor_file_that_does_not_decode_draws_nothing() {
    assert!(oxin::cursor::cursor_image_from_file(&b"not a cursor".to_vec(), 24).is_none());
    assert!(oxin::cursor::cursor_image_from_file(&cursor_file(&[]), 24).is_none(), "no image");
    let mut cut = cursor_file(&[24]);
    cut.truncate(cut.len() - 2);
    assert!(oxin::cursor::cursor_image_from_file(&cut, 24).is_none(), "pixels cut short");
}

#[test]
fn workspaces_lists_each_output_then_each_workspace() {
    let mut d = Desk::new(true);
    d.add_output(r(0, 0, 1080, 2400), r(0, 0, 1080, 2400));
    d.workspaces[0].windows.push(Win { id: 1, floating: false, fullscreen: false, rect: r(0, 0, 0, 0) });
    assert_eq!(decide(false, "workspaces"), Request::Workspaces);
    assert_eq!(decide(true, "workspaces"), Request::Locked);
    assert_eq!(ctl_request(Some("workspaces"), None, false).as_deref(), Some("workspaces\n"));
    let got = oxin::control::workspaces_reply(&vec!["DSI-1".to_string()], &d);
    let mut want = String::from("ok\noutput DSI-1 1\nworkspace 1 occupied\n");
    for n in 2..=9 {
        want.push_str(&format!("workspace {n} empty\n"));
    }
    assert_eq!(got, want);
}

#[test]
fn config_error_repeats_why_the_configuration_failed() {
    assert_eq!(decide(false, "config-error"), Request::ConfigError);
    assert_eq!(ctl_request(Some("config-error"), None, false).as_deref(), Some("config-error\n"));
    assert_eq!(oxin::control::config_error_reply(&None), "ok\n");
    assert_eq!(
        oxin::control::config_error_reply(&Some("init.lua:3: oxin.gpa: unknown setting".to_string())),
        "ok\ninit.lua:3: oxin.gpa: unknown setting\n"
    );
}

#[test]
fn the_session_lock_never_fails_open() {
    let mut lock = LockState::new();
    assert_eq!(
        lock.step(LockEvent::NewLock),
        vec![LockCommand::CoverOutputs, LockCommand::ClearKeyboardFocus, LockCommand::LockCursor(true), LockCommand::SendLocked]
    );
    assert_eq!(lock.step(LockEvent::NewLock), vec![LockCommand::Reject], "one locker at a time");
    assert_eq!(lock.step(LockEvent::SurfaceMapped), vec![LockCommand::FocusLockSurface]);
    assert_eq!(lock.step(LockEvent::OutputAdded), vec![LockCommand::CoverNewOutput]);
    assert_eq!(lock.step(LockEvent::LockGone), vec![LockCommand::CoverOutputs, LockCommand::ClearKeyboardFocus]);
    assert!(lock.locked, "a vanished locker leaves the session locked");
    assert_eq!(lock.step(LockEvent::NewLock).last(), Some(&LockCommand::SendLocked));
    assert_eq!(
        lock.step(LockEvent::Unlock),
        vec![LockCommand::Uncover, LockCommand::LockCursor(false), LockCommand::Refocus]
    );
    assert!(!lock.locked);
    assert!(lock.step(LockEvent::LockGone).is_empty());
    assert_eq!(lock, LockState::new());
}

#[test]
fn a_window_maps_once_configured_and_given_a_buffer() {
    assert_eq!(commit(Stage::Pending, false, true), (Stage::Pending, CommitAction::SendInitialConfigure));
    assert_eq!(commit(Stage::Pending, true, false), (Stage::Pending, CommitAction::Nothing));
    assert_eq!(commit(Stage::Pending, true, true), (Stage::Mapped, CommitAction::MapWindow));
    assert_eq!(commit(Stage::Mapped, true, true), (Stage::Mapped, CommitAction::Nothing));
    assert_eq!(commit(Stage::Mapped, true, false), (Stage::Pending, CommitAction::UnmapWindow));
    assert_eq!(initial_size(640, 480), Some((640, 480)));
    assert_eq!(initial_size(0, 480), None);
}

#[test]
fn script_errors_name_the_file() {
    assert_eq!(
        oxin::drive::chunk_error("/home/u/.config/0xin/init.lua", "parse error at line 1"),
        "/home/u/.config/0xin/init.lua: parse error at line 1"
    );
    let text = oxin::drive::config_stopped("init.lua", Stop::OutOfFuel);
    assert!(text.starts_with("init.lua: config did not finish (fuel budget exhausted)"), "{text}");
}

#[test]
fn a_config_applies_only_when_its_chunk_finished() {
    let mut staged = Config::default();
    staged.gap = 7;
    let got = finish_load("/home/u/.config/0xin/init.lua", RunEnd::Finished, staged).expect("finished");
    assert_eq!(got.gap, 7);

    let mut staged = Config::default();
    staged.gap = 7;
    assert_eq!(
        finish_load("init.lua", RunEnd::Raised("init.lua:3: boom".to_string()), staged).err().as_deref(),
        Some("init.lua:3: boom"),
    );
    assert_eq!(
        finish_load("init.lua", RunEnd::Killed(Stop::OutOfFuel), Config::default()).err().as_deref(),
        Some("init.lua: config did not finish (fuel budget exhausted). A loop with no exit, or work far beyond what a config should do at startup."),
    );
    assert_eq!(
        finish_load("init.lua", RunEnd::Killed(Stop::PastDeadline), Config::default()).err().as_deref(),
        Some("init.lua: config did not finish (wall-clock deadline exceeded). A loop with no exit, or work far beyond what a config should do at startup."),
    );
    assert_eq!(
        finish_load("init.lua", RunEnd::Broken("stack overflow".to_string()), Config::default()).err().as_deref(),
        Some("init.lua: internal error: stack overflow"),
    );
}

#[test]
fn a_wallpaper_covers_its_output_cropped_about_the_centre() {
    assert_eq!(wallpaper_target(0, 1080), Err("output has no size yet".to_string()));
    assert_eq!(wallpaper_target(1920, -1), Err("output has no size yet".to_string()));
    assert_eq!(wallpaper_target(1920, 1080), Ok((1920, 1080)));
    assert_eq!(crop_offset(2000, 1080, 1920, 1080), (40, 0));
    assert_eq!(crop_offset(1920, 1201, 1920, 1080), (0, 60));
    assert_eq!(crop_offset(1000, 500, 1920, 1080), (0, 0), "nothing overflows");
}
