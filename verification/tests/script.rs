use oxin::action::{directional_action, plain_action, workspace_action, ActionError};
use oxin::config::{Action, Config, Direction, GestureTrigger, MonitorScale, MOD_ALT, MOD_LOGO, MOD_SHIFT};
use oxin::module::{
    apply, distance, modifier_name, setting_name, unknown_setting, unknown_setting_message, Applied, Fault, SETTING_COUNT,
};
use oxin::names::{parse_mods, Keysyms};
use oxin::registrars::{
    assign_gesture, assign_hold, assign_key, assign_monitor, chord_key_name, gesture_trigger, split_chord, AssignError,
    ScriptValue, TableKey,
};
use oxin::staging::Staged;

/// The keysyms xkb gives the key names these tests use.
fn keys() -> Keysyms {
    let mut k = Keysyms::new();
    for (name, sym) in [
        ("Return", 0xff0d),
        ("Q", 0x51),
        ("H", 0x48),
        ("J", 0x4a),
        ("K", 0x4b),
        ("L", 0x4c),
        ("F", 0x46),
        ("V", 0x56),
        ("q", 0x71),
        ("t", 0x74),
        ("g", 0x67),
        ("h", 0x68),
        ("j", 0x6a),
        ("k", 0x6b),
        ("z", 0x7a),
        ("plus", 0x2b),
        ("+", 0x2b),
        ("XF86AudioRaiseVolume", 0x1008ff13),
        ("XF86PowerOff", 0x1008ff2a),
    ] {
        k.insert(name, sym);
    }
    for d in 1..=9u32 {
        k.insert(&d.to_string(), 0x30 + d);
    }
    k
}

fn key(name: &str) -> u32 {
    keys().lookup(&name.chars().collect()).expect("xkb should know this key")
}

fn act(a: Action) -> ScriptValue {
    ScriptValue::Action(a)
}

fn bind_for(cfg: &Config, mods: u32, name: &str) -> Option<Action> {
    let sym = key(name);
    cfg.binds.iter().find(|b| b.mods == mods && b.keysym == sym).map(|b| b.action.clone())
}

/// Stage the chords in order, then finish the way a loaded script does.
fn load_keys(chords: Vec<(&str, ScriptValue)>) -> Result<Config, AssignError> {
    let k = keys();
    let mut staged = Staged::new();
    for (spec, v) in chords {
        assign_key(&mut staged, spec, &v, &k)?;
    }
    Ok(staged.finish(&k).config)
}

#[test]
fn a_chord_binds_a_built_in_action() {
    let cfg = load_keys(vec![("MOD+Return", act(Action::Spawn("kitty".into())))]).unwrap();
    assert_eq!(bind_for(&cfg, MOD_LOGO, "Return"), Some(Action::Spawn("kitty".into())));
}

#[test]
fn modifier_order_does_not_matter() {
    let a = load_keys(vec![("MOD+SHIFT+q", act(Action::Quit))]).unwrap();
    let b = load_keys(vec![("SHIFT+MOD+q", act(Action::Quit))]).unwrap();
    let mods = MOD_LOGO | MOD_SHIFT;
    assert_eq!(bind_for(&a, mods, "q"), Some(Action::Quit));
    assert_eq!(bind_for(&a, mods, "q"), bind_for(&b, mods, "q"));
}

#[test]
fn binding_the_same_chord_twice_replaces_rather_than_duplicates() {
    let cfg = load_keys(vec![
        ("MOD+t", act(Action::Spawn("one".into()))),
        ("MOD+t", act(Action::Spawn("two".into()))),
    ])
    .unwrap();
    let sym = key("t");
    let hits = cfg.binds.iter().filter(|b| b.mods == MOD_LOGO && b.keysym == sym).count();
    assert_eq!(hits, 1, "a keyed registrar must replace, not append");
    assert_eq!(bind_for(&cfg, MOD_LOGO, "t"), Some(Action::Spawn("two".into())));
}

#[test]
fn defaults_fill_in_around_the_config() {
    let cfg = load_keys(vec![("MOD+t", act(Action::Spawn("x".into())))]).unwrap();
    assert!(cfg.binds.len() > 20, "got {}", cfg.binds.len());
    assert_eq!(bind_for(&cfg, MOD_LOGO, "Return"), Some(Action::Spawn("kitty".into())));
}

#[test]
fn nil_unbinds_a_default_and_it_stays_unbound() {
    let with = load_keys(vec![]).unwrap();
    assert!(bind_for(&with, MOD_LOGO, "Return").is_some());
    let without = load_keys(vec![("MOD+Return", ScriptValue::Nil)]).unwrap();
    assert!(bind_for(&without, MOD_LOGO, "Return").is_none());
}

#[test]
fn a_chord_with_no_modifier_works() {
    let cfg = load_keys(vec![("XF86AudioRaiseVolume", act(Action::Spawn("up".into())))]).unwrap();
    assert_eq!(bind_for(&cfg, 0, "XF86AudioRaiseVolume"), Some(Action::Spawn("up".into())));
}

#[test]
fn a_lua_function_can_be_bound() {
    let k = keys();
    let mut staged = Staged::new();
    assign_key(&mut staged, "MOD+g", &ScriptValue::Function, &k).unwrap();
    let finished = staged.finish(&k);
    assert_eq!(bind_for(&finished.config, MOD_LOGO, "g"), Some(Action::Lua(0)));
    assert_eq!(finished.functions, 1, "the function must be kept for dispatch");
}

#[test]
fn an_unknown_key_name_is_refused() {
    let err = load_keys(vec![("MOD+Retrun", act(Action::Quit))]).unwrap_err();
    assert_eq!(err, AssignError::UnknownKey { spec: "MOD+Retrun".into(), key: "Retrun".into() });
    assert!(err.message().contains("Retrun"), "{}", err.message());
    assert!(err.message().contains("xkb"));
    assert_eq!(err.message(), "\"MOD+Retrun\": xkb does not know a key called \"Retrun\"");
    assert_eq!(chord_key_name("MOD+Retrun"), "Retrun");
}

#[test]
fn a_mistyped_action_is_refused_rather_than_silently_unbinding() {
    assert_eq!(plain_action("clsoe"), Err(ActionError::NoSuchAction));
    assert_eq!(plain_action("close"), Ok(Action::Close));
}

#[test]
fn the_modifier_must_be_set_before_any_mod_chord() {
    let k = keys();
    let mut staged = Staged::new();
    assign_key(&mut staged, "MOD+t", &act(Action::Quit), &k).unwrap();
    let err = apply(&mut staged.config, staged.mod_resolved, "modifier", &ScriptValue::Str("alt".into()))
        .unwrap_err();
    assert_eq!(err.fault, Fault::ModifierAfterBinding);
    assert!(err.fault.message().contains("before any binding"));

    // The other order is fine, and the built-ins follow the new modifier.
    let mut staged = Staged::new();
    let r = apply(&mut staged.config, staged.mod_resolved, "modifier", &ScriptValue::Str("alt".into()));
    assert_eq!(r.ok(), Some(Applied::Done));
    assign_key(&mut staged, "MOD+t", &act(Action::Quit), &k).unwrap();
    let cfg = staged.finish(&k).config;
    assert_eq!(bind_for(&cfg, MOD_ALT, "t"), Some(Action::Quit));
    assert_eq!(bind_for(&cfg, MOD_ALT, "Return"), Some(Action::Spawn("kitty".into())));
}

#[test]
fn directional_and_workspace_actions_carry_their_argument() {
    let cfg = load_keys(vec![
        ("MOD+h", act(directional_action("focus", "left").unwrap())),
        ("MOD+j", act(directional_action("move", "down").unwrap())),
        ("MOD+k", act(directional_action("resize", "up").unwrap())),
        ("MOD+3", act(workspace_action("workspace", 3).unwrap())),
    ])
    .unwrap();
    assert_eq!(bind_for(&cfg, MOD_LOGO, "h"), Some(Action::MoveFocus(Direction::Left)));
    assert_eq!(bind_for(&cfg, MOD_LOGO, "j"), Some(Action::MoveWindow(Direction::Down)));
    assert_eq!(bind_for(&cfg, MOD_LOGO, "k"), Some(Action::ResizeWindow(Direction::Up)));
    // Workspaces are 1-based in a config and 0-based in the enum.
    assert_eq!(bind_for(&cfg, MOD_LOGO, "3"), Some(Action::Workspace(2)));
}

#[test]
fn workspace_numbers_are_range_checked() {
    assert_eq!(workspace_action("workspace", 0), Err(ActionError::WorkspaceRange));
    assert_eq!(workspace_action("workspace", 99), Err(ActionError::WorkspaceRange));
    assert_eq!(workspace_action("move_to_workspace", 9), Ok(Action::MoveToWorkspace(8)));
    assert_eq!(directional_action("focus", "sideways"), Err(ActionError::BadDirection));
    assert_eq!(directional_action("focus", "L"), Ok(Action::MoveFocus(Direction::Left)));
}

fn hold_table(ms: i64, action: ScriptValue) -> ScriptValue {
    ScriptValue::Table(vec![
        (TableKey::Name("ms".into()), ScriptValue::Int(ms)),
        (TableKey::Name("action".into()), action),
    ])
}

#[test]
fn hold_binds_take_a_duration() {
    let k = keys();
    let mut staged = Staged::new();
    assign_hold(&mut staged, "XF86PowerOff", &hold_table(2000, act(Action::Quit)), &k).unwrap();
    let cfg = staged.finish(&k).config;
    assert_eq!(cfg.hold_binds.len(), 1);
    let h = &cfg.hold_binds[0];
    assert_eq!(h.duration_ms, 2000);
    assert_eq!(h.action, Action::Quit);
    assert_eq!(h.keysym, key("XF86PowerOff"));
}

#[test]
fn hold_durations_and_shapes_are_checked() {
    let k = keys();
    let mut staged = Staged::new();
    assert_eq!(
        assign_hold(&mut staged, "q", &hold_table(0, act(Action::Quit)), &k),
        Err(AssignError::HoldRange)
    );
    assert_eq!(
        assign_hold(&mut staged, "q", &hold_table(60001, act(Action::Quit)), &k),
        Err(AssignError::HoldRange)
    );
    assert_eq!(assign_hold(&mut staged, "q", &hold_table(1, ScriptValue::Nil), &k), Err(AssignError::NoAction));
    let no_ms = ScriptValue::Table(vec![(TableKey::Name("action".into()), act(Action::Quit))]);
    assert_eq!(assign_hold(&mut staged, "q", &no_ms, &k), Err(AssignError::HoldShape));
    assert_eq!(assign_hold(&mut staged, "q", &ScriptValue::Int(5), &k), Err(AssignError::HoldNotTable));
    assert!(staged.config.hold_binds.is_empty());
}

#[test]
fn a_chord_can_have_both_a_press_and_a_hold() {
    let k = keys();
    let mut staged = Staged::new();
    assign_key(&mut staged, "XF86PowerOff", &act(Action::Spawn("lock".into())), &k).unwrap();
    assign_hold(&mut staged, "XF86PowerOff", &hold_table(2000, act(Action::Spawn("menu".into()))), &k).unwrap();
    let cfg = staged.finish(&k).config;
    assert_eq!(bind_for(&cfg, 0, "XF86PowerOff"), Some(Action::Spawn("lock".into())));
    assert_eq!(cfg.hold_binds.len(), 1);
}

#[test]
fn gestures_bind_by_trigger_name() {
    let mut staged = Staged::new();
    assign_gesture(&mut staged, "bottom-up", &act(plain_action("keyboard_show").unwrap())).unwrap();
    assign_gesture(&mut staged, "three-left", &act(plain_action("move_to_workspace_prev").unwrap())).unwrap();
    assign_gesture(&mut staged, "double-tap", &act(plain_action("solo").unwrap())).unwrap();
    let cfg = staged.finish(&keys()).config;
    assert_eq!(cfg.gestures.len(), 3);
    let find = |t: GestureTrigger| cfg.gestures.iter().find(|g| g.trigger == t).map(|g| g.action.clone());
    assert_eq!(find(GestureTrigger::BottomUp), Some(Action::KeyboardShow));
    assert_eq!(find(GestureTrigger::ThreeLeft), Some(Action::MoveToWorkspacePrevious));
    assert_eq!(find(GestureTrigger::DoubleTap), Some(Action::ToggleSolo));
}

#[test]
fn an_unknown_gesture_is_refused() {
    let mut staged = Staged::new();
    assert_eq!(
        assign_gesture(&mut staged, "sideways-wiggle", &act(Action::Quit)),
        Err(AssignError::UnknownGesture("sideways-wiggle".into()))
    );
    let err = gesture_trigger("sideways-wiggle").unwrap_err();
    assert!(err.message().contains("sideways-wiggle"), "{}", err.message());
    assert_eq!(gesture_trigger("PAD-PINCH-IN"), Ok(GestureTrigger::PadPinchIn));
    assert_eq!(gesture_trigger("bottom-up"), Ok(GestureTrigger::BottomUp));
    assert_eq!(gesture_trigger("Three-Left"), Ok(GestureTrigger::ThreeLeft));
    assert_eq!(gesture_trigger("double-tap"), Ok(GestureTrigger::DoubleTap));
}

#[test]
fn a_config_can_loop_over_the_workspaces() {
    let k = keys();
    let mut staged = Staged::new();
    for i in 1..=9i64 {
        let a = workspace_action("workspace", i).unwrap();
        assign_key(&mut staged, &format!("MOD+{i}"), &act(a), &k).unwrap();
        let m = workspace_action("move_to_workspace", i).unwrap();
        assign_key(&mut staged, &format!("MOD+SHIFT+{i}"), &act(m), &k).unwrap();
    }
    let cfg = staged.finish(&k).config;
    for i in 1..=9usize {
        let name = i.to_string();
        assert_eq!(bind_for(&cfg, MOD_LOGO, &name), Some(Action::Workspace(i - 1)), "workspace {i}");
        assert_eq!(
            bind_for(&cfg, MOD_LOGO | MOD_SHIFT, &name),
            Some(Action::MoveToWorkspace(i - 1)),
            "move to workspace {i}"
        );
    }
}

#[test]
fn chords_split_at_the_last_plus() {
    let (m, k) = split_chord("MOD++");
    assert_eq!(m.iter().collect::<String>(), "MOD+");
    assert_eq!(k.iter().collect::<String>(), "+");
    let (m, k) = split_chord("  q ");
    assert!(m.is_empty());
    assert_eq!(k.iter().collect::<String>(), "q");
    let ks = keys();
    let mut staged = Staged::new();
    assert_eq!(assign_key(&mut staged, "   ", &act(Action::Quit), &ks), Err(AssignError::NoKeyName));
    assert_eq!(assign_key(&mut staged, "HYPER+q", &act(Action::Quit), &ks), Err(AssignError::UnknownModifier { spec: "HYPER+q".into(), mods: "HYPER".into() }));
    let err = assign_key(&mut staged, "HYPER+q", &act(Action::Quit), &ks).unwrap_err();
    assert_eq!(err.message(), "\"HYPER+q\": unknown modifier in \"HYPER\" (use MOD, SUPER, CTRL, ALT, SHIFT)");
    assert_eq!(assign_key(&mut staged, "q", &ScriptValue::Int(3), &ks), Err(AssignError::NotAnAction));
    assign_key(&mut staged, "MOD++", &act(Action::Quit), &ks).unwrap();
    let cfg = staged.finish(&ks).config;
    assert_eq!(bind_for(&cfg, MOD_LOGO, "+"), Some(Action::Quit));
}

// Settings

fn set(cfg: &mut Config, name: &str, v: ScriptValue) -> Result<Applied, Fault> {
    apply(cfg, false, name, &v).map_err(|e| e.fault)
}

#[test]
fn settings_are_assigned_onto_the_module() {
    let mut cfg = Config::default();
    assert_eq!(set(&mut cfg, "modifier", ScriptValue::Str("alt".into())), Ok(Applied::Done));
    assert_eq!(set(&mut cfg, "gap", ScriptValue::Int(7)), Ok(Applied::Done));
    assert_eq!(set(&mut cfg, "first_split", ScriptValue::Str("horizontal".into())), Ok(Applied::Done));
    let rgb = ScriptValue::Table(vec![
        (TableKey::Index(1), ScriptValue::Int(0)),
        (TableKey::Index(2), ScriptValue::Number),
        (TableKey::Index(3), ScriptValue::Number),
    ]);
    assert_eq!(set(&mut cfg, "background", rgb), Ok(Applied::Float));
    assert_eq!(set(&mut cfg, "wallpaper", ScriptValue::Str("~/pics/286257.jpg".into())), Ok(Applied::Done));
    assert_eq!(set(&mut cfg, "window_opacity", ScriptValue::Number), Ok(Applied::Float));
    assert_eq!(set(&mut cfg, "window_opacity", ScriptValue::Int(1)), Ok(Applied::Float));
    assert_eq!(set(&mut cfg, "corner_radius", ScriptValue::Int(40)), Ok(Applied::Done));
    let pair = ScriptValue::Table(vec![
        (TableKey::Index(1), ScriptValue::Int(70)),
        (TableKey::Index(2), ScriptValue::Int(55)),
    ]);
    assert_eq!(set(&mut cfg, "float_size", pair), Ok(Applied::Done));
    assert_eq!(set(&mut cfg, "gesture_handle", ScriptValue::Str("hidden".into())), Ok(Applied::Done));
    let kb = ScriptValue::Table(vec![
        (TableKey::Name("show".into()), ScriptValue::Str("pkill -USR2 -x patin-osk".into())),
        (TableKey::Name("hide".into()), ScriptValue::Str("pkill -USR1 -x patin-osk".into())),
        (TableKey::Name("height".into()), ScriptValue::Int(262)),
    ]);
    assert_eq!(set(&mut cfg, "keyboard", kb), Ok(Applied::Done));

    assert_eq!(cfg.modifier, MOD_ALT);
    assert_eq!(cfg.gap, 7);
    assert!(!cfg.first_split_vertical);
    assert_eq!(cfg.wallpaper.as_deref(), Some("~/pics/286257.jpg"));
    assert_eq!(cfg.corner_radius, 40);
    assert_eq!(cfg.float_size, (70, 55));
    assert!(!cfg.gesture_handle_visible);
    assert_eq!(cfg.virtual_keyboard_show.as_deref(), Some("pkill -USR2 -x patin-osk"));
    assert_eq!(cfg.virtual_keyboard_hide.as_deref(), Some("pkill -USR1 -x patin-osk"));
    assert_eq!(cfg.virtual_keyboard_height, 262);
}

#[test]
fn a_setting_the_config_never_mentions_keeps_its_default() {
    let defaults = Config::default();
    let mut cfg = Config::default();
    set(&mut cfg, "gap", ScriptValue::Int(9)).unwrap();
    assert_eq!(cfg.gap, 9);
    assert_eq!(cfg.modifier, defaults.modifier);
    assert_eq!(cfg.corner_radius, defaults.corner_radius);
}

#[test]
fn a_typo_is_refused_and_names_the_setting_it_meant() {
    let mut cfg = Config::default();
    let err = apply(&mut cfg, false, "gpa", &ScriptValue::Int(4)).unwrap_err();
    assert_eq!(err.fault, Fault::UnknownSetting);
    assert_eq!(err.setting, "gpa");
    assert_eq!(unknown_setting("gpa"), Some("gap"));
    assert_eq!(err.message(), format!("oxin has no setting {:?} — did you mean {:?}?", "gpa", "gap"));
    assert_eq!(unknown_setting_message("gpa"), "oxin has no setting \"gpa\" — did you mean \"gap\"?");
}

#[test]
fn an_unrecognisable_name_lists_the_settings() {
    assert_eq!(unknown_setting("frobnicate"), None);
    let names: Vec<&str> = (0..SETTING_COUNT).map(setting_name).collect();
    assert!(names.contains(&"corner_radius"));
    assert_eq!(names.len(), 10);
    let text = unknown_setting_message("frobnicate");
    assert!(text.contains("frobnicate"), "{text}");
    assert!(text.contains("corner_radius"), "should list settings: {text}");
    let mut cfg = Config::default();
    let err = apply(&mut cfg, false, "frobnicate", &ScriptValue::Int(1)).unwrap_err();
    assert_eq!(err.message(), text);
}

#[test]
fn a_wrong_type_says_what_it_wanted() {
    let mut cfg = Config::default();
    let f = set(&mut cfg, "gap", ScriptValue::Str("wide".into())).unwrap_err();
    assert!(f.message().contains("whole number"));
}

#[test]
fn out_of_range_values_are_refused() {
    let mut cfg = Config::default();
    assert_eq!(set(&mut cfg, "corner_radius", ScriptValue::Int(9000)), Err(Fault::OutOfRange));
    assert_eq!(set(&mut cfg, "gap", ScriptValue::Int(-1)), Err(Fault::Negative));
    let pair = ScriptValue::Table(vec![
        (TableKey::Index(1), ScriptValue::Int(0)),
        (TableKey::Index(2), ScriptValue::Int(60)),
    ]);
    assert_eq!(set(&mut cfg, "float_size", pair), Err(Fault::OutOfRange));
    assert_eq!(set(&mut cfg, "window_opacity", ScriptValue::Int(2)), Err(Fault::OutOfRange));
    assert_eq!(set(&mut cfg, "window_opacity", ScriptValue::Str("full".into())), Err(Fault::WantNumber));
    assert_eq!(set(&mut cfg, "background", ScriptValue::Nil), Err(Fault::WantTable));
    let two = ScriptValue::Table(vec![
        (TableKey::Index(1), ScriptValue::Int(0)),
        (TableKey::Index(2), ScriptValue::Int(1)),
    ]);
    assert_eq!(set(&mut cfg, "background", two), Err(Fault::WantTriple));
    assert_eq!(cfg.corner_radius, Config::default().corner_radius);
    assert_eq!(cfg.gap, Config::default().gap);
}

#[test]
fn reassignment_is_guarded_too() {
    let mut cfg = Config::default();
    set(&mut cfg, "gap", ScriptValue::Int(4)).unwrap();
    let f = set(&mut cfg, "gap", ScriptValue::Str("wide".into())).unwrap_err();
    assert!(f.message().contains("whole number"));
    assert_eq!(cfg.gap, 4);
}

#[test]
fn a_bad_keyboard_member_refuses_the_whole_table() {
    let mut cfg = Config::default();
    let kb = ScriptValue::Table(vec![
        (TableKey::Name("show".into()), ScriptValue::Str("osk".into())),
        (TableKey::Name("height".into()), ScriptValue::Int(20)),
    ]);
    let err = apply(&mut cfg, false, "keyboard", &kb).unwrap_err();
    assert_eq!(err.setting, "keyboard.height");
    assert_eq!(err.fault, Fault::OutOfRange);
    assert_eq!(cfg.virtual_keyboard_show, Config::default().virtual_keyboard_show);
    let kb = ScriptValue::Table(vec![(TableKey::Name("width".into()), ScriptValue::Int(300))]);
    assert_eq!(apply(&mut cfg, false, "keyboard", &kb).unwrap_err().fault, Fault::NoSuchMember);
}

#[test]
fn edit_distance_counts_single_character_edits() {
    let c = |s: &str| s.chars().collect::<Vec<char>>();
    assert_eq!(distance(&c("gpa"), &c("gap")), 2);
    assert_eq!(distance(&c("kitten"), &c("sitting")), 3);
    assert_eq!(distance(&c(""), &c("abc")), 3);
    assert_eq!(distance(&c("same"), &c("same")), 0);
    assert_eq!(unknown_setting("corner_radios"), Some("corner_radius"));
}

#[test]
fn monitors_are_keyed_by_connector_name() {
    let place = |x: i64, y: i64, scale: Option<i64>| {
        let mut t = vec![
            (TableKey::Name("x".into()), ScriptValue::Int(x)),
            (TableKey::Name("y".into()), ScriptValue::Int(y)),
        ];
        if let Some(s) = scale {
            t.push((TableKey::Name("scale".into()), ScriptValue::Int(s)));
        }
        ScriptValue::Table(t)
    };
    let mut staged = Staged::new();
    assign_monitor(&mut staged, "DP-1", &place(0, 0, Some(1))).unwrap();
    assign_monitor(&mut staged, "DP-2", &place(1920, 0, None)).unwrap();
    assign_monitor(&mut staged, "DP-1", &place(0, -1080, Some(2))).unwrap();
    let cfg = staged.finish(&keys()).config;
    assert_eq!(cfg.monitors.len(), 2, "the repeat must replace, not duplicate");
    let dp1 = cfg.monitors.iter().find(|m| m.name == "DP-1").unwrap();
    assert_eq!((dp1.x, dp1.y, dp1.scale), (0, -1080, MonitorScale::Whole(2)));
    // Omitted members take sensible defaults rather than failing.
    let dp2 = cfg.monitors.iter().find(|m| m.name == "DP-2").unwrap();
    assert_eq!((dp2.x, dp2.y, dp2.scale), (1920, 0, MonitorScale::Unset));
}

#[test]
fn a_monitor_placement_is_checked_and_can_be_removed() {
    let mut staged = Staged::new();
    let bad = ScriptValue::Table(vec![(TableKey::Name("scale".into()), ScriptValue::Int(0))]);
    let err = assign_monitor(&mut staged, "DP-1", &bad).unwrap_err();
    assert_eq!(err, AssignError::ScaleNotPositive);
    assert_eq!(err.message(), "oxin.monitors: scale must be greater than 0");
    assert_eq!(assign_monitor(&mut staged, "DP-1", &ScriptValue::Int(3)), Err(AssignError::MonitorNotTable));
    let frac = ScriptValue::Table(vec![(TableKey::Name("scale".into()), ScriptValue::Number)]);
    assign_monitor(&mut staged, "DP-1", &frac).unwrap();
    assert_eq!(staged.config.monitors[0].scale, MonitorScale::Fraction);
    assert_eq!(staged.config.monitors[0].x, 0);
    assign_monitor(&mut staged, "DP-1", &ScriptValue::Nil).unwrap();
    assert!(staged.config.monitors.is_empty());
}

#[test]
fn modifier_names_read_back() {
    for m in [MOD_ALT, MOD_LOGO] {
        let name = modifier_name(m);
        assert_eq!(parse_mods(&name.chars().collect(), MOD_LOGO), Some(m));
        assert_eq!(parse_mods(&name.chars().collect(), MOD_ALT), Some(m));
    }
    assert_eq!(modifier_name(MOD_ALT), "Alt");
    assert_eq!(modifier_name(MOD_LOGO), "Super");
    assert_eq!(modifier_name(MOD_SHIFT), "custom");
}

#[test]
fn refused_settings_read_as_the_script_author_expects() {
    let mut cfg = Config::default();
    let says = |cfg: &mut Config, name: &str, v: ScriptValue| apply(cfg, false, name, &v).unwrap_err().message();
    assert_eq!(says(&mut cfg, "modifier", ScriptValue::Str("HYPER".into())), "oxin.modifier: unknown modifier \"HYPER\"");
    assert_eq!(
        says(&mut cfg, "first_split", ScriptValue::Str("diagonal".into())),
        "oxin.first_split: expected \"vertical\" or \"horizontal\", got \"diagonal\"",
    );
    assert_eq!(
        says(&mut cfg, "gesture_handle", ScriptValue::Str("shown".into())),
        "oxin.gesture_handle: expected \"visible\" or \"hidden\", got \"shown\"",
    );
    let kb = ScriptValue::Table(vec![(TableKey::Name("size".into()), ScriptValue::Int(1))]);
    assert_eq!(says(&mut cfg, "keyboard", kb), "oxin.keyboard has no \"size\"; it takes show, hide and height");
    let kb = ScriptValue::Table(vec![(TableKey::Name("height".into()), ScriptValue::Int(50))]);
    assert_eq!(says(&mut cfg, "keyboard", kb), "oxin.keyboard.height: must be between 80 and 1000");
    assert_eq!(says(&mut cfg, "corner_radius", ScriptValue::Int(300)), "oxin.corner_radius: must be between 0 and 200");
    let fs = ScriptValue::Table(vec![
        (TableKey::Index(1), ScriptValue::Int(0)),
        (TableKey::Index(2), ScriptValue::Int(50)),
    ]);
    assert_eq!(says(&mut cfg, "float_size", fs), "oxin.float_size: both values are percentages, between 1 and 100");
    assert_eq!(says(&mut cfg, "window_opacity", ScriptValue::Int(2)), "oxin.window_opacity: must be between 0.0 and 1.0");
    assert_eq!(says(&mut cfg, "gap", ScriptValue::Int(-1)), "oxin.gap: must not be negative");
    assert_eq!(cfg.gap, Config::default().gap, "a refusal changes nothing");
}
