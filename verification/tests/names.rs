use oxin::config::{MOD_ALT, MOD_CTRL, MOD_LOGO, MOD_SHIFT};
use oxin::names::{mod_name, parse_mods, Keysyms};

fn chars(s: &str) -> Vec<char> {
    s.chars().collect()
}

#[test]
fn a_keysym_table_answers_what_it_was_told() {
    let mut keys = Keysyms::new();
    keys.insert("Return", 0xff0d);
    keys.insert("q", 0x71);
    keys.insert("q", 0x51);
    assert_eq!(keys.lookup(&chars("Return")), Some(0xff0d));
    assert_eq!(keys.lookup(&chars("q")), Some(0x51), "the later answer wins");
    assert_eq!(keys.lookup(&chars("NoSuchKeyAtAll")), None);
    assert_eq!(keys.lookup(&chars("")), None);
}

#[test]
fn modifier_specs_parse_in_every_spelling() {
    assert_eq!(parse_mods(&chars("SUPER SHIFT"), MOD_ALT), Some(MOD_LOGO | MOD_SHIFT));
    assert_eq!(parse_mods(&chars("super+shift"), MOD_ALT), Some(MOD_LOGO | MOD_SHIFT));
    assert_eq!(parse_mods(&chars("$mod"), MOD_ALT), Some(MOD_ALT));
    assert_eq!(parse_mods(&chars("mainmod\tctrl"), MOD_LOGO), Some(MOD_LOGO | MOD_CTRL));
    assert_eq!(parse_mods(&chars("win control"), MOD_ALT), Some(MOD_LOGO | MOD_CTRL));
    assert_eq!(parse_mods(&chars(""), MOD_LOGO), Some(0));
    assert_eq!(parse_mods(&chars("HYPER"), MOD_LOGO), None);
    assert_eq!(parse_mods(&chars("SHIFT+HYPER"), MOD_LOGO), None);
    assert_eq!(parse_mods(&chars("ALT++$$Mod1"), MOD_LOGO), Some(MOD_ALT));
}

#[test]
fn modifiers_are_named_back() {
    assert_eq!(mod_name(MOD_ALT), "Alt");
    assert_eq!(mod_name(MOD_LOGO), "Super");
    assert_eq!(mod_name(MOD_LOGO | MOD_SHIFT), "custom");
}
