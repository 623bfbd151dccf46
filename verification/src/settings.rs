//! Reading a line-based `key = value` configuration into a [`Config`].
//!
//! Scalars come first (the modifier has to be known before any `MOD` in a
//! bind is resolved); binds, hold binds and gestures follow in passes of
//! their own. Binds and gestures never replace the table wholesale: each line
//! overrides the entry for its chord or trigger and leaves every other one in
//! place. Anything that cannot be parsed is reported and skipped, so a typo
//! never stops the compositor from starting.

use vstd::prelude::*;
use crate::config::{
    default_config, Bind, BindV, Config, ConfigV, GestureBind, GestureBindV, GestureTrigger,
    HoldBind, HoldBindV, MonitorPlaceV, MOD_ALT, MOD_LOGO,
};
use crate::defaults::{binds_view, builtin_keys_known, default_binds, spec_default_binds};
use crate::registrars::{named, upsert_monitor};
use crate::names::{parse_mods, same_chars, spec_lookup, spec_parse_mods, Keysyms};
use crate::parse::{
    head_rest, head_rest_exec, is_content, opt_chars, parse_action, parse_monitor, spec_parse_monitor,
    parse_float_size, parse_gesture, spec_parse_action, spec_parse_float_size, spec_parse_gesture,
    spec_split_kv, split_kv, split_lines, text_lines,
};
use crate::seqs::{
    first_where, is_first_where, lemma_first_where_is, lemma_first_where_none, lemma_first_where_some,
    lemma_none_first_means_none, lemma_upsert_keyed, keys_unique, upsert,
};
use crate::text::{
    chars_of, eq_lit, lower, lower_char, lower_exec, parse_i32, parse_i32_exec, string_of, trim, trim_exec,
};

verus! {

/// Why a configuration line was skipped.
#[derive(Clone, Copy, PartialEq, Eq, Structural, Debug)]
pub enum WarnKind {
    UnknownModifier,
    InvalidGap,
    InvalidFirstSplit,
    InvalidFloatSize,
    EmptyFloatRule,
    InvalidKeyboardHeight,
    InvalidGestureHandle,
    InvalidCornerRadius,
    EmptyExecOnce,
    UnknownSetting,
    InvalidBind,
    InvalidGesture,
    InvalidHold,
    InvalidMonitor,
}

impl WarnKind {
    /// What the log line says about it.
    pub fn message(self) -> (r: &'static str)
        ensures
            r@ == (match self {
                WarnKind::UnknownModifier => "unknown modifier"@,
                WarnKind::InvalidGap => "invalid gap"@,
                WarnKind::InvalidFirstSplit => "invalid first_split (want `vertical` or `horizontal`)"@,
                WarnKind::InvalidFloatSize => "invalid float_size (want `W x H` percent, 1-100)"@,
                WarnKind::EmptyFloatRule => "empty float rule (want `float = APP_ID`)"@,
                WarnKind::InvalidKeyboardHeight => "invalid virtual_keyboard_height (want 80..1000 logical pixels)"@,
                WarnKind::InvalidGestureHandle => "invalid gesture_handle (want `visible` or `hidden`)"@,
                WarnKind::InvalidCornerRadius => "invalid corner_radius (want 0..200 pixels)"@,
                WarnKind::EmptyExecOnce => "empty exec_once (want `exec_once = COMMAND`)"@,
                WarnKind::UnknownSetting => "unknown setting"@,
                WarnKind::InvalidBind => "invalid bind"@,
                WarnKind::InvalidGesture => "invalid gesture"@,
                WarnKind::InvalidHold => "invalid hold"@,
                WarnKind::InvalidMonitor => "invalid monitor (want `NAME, XxY[, SCALE]`)"@,
            }),
    {
        match self {
            WarnKind::UnknownModifier => "unknown modifier",
            WarnKind::InvalidGap => "invalid gap",
            WarnKind::InvalidFirstSplit => "invalid first_split (want `vertical` or `horizontal`)",
            WarnKind::InvalidFloatSize => "invalid float_size (want `W x H` percent, 1-100)",
            WarnKind::EmptyFloatRule => "empty float rule (want `float = APP_ID`)",
            WarnKind::InvalidKeyboardHeight => "invalid virtual_keyboard_height (want 80..1000 logical pixels)",
            WarnKind::InvalidGestureHandle => "invalid gesture_handle (want `visible` or `hidden`)",
            WarnKind::InvalidCornerRadius => "invalid corner_radius (want 0..200 pixels)",
            WarnKind::EmptyExecOnce => "empty exec_once (want `exec_once = COMMAND`)",
            WarnKind::UnknownSetting => "unknown setting",
            WarnKind::InvalidBind => "invalid bind",
            WarnKind::InvalidGesture => "invalid gesture",
            WarnKind::InvalidHold => "invalid hold",
            WarnKind::InvalidMonitor => "invalid monitor (want `NAME, XxY[, SCALE]`)",
        }
    }
}

/// A skipped line: its 1-based number, why, and its (trimmed) text.
pub struct Warning {
    pub line: usize,
    pub kind: WarnKind,
    pub raw: String,
}

pub ghost struct WarningV {
    pub line: int,
    pub kind: WarnKind,
    pub raw: Seq<char>,
}

impl View for Warning {
    type V = WarningV;

    open spec fn view(&self) -> WarningV {
        WarningV { line: self.line as int, kind: self.kind, raw: self.raw@ }
    }
}

pub open spec fn warnings_view(v: Seq<Warning>) -> Seq<WarningV> {
    v.map_values(|w: Warning| w@)
}

/// A setting whose value is fractional; the shell parses and applies it.
#[derive(Clone, Copy, PartialEq, Eq, Structural, Debug)]
pub enum FloatSetting {
    Background,
    WindowOpacity,
}

/// A line handed on to the shell: its number, which setting, the value and
/// the whole line.
pub struct Deferred {
    pub line: usize,
    pub setting: FloatSetting,
    pub value: String,
    pub raw: String,
}

pub ghost struct DeferredV {
    pub line: int,
    pub setting: FloatSetting,
    pub value: Seq<char>,
    pub raw: Seq<char>,
}

impl View for Deferred {
    type V = DeferredV;

    open spec fn view(&self) -> DeferredV {
        DeferredV {
            line: self.line as int,
            setting: self.setting,
            value: self.value@,
            raw: self.raw@,
        }
    }
}

pub open spec fn deferred_view(v: Seq<Deferred>) -> Seq<DeferredV> {
    v.map_values(|d: Deferred| d@)
}

/// What the scalar pass reports besides the settings it applied.
pub struct ScalarReport {
    pub warnings: Vec<Warning>,
    pub deferred: Vec<Deferred>,
}

/// One scalar setting line's effect: the new settings, and a warning or a
/// fractional setting handed on, if any.
pub open spec fn scalar_step(c: ConfigV, key: Seq<char>, val: Seq<char>) -> (
    ConfigV,
    Option<WarnKind>,
    Option<FloatSetting>,
) {
    if key == "modifier"@ {
        match spec_parse_mods(val, MOD_LOGO) {
            Some(m) => (ConfigV { modifier: m, ..c }, None, None),
            None => (c, Some(WarnKind::UnknownModifier), None),
        }
    } else if key == "gap"@ {
        match parse_i32(val) {
            Some(g) => if g >= 0 {
                (ConfigV { gap: g, ..c }, None, None)
            } else {
                (c, Some(WarnKind::InvalidGap), None)
            },
            None => (c, Some(WarnKind::InvalidGap), None),
        }
    } else if key == "first_split"@ {
        if val == "vertical"@ {
            (ConfigV { first_split_vertical: true, ..c }, None, None)
        } else if val == "horizontal"@ {
            (ConfigV { first_split_vertical: false, ..c }, None, None)
        } else {
            (c, Some(WarnKind::InvalidFirstSplit), None)
        }
    } else if key == "background"@ {
        (c, None, Some(FloatSetting::Background))
    } else if key == "window_opacity"@ {
        (c, None, Some(FloatSetting::WindowOpacity))
    } else if key == "monitor"@ {
        match spec_parse_monitor(val) {
            Some(m) => (ConfigV { monitors: upsert(c.monitors, named(m.name), m), ..c }, None, None),
            None => (c, Some(WarnKind::InvalidMonitor), None),
        }
    } else if key == "wallpaper"@ {
        (ConfigV { wallpaper: if val.len() > 0 { Some(val) } else { None }, ..c }, None, None)
    } else if key == "corner_radius"@ {
        match parse_i32(val) {
            Some(r) => if 0 <= r <= 200 {
                (ConfigV { corner_radius: r, ..c }, None, None)
            } else {
                (c, Some(WarnKind::InvalidCornerRadius), None)
            },
            None => (c, Some(WarnKind::InvalidCornerRadius), None),
        }
    } else if key == "exec_once"@ {
        if val.len() > 0 {
            (ConfigV { exec_once: c.exec_once.push(val), ..c }, None, None)
        } else {
            (c, Some(WarnKind::EmptyExecOnce), None)
        }
    } else if key == "float_size"@ {
        match spec_parse_float_size(val) {
            Some(s) => (ConfigV { float_size: s, ..c }, None, None),
            None => (c, Some(WarnKind::InvalidFloatSize), None),
        }
    } else if key == "float"@ {
        let app = lower(val);
        if app.len() == 0 {
            (c, Some(WarnKind::EmptyFloatRule), None)
        } else if c.float_rules.contains(app) {
            (c, None, None)
        } else {
            (ConfigV { float_rules: c.float_rules.push(app), ..c }, None, None)
        }
    } else if key == "virtual_keyboard_show"@ {
        (
            ConfigV { virtual_keyboard_show: if val.len() > 0 { Some(val) } else { None }, ..c },
            None,
            None,
        )
    } else if key == "virtual_keyboard_hide"@ {
        (
            ConfigV { virtual_keyboard_hide: if val.len() > 0 { Some(val) } else { None }, ..c },
            None,
            None,
        )
    } else if key == "virtual_keyboard_height"@ {
        match parse_i32(val) {
            Some(h) => if 80 <= h <= 1000 {
                (ConfigV { virtual_keyboard_height: h, ..c }, None, None)
            } else {
                (c, Some(WarnKind::InvalidKeyboardHeight), None)
            },
            None => (c, Some(WarnKind::InvalidKeyboardHeight), None),
        }
    } else if key == "gesture_handle"@ {
        if val == "visible"@ {
            (ConfigV { gesture_handle_visible: true, ..c }, None, None)
        } else if val == "hidden"@ {
            (ConfigV { gesture_handle_visible: false, ..c }, None, None)
        } else {
            (c, Some(WarnKind::InvalidGestureHandle), None)
        }
    } else if key == "bind"@ || key == "gesture"@ || key == "hold"@ {
        (c, None, None)
    } else {
        (c, Some(WarnKind::UnknownSetting), None)
    }
}

/// The state of the scalar pass after some lines.
pub ghost struct ScalarState {
    pub cfg: ConfigV,
    pub warnings: Seq<WarningV>,
    pub deferred: Seq<DeferredV>,
}

/// One line's effect on the scalar pass; `n` is its 1-based number and `l`
/// its trimmed text.
pub open spec fn scalars_line(s: ScalarState, n: int, l: Seq<char>) -> ScalarState {
    if !is_content(l) {
        s
    } else {
        match spec_split_kv(l) {
            None => s,
            Some((key, val)) => {
                let (c, w, d) = scalar_step(s.cfg, key, val);
                ScalarState {
                    cfg: c,
                    warnings: match w {
                        Some(kind) => s.warnings.push(WarningV { line: n, kind, raw: l }),
                        None => s.warnings,
                    },
                    deferred: match d {
                        Some(setting) => s.deferred.push(
                            DeferredV { line: n, setting, value: val, raw: l },
                        ),
                        None => s.deferred,
                    },
                }
            },
        }
    }
}

/// The scalar pass over the first `k` lines of `ls`, from settings `c0`.
pub open spec fn scalars_fold(c0: ConfigV, ls: Seq<Seq<char>>, k: nat) -> ScalarState
    decreases k,
{
    if k == 0 || k > ls.len() {
        ScalarState { cfg: c0, warnings: Seq::empty(), deferred: Seq::empty() }
    } else {
        scalars_line(scalars_fold(c0, ls, (k - 1) as nat), k as int, trim(ls[k - 1]))
    }
}

/// The whole scalar pass over `text`.
pub open spec fn spec_parse_scalars(c0: ConfigV, text: Seq<char>) -> ScalarState {
    scalars_fold(c0, text_lines(text), text_lines(text).len())
}

/// The one chord rule: same modifiers and same keysym.
pub open spec fn same_chord(mods: u32, keysym: u32) -> spec_fn(BindV) -> bool {
    |b: BindV| b.mods == mods && b.keysym == keysym
}

/// `bind = MODS, KEY, ACTION[, ARG]`: the argument is everything after the
/// third comma, commas and all.
pub open spec fn spec_parse_bind(val: Seq<char>, modifier: u32, keys: Map<Seq<char>, u32>) -> Option<
    BindV,
> {
    let (p1, r1) = head_rest(val, ',');
    match (spec_parse_mods(trim(p1), modifier), r1) {
        (Some(mods), Some(r1)) => {
            let (p2, r2) = head_rest(r1, ',');
            match (spec_lookup(keys, trim(p2)), r2) {
                (Some(keysym), Some(r2)) => {
                    let (p3, r3) = head_rest(r2, ',');
                    let arg = match r3 {
                        Some(a) => Some(trim(a)),
                        None => None,
                    };
                    match spec_parse_action(trim(p3), arg) {
                        Some(action) => Some(BindV { mods, keysym, action }),
                        None => None,
                    }
                },
                _ => None,
            }
        },
        _ => None,
    }
}

/// One line's effect on the binds and warnings of the bind pass; `n` is
/// its 1-based number and `l` its trimmed text.
pub open spec fn binds_step(
    b: Seq<BindV>,
    w: Seq<WarningV>,
    modifier: u32,
    keys: Map<Seq<char>, u32>,
    n: int,
    l: Seq<char>,
) -> (Seq<BindV>, Seq<WarningV>) {
    if !is_content(l) {
        (b, w)
    } else {
        match spec_split_kv(l) {
            Some((key, val)) => if key == "bind"@ {
                match spec_parse_bind(val, modifier, keys) {
                    Some(nb) => (upsert(b, same_chord(nb.mods, nb.keysym), nb), w),
                    None => (b, w.push(WarningV { line: n, kind: WarnKind::InvalidBind, raw: l })),
                }
            } else {
                (b, w)
            },
            None => (b, w),
        }
    }
}

/// The binds after `bind =` lines among the first `k` lines of `ls`, and the
/// warnings for the ones that did not parse.
pub open spec fn binds_fold(
    binds: Seq<BindV>,
    modifier: u32,
    keys: Map<Seq<char>, u32>,
    ls: Seq<Seq<char>>,
    k: nat,
) -> (Seq<BindV>, Seq<WarningV>)
    decreases k,
{
    if k == 0 || k > ls.len() {
        (binds, Seq::empty())
    } else {
        let (b, w) = binds_fold(binds, modifier, keys, ls, (k - 1) as nat);
        binds_step(b, w, modifier, keys, k as int, trim(ls[k - 1]))
    }
}

/// The one trigger rule for gestures.
pub open spec fn same_trigger(t: GestureTrigger) -> spec_fn(GestureBindV) -> bool {
    |g: GestureBindV| g.trigger == t
}

/// One line's effect on the gesture pass.
pub open spec fn gestures_step(g: Seq<GestureBindV>, w: Seq<WarningV>, n: int, l: Seq<char>) -> (
    Seq<GestureBindV>,
    Seq<WarningV>,
) {
    if !is_content(l) {
        (g, w)
    } else {
        match spec_split_kv(l) {
            Some((key, val)) => if key == "gesture"@ {
                match spec_parse_gesture(val) {
                    Some(ng) => (upsert(g, same_trigger(ng.trigger), ng), w),
                    None => (g, w.push(WarningV { line: n, kind: WarnKind::InvalidGesture, raw: l })),
                }
            } else {
                (g, w)
            },
            None => (g, w),
        }
    }
}

/// The gestures after `gesture =` lines among the first `k` lines of `ls`.
pub open spec fn gestures_fold(gs: Seq<GestureBindV>, ls: Seq<Seq<char>>, k: nat) -> (
    Seq<GestureBindV>,
    Seq<WarningV>,
)
    decreases k,
{
    if k == 0 || k > ls.len() {
        (gs, Seq::empty())
    } else {
        let (g, w) = gestures_fold(gs, ls, (k - 1) as nat);
        gestures_step(g, w, k as int, trim(ls[k - 1]))
    }
}

/// How long a hold must last, in milliseconds: from 100 to 60000.
pub open spec fn hold_ms_ok(ms: i32) -> bool {
    100 <= ms <= 60000
}

/// `hold = MODS, KEY, MS, ACTION[, ARG]`.
pub open spec fn spec_parse_hold(val: Seq<char>, modifier: u32, keys: Map<Seq<char>, u32>) -> Option<
    HoldBindV,
> {
    let (p1, r1) = head_rest(val, ',');
    match (spec_parse_mods(trim(p1), modifier), r1) {
        (Some(mods), Some(r1)) => {
            let (p2, r2) = head_rest(r1, ',');
            match (spec_lookup(keys, trim(p2)), r2) {
                (Some(keysym), Some(r2)) => {
                    let (p3, r3) = head_rest(r2, ',');
                    match (parse_i32(trim(p3)), r3) {
                        (Some(ms), Some(r3)) => if hold_ms_ok(ms) {
                            let (p4, r4) = head_rest(r3, ',');
                            let arg = match r4 {
                                Some(a) => Some(trim(a)),
                                None => None,
                            };
                            match spec_parse_action(trim(p4), arg) {
                                Some(action) => Some(
                                    HoldBindV { mods, keysym, duration_ms: ms, action },
                                ),
                                None => None,
                            }
                        } else {
                            None
                        },
                        _ => None,
                    }
                },
                _ => None,
            }
        },
        _ => None,
    }
}

pub open spec fn same_hold_chord(mods: u32, keysym: u32) -> spec_fn(HoldBindV) -> bool {
    |h: HoldBindV| h.mods == mods && h.keysym == keysym
}

/// One line's effect on the hold pass.
pub open spec fn holds_step(
    h: Seq<HoldBindV>,
    w: Seq<WarningV>,
    modifier: u32,
    keys: Map<Seq<char>, u32>,
    n: int,
    l: Seq<char>,
) -> (Seq<HoldBindV>, Seq<WarningV>) {
    if !is_content(l) {
        (h, w)
    } else {
        match spec_split_kv(l) {
            Some((key, val)) => if key == "hold"@ {
                match spec_parse_hold(val, modifier, keys) {
                    Some(nh) => (upsert(h, same_hold_chord(nh.mods, nh.keysym), nh), w),
                    None => (h, w.push(WarningV { line: n, kind: WarnKind::InvalidHold, raw: l })),
                }
            } else {
                (h, w)
            },
            None => (h, w),
        }
    }
}

/// The hold binds after `hold =` lines among the first `k` lines of `ls`.
pub open spec fn holds_fold(
    hs: Seq<HoldBindV>,
    modifier: u32,
    keys: Map<Seq<char>, u32>,
    ls: Seq<Seq<char>>,
    k: nat,
) -> (Seq<HoldBindV>, Seq<WarningV>)
    decreases k,
{
    if k == 0 || k > ls.len() {
        (hs, Seq::empty())
    } else {
        let (h, w) = holds_fold(hs, modifier, keys, ls, (k - 1) as nat);
        holds_step(h, w, modifier, keys, k as int, trim(ls[k - 1]))
    }
}

pub open spec fn holds_view(v: Seq<HoldBind>) -> Seq<HoldBindV> {
    v.map_values(|h: HoldBind| h@)
}

pub open spec fn gestures_view(v: Seq<GestureBind>) -> Seq<GestureBindV> {
    v.map_values(|g: GestureBind| g@)
}

pub open spec fn opt_bind(o: Option<Bind>) -> Option<BindV> {
    match o {
        Some(b) => Some(b@),
        None => None,
    }
}

pub open spec fn opt_hold(o: Option<HoldBind>) -> Option<HoldBindV> {
    match o {
        Some(h) => Some(h@),
        None => None,
    }
}

/// A trimmed optional argument.
fn trim_arg(o: &Option<Vec<char>>) -> (r: Option<Vec<char>>)
    ensures
        opt_chars(r) == (match opt_chars(*o) {
            Some(a) => Some(trim(a)),
            None => None,
        }),
{
    match o {
        Some(a) => Some(trim_exec(a)),
        None => None,
    }
}

/// A skipped line's record.
fn warning(line: usize, kind: WarnKind, raw: &Vec<char>) -> (r: Warning)
    ensures
        r@ == (WarningV { line: line as int, kind, raw: raw@ }),
{
    Warning { line, kind, raw: string_of(raw) }
}

/// Whether `rules` already holds `app`.
fn holds_rule(rules: &Vec<String>, app: &Vec<char>) -> (r: bool)
    ensures
        r == rules@.map_values(|s: String| s@).contains(app@),
{
    let ghost v = rules@.map_values(|s: String| s@);
    let mut i: usize = 0;
    while i < rules.len()
        invariant
            i <= rules.len(),
            v == rules@.map_values(|s: String| s@),
            forall|k: int| 0 <= k < i ==> v[k] != app@,
        decreases rules.len() - i,
    {
        if same_chars(&chars_of(rules[i].as_str()), app) {
            assert(v[i as int] == app@);
            return true;
        }
        i += 1;
    }
    false
}

impl Config {
    /// Apply one scalar `key = value` setting.
    fn apply_scalar(&mut self, key: &Vec<char>, val: &Vec<char>) -> (r: (Option<WarnKind>, Option<FloatSetting>))
        ensures
            final(self)@ == scalar_step(old(self)@, key@, val@).0,
            r.0 == scalar_step(old(self)@, key@, val@).1,
            r.1 == scalar_step(old(self)@, key@, val@).2,
    {
        if eq_lit(key, "modifier") {
            match parse_mods(val, MOD_LOGO) {
                Some(m) => {
                    self.modifier = m;
                    (None, None)
                },
                None => (Some(WarnKind::UnknownModifier), None),
            }
        } else if eq_lit(key, "gap") {
            match parse_i32_exec(val) {
                Some(g) => if g >= 0 {
                    self.gap = g;
                    (None, None)
                } else {
                    (Some(WarnKind::InvalidGap), None)
                },
                None => (Some(WarnKind::InvalidGap), None),
            }
        } else if eq_lit(key, "first_split") {
            if eq_lit(val, "vertical") {
                self.first_split_vertical = true;
                (None, None)
            } else if eq_lit(val, "horizontal") {
                self.first_split_vertical = false;
                (None, None)
            } else {
                (Some(WarnKind::InvalidFirstSplit), None)
            }
        } else if eq_lit(key, "background") {
            (None, Some(FloatSetting::Background))
        } else if eq_lit(key, "window_opacity") {
            (None, Some(FloatSetting::WindowOpacity))
        } else if eq_lit(key, "monitor") {
            match parse_monitor(val) {
                Some(m) => {
                    let ghost mv = m@;
                    upsert_monitor(&mut self.monitors, m);
                    proof {
                        assert(self@.monitors == upsert(old(self)@.monitors, named(mv.name), mv));
                    }
                    (None, None)
                },
                None => (Some(WarnKind::InvalidMonitor), None),
            }
        } else if eq_lit(key, "wallpaper") {
            self.wallpaper = if val.len() > 0 {
                Some(string_of(val))
            } else {
                None
            };
            (None, None)
        } else if eq_lit(key, "corner_radius") {
            match parse_i32_exec(val) {
                Some(r) => if 0 <= r && r <= 200 {
                    self.corner_radius = r;
                    (None, None)
                } else {
                    (Some(WarnKind::InvalidCornerRadius), None)
                },
                None => (Some(WarnKind::InvalidCornerRadius), None),
            }
        } else if eq_lit(key, "exec_once") {
            if val.len() > 0 {
                let ghost before = self@.exec_once;
                self.exec_once.push(string_of(val));
                assert(self@.exec_once =~= before.push(val@));
                (None, None)
            } else {
                (Some(WarnKind::EmptyExecOnce), None)
            }
        } else if eq_lit(key, "float_size") {
            match parse_float_size(val) {
                Some(s) => {
                    self.float_size = s;
                    (None, None)
                },
                None => (Some(WarnKind::InvalidFloatSize), None),
            }
        } else if eq_lit(key, "float") {
            let app = lower_exec(val);
            if app.len() == 0 {
                (Some(WarnKind::EmptyFloatRule), None)
            } else if holds_rule(&self.float_rules, &app) {
                (None, None)
            } else {
                let ghost before = self@.float_rules;
                self.float_rules.push(string_of(&app));
                assert(self@.float_rules =~= before.push(app@));
                (None, None)
            }
        } else if eq_lit(key, "virtual_keyboard_show") {
            self.virtual_keyboard_show = if val.len() > 0 {
                Some(string_of(val))
            } else {
                None
            };
            (None, None)
        } else if eq_lit(key, "virtual_keyboard_hide") {
            self.virtual_keyboard_hide = if val.len() > 0 {
                Some(string_of(val))
            } else {
                None
            };
            (None, None)
        } else if eq_lit(key, "virtual_keyboard_height") {
            match parse_i32_exec(val) {
                Some(h) => if 80 <= h && h <= 1000 {
                    self.virtual_keyboard_height = h;
                    (None, None)
                } else {
                    (Some(WarnKind::InvalidKeyboardHeight), None)
                },
                None => (Some(WarnKind::InvalidKeyboardHeight), None),
            }
        } else if eq_lit(key, "gesture_handle") {
            if eq_lit(val, "visible") {
                self.gesture_handle_visible = true;
                (None, None)
            } else if eq_lit(val, "hidden") {
                self.gesture_handle_visible = false;
                (None, None)
            } else {
                (Some(WarnKind::InvalidGestureHandle), None)
            }
        } else if eq_lit(key, "bind") || eq_lit(key, "gesture") || eq_lit(key, "hold") {
            (None, None)
        } else {
            (Some(WarnKind::UnknownSetting), None)
        }
    }

    /// One line of the scalar pass.
    fn scalar_line(
        &mut self,
        n: usize,
        l: &Vec<char>,
        warnings: &mut Vec<Warning>,
        deferred: &mut Vec<Deferred>,
    )
        ensures
            (ScalarState {
                cfg: final(self)@,
                warnings: warnings_view(final(warnings)@),
                deferred: deferred_view(final(deferred)@),
            }) == scalars_line(
                ScalarState {
                    cfg: old(self)@,
                    warnings: warnings_view(old(warnings)@),
                    deferred: deferred_view(old(deferred)@),
                },
                n as int,
                l@,
            ),
    {
        if l.len() > 0 && l[0] != '#' {
            match split_kv(l) {
                Some((key, val)) => {
                    let ghost wb = warnings_view(warnings@);
                    let ghost db = deferred_view(deferred@);
                    let (w, d) = self.apply_scalar(&key, &val);
                    match w {
                        Some(kind) => {
                            warnings.push(warning(n, kind, l));
                            assert(warnings_view(warnings@) =~= wb.push(
                                WarningV { line: n as int, kind, raw: l@ },
                            ));
                        },
                        None => {},
                    }
                    match d {
                        Some(setting) => {
                            deferred.push(
                                Deferred {
                                    line: n,
                                    setting,
                                    value: string_of(&val),
                                    raw: string_of(l),
                                },
                            );
                            assert(deferred_view(deferred@) =~= db.push(
                                DeferredV { line: n as int, setting, value: val@, raw: l@ },
                            ));
                        },
                        None => {},
                    }
                },
                None => {},
            }
        }
    }

    /// The scalar pass: every setting but binds, hold binds and gestures.
    /// Fractional settings are handed on in the report, unparsed.
    pub fn parse_scalars(&mut self, text: &str) -> (r: ScalarReport)
        ensures
            final(self)@ == spec_parse_scalars(old(self)@, text@).cfg,
            warnings_view(r.warnings@) == spec_parse_scalars(old(self)@, text@).warnings,
            deferred_view(r.deferred@) == spec_parse_scalars(old(self)@, text@).deferred,
    {
        let lines = split_lines(&chars_of(text));
        let ghost ls = text_lines(text@);
        let ghost c0 = self@;
        let mut warnings: Vec<Warning> = Vec::new();
        let mut deferred: Vec<Deferred> = Vec::new();
        let mut k: usize = 0;
        proof {
            assert(warnings_view(warnings@) =~= Seq::<WarningV>::empty());
            assert(deferred_view(deferred@) =~= Seq::<DeferredV>::empty());
        }
        while k < lines.len()
            invariant
                k <= lines.len(),
                ls == text_lines(text@),
                lines@.map_values(|l: Vec<char>| l@) == ls,
                self@ == scalars_fold(c0, ls, k as nat).cfg,
                warnings_view(warnings@) == scalars_fold(c0, ls, k as nat).warnings,
                deferred_view(deferred@) == scalars_fold(c0, ls, k as nat).deferred,
            decreases lines.len() - k,
        {
            let l = trim_exec(&lines[k]);
            proof {
                assert(ls[k as int] == lines@[k as int]@);
            }
            self.scalar_line(k + 1, &l, &mut warnings, &mut deferred);
            k += 1;
        }
        ScalarReport { warnings, deferred }
    }

    /// Parse a `bind =` value against this configuration's modifier.
    pub fn parse_bind(&self, val: &Vec<char>, keys: &Keysyms) -> (r: Option<Bind>)
        ensures
            opt_bind(r) == spec_parse_bind(val@, self.modifier, keys@),
    {
        let (p1, r1) = head_rest_exec(val, ',');
        let mods = match parse_mods(&trim_exec(&p1), self.modifier) {
            Some(m) => m,
            None => return None,
        };
        let r1 = match r1 {
            Some(r) => r,
            None => return None,
        };
        let (p2, r2) = head_rest_exec(&r1, ',');
        let keysym = match keys.lookup(&trim_exec(&p2)) {
            Some(k) => k,
            None => return None,
        };
        let r2 = match r2 {
            Some(r) => r,
            None => return None,
        };
        let (p3, r3) = head_rest_exec(&r2, ',');
        let arg = trim_arg(&r3);
        match parse_action(&trim_exec(&p3), &arg) {
            Some(action) => Some(Bind { mods, keysym, action }),
            None => None,
        }
    }

    /// The bind pass: each `bind = MODS, KEY, ACTION[, ARG]` line overrides
    /// the bind on its chord, from the defaults or an earlier line, or adds a
    /// new one.
    pub fn apply_binds(&mut self, text: &str, keys: &Keysyms) -> (r: Vec<Warning>)
        ensures
            binds_view(final(self).binds@) == binds_fold(
                old(self)@.binds,
                old(self).modifier,
                keys@,
                text_lines(text@),
                text_lines(text@).len(),
            ).0,
            warnings_view(r@) == binds_fold(
                old(self)@.binds,
                old(self).modifier,
                keys@,
                text_lines(text@),
                text_lines(text@).len(),
            ).1,
            final(self)@ == (ConfigV { binds: binds_view(final(self).binds@), ..old(self)@ }),
    {
        let mut binds: Vec<Bind> = Vec::new();
        std::mem::swap(&mut binds, &mut self.binds);
        let warnings = bind_pass(&mut binds, self.modifier, text, keys);
        std::mem::swap(&mut binds, &mut self.binds);
        warnings
    }

    /// The gesture pass: each `gesture = TRIGGER, ACTION[, ARG]` line
    /// overrides the binding for its trigger or adds one.
    pub fn apply_gestures(&mut self, text: &str) -> (r: Vec<Warning>)
        ensures
            gestures_view(final(self).gestures@) == gestures_fold(
                old(self)@.gestures,
                text_lines(text@),
                text_lines(text@).len(),
            ).0,
            warnings_view(r@) == gestures_fold(
                old(self)@.gestures,
                text_lines(text@),
                text_lines(text@).len(),
            ).1,
            final(self)@ == (ConfigV { gestures: gestures_view(final(self).gestures@), ..old(self)@ }),
    {
        let mut gs: Vec<GestureBind> = Vec::new();
        std::mem::swap(&mut gs, &mut self.gestures);
        let warnings = gesture_pass(&mut gs, text);
        std::mem::swap(&mut gs, &mut self.gestures);
        warnings
    }

    /// The hold pass: each `hold = MODS, KEY, MS, ACTION[, ARG]` line
    /// overrides the hold bind on its chord or adds one.
    pub fn apply_hold_binds(&mut self, text: &str, keys: &Keysyms) -> (r: Vec<Warning>)
        ensures
            holds_view(final(self).hold_binds@) == holds_fold(
                old(self)@.hold_binds,
                old(self).modifier,
                keys@,
                text_lines(text@),
                text_lines(text@).len(),
            ).0,
            warnings_view(r@) == holds_fold(
                old(self)@.hold_binds,
                old(self).modifier,
                keys@,
                text_lines(text@),
                text_lines(text@).len(),
            ).1,
            final(self)@ == (ConfigV { hold_binds: holds_view(final(self).hold_binds@), ..old(self)@ }),
    {
        let mut hs: Vec<HoldBind> = Vec::new();
        std::mem::swap(&mut hs, &mut self.hold_binds);
        let warnings = hold_pass(&mut hs, self.modifier, text, keys);
        std::mem::swap(&mut hs, &mut self.hold_binds);
        warnings
    }
}

/// Replace the bind on `b`'s chord, or add it.
pub(crate) fn upsert_bind(binds: &mut Vec<Bind>, b: Bind)
    ensures
        binds_view(final(binds)@) == upsert(binds_view(old(binds)@), same_chord(b.mods, b.keysym), b@),
{
    let ghost v = binds_view(binds@);
    let ghost p = same_chord(b.mods, b.keysym);
    let mut i: usize = 0;
    while i < binds.len()
        invariant
            i <= binds.len(),
            v == binds_view(binds@),
            binds@ == old(binds)@,
            p == same_chord(b.mods, b.keysym),
            forall|k: int| 0 <= k < i ==> !p(#[trigger] v[k]),
        decreases binds.len() - i,
    {
        if binds[i].mods == b.mods && binds[i].keysym == b.keysym {
            proof {
                assert(v[i as int] == binds@[i as int]@);
                assert(is_first_where(v, p, i as int));
                lemma_first_where_is(v, p, i as int);
            }
            let ghost bv = b@;
            binds.set(i, b);
            proof {
                assert(binds_view(binds@) =~= v.update(i as int, bv));
            }
            return;
        }
        proof {
            assert(v[i as int] == binds@[i as int]@);
        }
        i += 1;
    }
    proof {
        lemma_first_where_none(v, p);
    }
    let ghost bv = b@;
    binds.push(b);
    proof {
        assert(binds_view(binds@) =~= v.push(bv));
    }
}

/// Parse a `bind =` value against primary modifier `modifier`.
pub fn parse_bind(val: &Vec<char>, modifier: u32, keys: &Keysyms) -> (r: Option<Bind>)
    ensures
        opt_bind(r) == spec_parse_bind(val@, modifier, keys@),
{
    let (p1, r1) = head_rest_exec(val, ',');
    let mods = match parse_mods(&trim_exec(&p1), modifier) {
        Some(m) => m,
        None => return None,
    };
    let r1 = match r1 {
        Some(r) => r,
        None => return None,
    };
    let (p2, r2) = head_rest_exec(&r1, ',');
    let keysym = match keys.lookup(&trim_exec(&p2)) {
        Some(k) => k,
        None => return None,
    };
    let r2 = match r2 {
        Some(r) => r,
        None => return None,
    };
    let (p3, r3) = head_rest_exec(&r2, ',');
    let arg = trim_arg(&r3);
    match parse_action(&trim_exec(&p3), &arg) {
        Some(action) => Some(Bind { mods, keysym, action }),
        None => None,
    }
}

/// One line of the bind pass.
fn bind_line(
    binds: &mut Vec<Bind>,
    modifier: u32,
    n: usize,
    l: &Vec<char>,
    keys: &Keysyms,
    warnings: &mut Vec<Warning>,
)
    ensures
        (binds_view(final(binds)@), warnings_view(final(warnings)@)) == binds_step(
            binds_view(old(binds)@),
            warnings_view(old(warnings)@),
            modifier,
            keys@,
            n as int,
            l@,
        ),
{
    if l.len() > 0 && l[0] != '#' {
        match split_kv(l) {
            Some((key, val)) => {
                if eq_lit(&key, "bind") {
                    match parse_bind(&val, modifier, keys) {
                        Some(b) => {
                            upsert_bind(binds, b);
                        },
                        None => {
                            let ghost wb = warnings_view(warnings@);
                            warnings.push(warning(n, WarnKind::InvalidBind, l));
                            assert(warnings_view(warnings@) =~= wb.push(
                                WarningV { line: n as int, kind: WarnKind::InvalidBind, raw: l@ },
                            ));
                        },
                    }
                }
            },
            None => {},
        }
    }
}

/// The bind pass over `binds`.
fn bind_pass(binds: &mut Vec<Bind>, modifier: u32, text: &str, keys: &Keysyms) -> (r: Vec<Warning>)
    ensures
        binds_view(final(binds)@) == binds_fold(
            binds_view(old(binds)@),
            modifier,
            keys@,
            text_lines(text@),
            text_lines(text@).len(),
        ).0,
        warnings_view(r@) == binds_fold(
            binds_view(old(binds)@),
            modifier,
            keys@,
            text_lines(text@),
            text_lines(text@).len(),
        ).1,
{
    let lines = split_lines(&chars_of(text));
    let ghost ls = text_lines(text@);
    let ghost b0 = binds_view(old(binds)@);
    let mut warnings: Vec<Warning> = Vec::new();
    let mut k: usize = 0;
    proof {
        assert(warnings_view(warnings@) =~= Seq::<WarningV>::empty());
    }
    while k < lines.len()
        invariant
            k <= lines.len(),
            ls == text_lines(text@),
            lines@.map_values(|l: Vec<char>| l@) == ls,
            binds_view(binds@) == binds_fold(b0, modifier, keys@, ls, k as nat).0,
            warnings_view(warnings@) == binds_fold(b0, modifier, keys@, ls, k as nat).1,
        decreases lines.len() - k,
    {
        let l = trim_exec(&lines[k]);
        proof {
            assert(ls[k as int] == lines@[k as int]@);
        }
        bind_line(binds, modifier, k + 1, &l, keys, &mut warnings);
        k += 1;
    }
    warnings
}

/// What loading a configuration reports besides the configuration itself.
pub struct LoadReport {
    pub warnings: Vec<Warning>,
    pub deferred: Vec<Deferred>,
}

/// The configuration `text` (if there is one) gives, with `mod_env` the
/// `OXIN_MOD` override (`alt` makes Alt the modifier, whatever the text
/// says): scalars first, then the built-in keymap for the final modifier,
/// then the text's binds, hold binds and gestures on top of it.
pub open spec fn spec_load(
    text: Option<Seq<char>>,
    mod_env: Option<Seq<char>>,
    keys: Map<Seq<char>, u32>,
) -> (ConfigV, Seq<WarningV>, Seq<DeferredV>) {
    let d = default_config();
    let s = match text {
        Some(t) => spec_parse_scalars(d, t),
        None => ScalarState { cfg: d, warnings: Seq::empty(), deferred: Seq::empty() },
    };
    let m = if mod_env == Some("alt"@) {
        MOD_ALT
    } else {
        s.cfg.modifier
    };
    let c1 = ConfigV { modifier: m, binds: spec_default_binds(keys, m), ..s.cfg };
    match text {
        Some(t) => {
            let ls = text_lines(t);
            let (b, wb) = binds_fold(c1.binds, m, keys, ls, ls.len());
            let (h, wh) = holds_fold(c1.hold_binds, m, keys, ls, ls.len());
            let (g, wg) = gestures_fold(c1.gestures, ls, ls.len());
            (
                ConfigV { binds: b, hold_binds: h, gestures: g, ..c1 },
                s.warnings + wb + wh + wg,
                s.deferred,
            )
        },
        None => (c1, s.warnings, s.deferred),
    }
}

pub open spec fn opt_str_view(o: Option<&str>) -> Option<Seq<char>> {
    match o {
        Some(s) => Some(s@),
        None => None,
    }
}

impl Config {
    /// Build the configuration from the text of the config file (`None`
    /// when there is none) and the `OXIN_MOD` environment value.
    pub fn from_text(text: Option<&str>, mod_env: Option<&str>, keys: &Keysyms) -> (r: (
        Config,
        LoadReport,
    ))
        requires
            builtin_keys_known(keys@),
        ensures
            r.0@ == spec_load(opt_str_view(text), opt_str_view(mod_env), keys@).0,
            warnings_view(r.1.warnings@) == spec_load(
                opt_str_view(text),
                opt_str_view(mod_env),
                keys@,
            ).1,
            deferred_view(r.1.deferred@) == spec_load(
                opt_str_view(text),
                opt_str_view(mod_env),
                keys@,
            ).2,
    {
        let mut cfg = Config::default();
        let mut warnings: Vec<Warning> = Vec::new();
        let mut deferred: Vec<Deferred> = Vec::new();
        if let Some(t) = text {
            let report = cfg.parse_scalars(t);
            warnings = report.warnings;
            deferred = report.deferred;
        }
        proof {
            if text is None {
                assert(warnings_view(warnings@) =~= Seq::<WarningV>::empty());
                assert(deferred_view(deferred@) =~= Seq::<DeferredV>::empty());
            }
        }
        if let Some(m) = mod_env {
            if eq_lit(&chars_of(m), "alt") {
                cfg.modifier = MOD_ALT;
            }
        }
        cfg.binds = default_binds(cfg.modifier, keys);
        if let Some(t) = text {
            let ghost w0 = warnings_view(warnings@);
            let mut wb = cfg.apply_binds(t, keys);
            let mut wh = cfg.apply_hold_binds(t, keys);
            let mut wg = cfg.apply_gestures(t);
            let ghost (vb, vh, vg) = (wb@, wh@, wg@);
            warnings.append(&mut wb);
            warnings.append(&mut wh);
            warnings.append(&mut wg);
            proof {
                assert(warnings_view(warnings@) =~= w0 + warnings_view(vb) + warnings_view(vh)
                    + warnings_view(vg));
            }
        }
        (cfg, LoadReport { warnings, deferred })
    }
}

/// Replace the gesture binding for `g`'s trigger, or add it.
pub(crate) fn upsert_gesture(gs: &mut Vec<GestureBind>, g: GestureBind)
    ensures
        gestures_view(final(gs)@) == upsert(gestures_view(old(gs)@), same_trigger(g.trigger), g@),
{
    let ghost v = gestures_view(gs@);
    let ghost p = same_trigger(g.trigger);
    let mut i: usize = 0;
    while i < gs.len()
        invariant
            i <= gs.len(),
            v == gestures_view(gs@),
            gs@ == old(gs)@,
            p == same_trigger(g.trigger),
            forall|k: int| 0 <= k < i ==> !p(#[trigger] v[k]),
        decreases gs.len() - i,
    {
        if gs[i].trigger == g.trigger {
            proof {
                assert(v[i as int] == gs@[i as int]@);
                assert(is_first_where(v, p, i as int));
                lemma_first_where_is(v, p, i as int);
            }
            let ghost gv = g@;
            gs.set(i, g);
            proof {
                assert(gestures_view(gs@) =~= v.update(i as int, gv));
            }
            return;
        }
        proof {
            assert(v[i as int] == gs@[i as int]@);
        }
        i += 1;
    }
    proof {
        lemma_first_where_none(v, p);
    }
    let ghost gv = g@;
    gs.push(g);
    proof {
        assert(gestures_view(gs@) =~= v.push(gv));
    }
}

fn gesture_line(gs: &mut Vec<GestureBind>, n: usize, l: &Vec<char>, warnings: &mut Vec<Warning>)
    ensures
        (gestures_view(final(gs)@), warnings_view(final(warnings)@)) == gestures_step(
            gestures_view(old(gs)@),
            warnings_view(old(warnings)@),
            n as int,
            l@,
        ),
{
    if l.len() > 0 && l[0] != '#' {
        match split_kv(l) {
            Some((key, val)) => {
                if eq_lit(&key, "gesture") {
                    match parse_gesture(&val) {
                        Some(g) => {
                            upsert_gesture(gs, g);
                        },
                        None => {
                            let ghost wb = warnings_view(warnings@);
                            warnings.push(warning(n, WarnKind::InvalidGesture, l));
                            assert(warnings_view(warnings@) =~= wb.push(
                                WarningV { line: n as int, kind: WarnKind::InvalidGesture, raw: l@ },
                            ));
                        },
                    }
                }
            },
            None => {},
        }
    }
}

fn gesture_pass(gs: &mut Vec<GestureBind>, text: &str) -> (r: Vec<Warning>)
    ensures
        gestures_view(final(gs)@) == gestures_fold(
            gestures_view(old(gs)@),
            text_lines(text@),
            text_lines(text@).len(),
        ).0,
        warnings_view(r@) == gestures_fold(
            gestures_view(old(gs)@),
            text_lines(text@),
            text_lines(text@).len(),
        ).1,
{
    let lines = split_lines(&chars_of(text));
    let ghost ls = text_lines(text@);
    let ghost g0 = gestures_view(old(gs)@);
    let mut warnings: Vec<Warning> = Vec::new();
    let mut k: usize = 0;
    proof {
        assert(warnings_view(warnings@) =~= Seq::<WarningV>::empty());
    }
    while k < lines.len()
        invariant
            k <= lines.len(),
            ls == text_lines(text@),
            lines@.map_values(|l: Vec<char>| l@) == ls,
            gestures_view(gs@) == gestures_fold(g0, ls, k as nat).0,
            warnings_view(warnings@) == gestures_fold(g0, ls, k as nat).1,
        decreases lines.len() - k,
    {
        let l = trim_exec(&lines[k]);
        proof {
            assert(ls[k as int] == lines@[k as int]@);
        }
        gesture_line(gs, k + 1, &l, &mut warnings);
        k += 1;
    }
    warnings
}

/// Parse a `hold =` value against primary modifier `modifier`.
pub fn parse_hold(val: &Vec<char>, modifier: u32, keys: &Keysyms) -> (r: Option<HoldBind>)
    ensures
        opt_hold(r) == spec_parse_hold(val@, modifier, keys@),
{
    let (p1, r1) = head_rest_exec(val, ',');
    let mods = match parse_mods(&trim_exec(&p1), modifier) {
        Some(m) => m,
        None => return None,
    };
    let r1 = match r1 {
        Some(r) => r,
        None => return None,
    };
    let (p2, r2) = head_rest_exec(&r1, ',');
    let keysym = match keys.lookup(&trim_exec(&p2)) {
        Some(k) => k,
        None => return None,
    };
    let r2 = match r2 {
        Some(r) => r,
        None => return None,
    };
    let (p3, r3) = head_rest_exec(&r2, ',');
    let ms = match parse_i32_exec(&trim_exec(&p3)) {
        Some(ms) => ms,
        None => return None,
    };
    let r3 = match r3 {
        Some(r) => r,
        None => return None,
    };
    if !(100 <= ms && ms <= 60000) {
        return None;
    }
    let (p4, r4) = head_rest_exec(&r3, ',');
    let arg = trim_arg(&r4);
    match parse_action(&trim_exec(&p4), &arg) {
        Some(action) => Some(HoldBind { mods, keysym, duration_ms: ms, action }),
        None => None,
    }
}

/// Replace the hold bind on `h`'s chord, or add it.
pub(crate) fn upsert_hold(hs: &mut Vec<HoldBind>, h: HoldBind)
    ensures
        holds_view(final(hs)@) == upsert(holds_view(old(hs)@), same_hold_chord(h.mods, h.keysym), h@),
{
    let ghost v = holds_view(hs@);
    let ghost p = same_hold_chord(h.mods, h.keysym);
    let mut i: usize = 0;
    while i < hs.len()
        invariant
            i <= hs.len(),
            v == holds_view(hs@),
            hs@ == old(hs)@,
            p == same_hold_chord(h.mods, h.keysym),
            forall|k: int| 0 <= k < i ==> !p(#[trigger] v[k]),
        decreases hs.len() - i,
    {
        if hs[i].mods == h.mods && hs[i].keysym == h.keysym {
            proof {
                assert(v[i as int] == hs@[i as int]@);
                assert(is_first_where(v, p, i as int));
                lemma_first_where_is(v, p, i as int);
            }
            let ghost hv = h@;
            hs.set(i, h);
            proof {
                assert(holds_view(hs@) =~= v.update(i as int, hv));
            }
            return;
        }
        proof {
            assert(v[i as int] == hs@[i as int]@);
        }
        i += 1;
    }
    proof {
        lemma_first_where_none(v, p);
    }
    let ghost hv = h@;
    hs.push(h);
    proof {
        assert(holds_view(hs@) =~= v.push(hv));
    }
}

fn hold_line(
    hs: &mut Vec<HoldBind>,
    modifier: u32,
    n: usize,
    l: &Vec<char>,
    keys: &Keysyms,
    warnings: &mut Vec<Warning>,
)
    ensures
        (holds_view(final(hs)@), warnings_view(final(warnings)@)) == holds_step(
            holds_view(old(hs)@),
            warnings_view(old(warnings)@),
            modifier,
            keys@,
            n as int,
            l@,
        ),
{
    if l.len() > 0 && l[0] != '#' {
        match split_kv(l) {
            Some((key, val)) => {
                if eq_lit(&key, "hold") {
                    match parse_hold(&val, modifier, keys) {
                        Some(h) => {
                            upsert_hold(hs, h);
                        },
                        None => {
                            let ghost wb = warnings_view(warnings@);
                            warnings.push(warning(n, WarnKind::InvalidHold, l));
                            assert(warnings_view(warnings@) =~= wb.push(
                                WarningV { line: n as int, kind: WarnKind::InvalidHold, raw: l@ },
                            ));
                        },
                    }
                }
            },
            None => {},
        }
    }
}

fn hold_pass(hs: &mut Vec<HoldBind>, modifier: u32, text: &str, keys: &Keysyms) -> (r: Vec<Warning>)
    ensures
        holds_view(final(hs)@) == holds_fold(
            holds_view(old(hs)@),
            modifier,
            keys@,
            text_lines(text@),
            text_lines(text@).len(),
        ).0,
        warnings_view(r@) == holds_fold(
            holds_view(old(hs)@),
            modifier,
            keys@,
            text_lines(text@),
            text_lines(text@).len(),
        ).1,
{
    let lines = split_lines(&chars_of(text));
    let ghost ls = text_lines(text@);
    let ghost h0 = holds_view(old(hs)@);
    let mut warnings: Vec<Warning> = Vec::new();
    let mut k: usize = 0;
    proof {
        assert(warnings_view(warnings@) =~= Seq::<WarningV>::empty());
    }
    while k < lines.len()
        invariant
            k <= lines.len(),
            ls == text_lines(text@),
            lines@.map_values(|l: Vec<char>| l@) == ls,
            holds_view(hs@) == holds_fold(h0, modifier, keys@, ls, k as nat).0,
            warnings_view(warnings@) == holds_fold(h0, modifier, keys@, ls, k as nat).1,
        decreases lines.len() - k,
    {
        let l = trim_exec(&lines[k]);
        proof {
            assert(ls[k as int] == lines@[k as int]@);
        }
        hold_line(hs, modifier, k + 1, &l, keys, &mut warnings);
        k += 1;
    }
    warnings
}

/// The key name a `bind =` or `hold =` line asks about: its second
/// comma-separated field, trimmed.
pub open spec fn line_key_name(l: Seq<char>) -> Option<Seq<char>> {
    if !is_content(l) {
        None
    } else {
        match spec_split_kv(l) {
            Some((key, val)) => if key == "bind"@ || key == "hold"@ {
                match head_rest(val, ',').1 {
                    Some(r1) => Some(trim(head_rest(r1, ',').0)),
                    None => None,
                }
            } else {
                None
            },
            None => None,
        }
    }
}

/// The key names the `bind =` and `hold =` lines among `ls` ask about, in
/// line order.
pub open spec fn key_names_of(ls: Seq<Seq<char>>) -> Seq<Seq<char>>
    decreases ls.len(),
{
    if ls.len() == 0 {
        Seq::empty()
    } else {
        key_names_of(ls.drop_last()) + match line_key_name(trim(ls.last())) {
            Some(n) => seq![n],
            None => Seq::<Seq<char>>::empty(),
        }
    }
}

/// The key names a configuration text's binds and hold binds use: the names
/// the shell resolves with xkb before the text is read.
pub fn key_names(text: &str) -> (r: Vec<String>)
    ensures
        r@.map_values(|s: String| s@) == key_names_of(text_lines(text@)),
{
    let lines = split_lines(&chars_of(text));
    let ghost ls = text_lines(text@);
    let mut out: Vec<String> = Vec::new();
    let mut k: usize = 0;
    proof {
        assert(ls.take(0) =~= Seq::<Seq<char>>::empty());
        assert(out@.map_values(|s: String| s@) =~= Seq::<Seq<char>>::empty());
    }
    while k < lines.len()
        invariant
            k <= lines.len(),
            ls == text_lines(text@),
            lines@.map_values(|l: Vec<char>| l@) == ls,
            out@.map_values(|s: String| s@) == key_names_of(ls.take(k as int)),
        decreases lines.len() - k,
    {
        let l = trim_exec(&lines[k]);
        proof {
            assert(ls[k as int] == lines@[k as int]@);
            assert(ls.take(k + 1).drop_last() =~= ls.take(k as int));
            assert(ls.take(k + 1).last() == ls[k as int]);
        }
        let ghost before = out@.map_values(|s: String| s@);
        if l.len() > 0 && l[0] != '#' {
            match split_kv(&l) {
                Some((key, val)) => {
                    if eq_lit(&key, "bind") || eq_lit(&key, "hold") {
                        let (_p1, r1) = head_rest_exec(&val, ',');
                        match r1 {
                            Some(r1) => {
                                let (p2, _r2) = head_rest_exec(&r1, ',');
                                let name = trim_exec(&p2);
                                let ghost nv = name@;
                                out.push(string_of(&name));
                                assert(out@.map_values(|s: String| s@) =~= before.push(nv));
                            },
                            None => {},
                        }
                    }
                },
                None => {},
            }
        }
        proof {
            assert(out@.map_values(|s: String| s@) =~= key_names_of(ls.take(k + 1)));
        }
        k += 1;
    }
    proof {
        assert(ls.take(lines.len() as int) =~= ls);
    }
    out
}

/// The bind a line gives: a `bind =` line that parses, and nothing else.
pub open spec fn line_bind(l: Seq<char>, modifier: u32, keys: Map<Seq<char>, u32>) -> Option<BindV> {
    if !is_content(l) {
        None
    } else {
        match spec_split_kv(l) {
            Some((key, val)) => if key == "bind"@ {
                spec_parse_bind(val, modifier, keys)
            } else {
                None
            },
            None => None,
        }
    }
}

/// The line's bind is on the chord of `b`.
pub open spec fn names_chord(o: Option<BindV>, b: BindV) -> bool {
    o matches Some(nb) && nb.mods == b.mods && nb.keysym == b.keysym
}

/// No chord has two binds.
pub open spec fn one_bind_per_chord(b: Seq<BindV>) -> bool {
    forall|i: int, j: int|
        0 <= i < b.len() && 0 <= j < b.len() && (#[trigger] b[i]).mods == (#[trigger] b[j]).mods
            && b[i].keysym == b[j].keysym ==> i == j
}

proof fn lemma_binds_step_is_upsert(
    b: Seq<BindV>,
    w: Seq<WarningV>,
    modifier: u32,
    keys: Map<Seq<char>, u32>,
    n: int,
    l: Seq<char>,
)
    ensures
        binds_step(b, w, modifier, keys, n, l).0 == (match line_bind(l, modifier, keys) {
            Some(nb) => upsert(b, same_chord(nb.mods, nb.keysym), nb),
            None => b,
        }),
{
}

/// The bind pass never drops or moves a binding, and a binding is only
/// ever replaced by one for its own chord: every binding of the table it
/// started from keeps its place and its chord, and one whose chord no
/// `bind =` line names is kept exactly as it was.
pub proof fn law_bind_lines_replace_only_their_own_chord(
    b0: Seq<BindV>,
    modifier: u32,
    keys: Map<Seq<char>, u32>,
    ls: Seq<Seq<char>>,
    k: nat,
    i: int,
)
    requires
        0 <= i < b0.len(),
    ensures
        binds_fold(b0, modifier, keys, ls, k).0.len() >= b0.len(),
        binds_fold(b0, modifier, keys, ls, k).0[i].mods == b0[i].mods,
        binds_fold(b0, modifier, keys, ls, k).0[i].keysym == b0[i].keysym,
        (forall|j: int|
            0 <= j < k && j < ls.len() ==> !names_chord(
                #[trigger] line_bind(trim(ls[j]), modifier, keys),
                b0[i],
            )) ==> binds_fold(b0, modifier, keys, ls, k).0[i] == b0[i],
    decreases k,
{
    if k == 0 || k > ls.len() {
    } else {
        let km = (k - 1) as nat;
        law_bind_lines_replace_only_their_own_chord(b0, modifier, keys, ls, km, i);
        let (b, w) = binds_fold(b0, modifier, keys, ls, km);
        let l = trim(ls[k - 1]);
        lemma_binds_step_is_upsert(b, w, modifier, keys, k as int, l);
        match line_bind(l, modifier, keys) {
            Some(nb) => {
                let p = same_chord(nb.mods, nb.keysym);
                match first_where(b, p) {
                    Some(q) => {
                        lemma_first_where_some(b, p);
                    },
                    None => {},
                }
            },
            None => {},
        }
    }
}

/// The bind pass keeps one binding per chord: a line on a chord that is
/// already bound replaces that binding instead of adding a second.
pub proof fn law_bind_lines_keep_one_bind_per_chord(
    b0: Seq<BindV>,
    modifier: u32,
    keys: Map<Seq<char>, u32>,
    ls: Seq<Seq<char>>,
    k: nat,
)
    requires
        one_bind_per_chord(b0),
    ensures
        one_bind_per_chord(binds_fold(b0, modifier, keys, ls, k).0),
    decreases k,
{
    if k == 0 || k > ls.len() {
    } else {
        let km = (k - 1) as nat;
        law_bind_lines_keep_one_bind_per_chord(b0, modifier, keys, ls, km);
        let (b, w) = binds_fold(b0, modifier, keys, ls, km);
        let l = trim(ls[k - 1]);
        lemma_binds_step_is_upsert(b, w, modifier, keys, k as int, l);
        match line_bind(l, modifier, keys) {
            Some(nb) => {
                let p = same_chord(nb.mods, nb.keysym);
                let r = upsert(b, p, nb);
                match first_where(b, p) {
                    Some(q) => {
                        lemma_first_where_some(b, p);
                        assert forall|x: int, y: int|
                            0 <= x < r.len() && 0 <= y < r.len() && (#[trigger] r[x]).mods
                                == (#[trigger] r[y]).mods && r[x].keysym == r[y].keysym implies x == y by {
                            if x != q && y != q {
                                assert(b[x] == r[x] && b[y] == r[y]);
                            } else if x == q && y != q {
                                assert(b[y] == r[y]);
                                assert(b[q].mods == b[y].mods && b[q].keysym == b[y].keysym);
                            } else if y == q && x != q {
                                assert(b[x] == r[x]);
                                assert(b[q].mods == b[x].mods && b[q].keysym == b[x].keysym);
                            }
                        }
                    },
                    None => {
                        assert forall|x: int, y: int|
                            0 <= x < r.len() && 0 <= y < r.len() && (#[trigger] r[x]).mods
                                == (#[trigger] r[y]).mods && r[x].keysym == r[y].keysym implies x == y by {
                            if x < b.len() && y < b.len() {
                                assert(b[x] == r[x] && b[y] == r[y]);
                            } else if x < b.len() {
                                lemma_none_first_means_none(b, p, x);
                            } else if y < b.len() {
                                lemma_none_first_means_none(b, p, y);
                            }
                        }
                    },
                }
            },
            None => {},
        }
    }
}

/// Float rules in lower case, none twice.
pub open spec fn rules_tidy(r: Seq<Seq<char>>) -> bool {
    r.no_duplicates() && forall|i: int| 0 <= i < r.len() ==> lower(#[trigger] r[i]) == r[i]
}

/// The scalar setting names before `float` in the pass, told apart from it
/// by length.
proof fn lemma_scalar_words()
    ensures
        "float"@.len() == 5,
        "modifier"@.len() == 8,
        "gap"@.len() == 3,
        "first_split"@.len() == 11,
        "background"@.len() == 10,
        "window_opacity"@.len() == 14,
        "monitor"@.len() == 7,
        "wallpaper"@.len() == 9,
        "corner_radius"@.len() == 13,
        "exec_once"@.len() == 9,
        "float_size"@.len() == 10,
{
    reveal_strlit("float");
    reveal_strlit("modifier");
    reveal_strlit("gap");
    reveal_strlit("first_split");
    reveal_strlit("background");
    reveal_strlit("window_opacity");
    reveal_strlit("monitor");
    reveal_strlit("wallpaper");
    reveal_strlit("corner_radius");
    reveal_strlit("exec_once");
    reveal_strlit("float_size");
}

/// A `monitor =` line places its output once: a line for a connector name
/// already placed replaces that placement where it stands, so no name is
/// placed twice, and the line's placement is among them afterwards.
pub proof fn law_a_monitor_line_places_its_output_once(c: ConfigV, val: Seq<char>)
    requires
        keys_unique(c.monitors, |m: MonitorPlaceV| m.name),
    ensures
        keys_unique(scalar_step(c, "monitor"@, val).0.monitors, |m: MonitorPlaceV| m.name),
        spec_parse_monitor(val) matches Some(m) ==> scalar_step(c, "monitor"@, val).0.monitors.contains(m),
        spec_parse_monitor(val) is None ==> scalar_step(c, "monitor"@, val) == (
            c,
            Some(WarnKind::InvalidMonitor),
            None::<FloatSetting>,
        ),
{
    lemma_scalar_words();
    let key = |m: MonitorPlaceV| m.name;
    if let Some(m) = spec_parse_monitor(val) {
        let p = named(m.name);
        assert forall|t: MonitorPlaceV| #[trigger] p(t) == (key(t) == key(m)) by {}
        lemma_upsert_keyed(c.monitors, key, p, m);
        let r = upsert(c.monitors, p, m);
        match first_where(c.monitors, p) {
            Some(i) => {
                lemma_first_where_some(c.monitors, p);
                assert(r[i] == m);
            },
            None => {
                assert(r[c.monitors.len() as int] == m);
            },
        }
    }
}

proof fn lemma_lower_twice(s: Seq<char>)
    ensures
        lower(lower(s)) == lower(s),
{
    assert forall|i: int| 0 <= i < s.len() implies #[trigger] lower(lower(s))[i] == lower(s)[i] by {
        let c = s[i];
        if 65 <= c as u32 && c as u32 <= 90 {
            assert(lower_char(c) as u32 == c as u32 + 32);
        }
    }
    assert(lower(lower(s)) =~= lower(s));
}

/// The scalar pass keeps the float rules tidy: each `float =` line adds its
/// application id in lower case, only when it is not there already, after
/// the rules before it.
pub proof fn law_float_rules_stay_lowercase_and_distinct(c0: ConfigV, ls: Seq<Seq<char>>, k: nat)
    requires
        rules_tidy(c0.float_rules),
    ensures
        rules_tidy(scalars_fold(c0, ls, k).cfg.float_rules),
        scalars_fold(c0, ls, k).cfg.float_rules.len() >= c0.float_rules.len(),
        scalars_fold(c0, ls, k).cfg.float_rules.take(c0.float_rules.len() as int) == c0.float_rules,
    decreases k,
{
    if k == 0 || k > ls.len() {
        assert(c0.float_rules.take(c0.float_rules.len() as int) =~= c0.float_rules);
    } else {
        let km = (k - 1) as nat;
        law_float_rules_stay_lowercase_and_distinct(c0, ls, km);
        let st = scalars_fold(c0, ls, km);
        let l = trim(ls[k - 1]);
        let r = st.cfg.float_rules;
        if is_content(l) {
            match spec_split_kv(l) {
                Some((key, val)) => {
                    let app = lower(val);
                    lemma_lower_twice(val);
                    let r2 = scalar_step(st.cfg, key, val).0.float_rules;
                    if key == "float"@ && app.len() > 0 && !r.contains(app) {
                        lemma_scalar_words();
                        assert(r2 == r.push(app));
                        assert forall|i: int, j: int|
                            0 <= i < r2.len() && 0 <= j < r2.len() && i != j implies r2[i] != r2[j] by {
                            if i < r.len() && j < r.len() {
                            } else if i < r.len() {
                                assert(r2[j] == app);
                                assert(r.contains(r2[i]));
                            } else {
                                assert(r2[i] == app);
                                assert(r.contains(r2[j]));
                            }
                        }
                        assert(r2.take(c0.float_rules.len() as int) =~= r.take(c0.float_rules.len() as int));
                    } else {
                        assert(r2 == r);
                    }
                },
                None => {},
            }
        }
    }
}

/// The trigger a gesture binding is for.
pub open spec fn trigger_of(g: GestureBindV) -> GestureTrigger {
    g.trigger
}

/// The chord a hold binding is on.
pub open spec fn hold_chord_of(h: HoldBindV) -> (u32, u32) {
    (h.mods, h.keysym)
}

/// The gesture pass drops no binding, keeps each one's trigger at its
/// place, and keeps one binding per trigger: a line for a bound trigger
/// replaces that binding.
pub proof fn law_gesture_lines_keep_one_binding_per_trigger(gs: Seq<GestureBindV>, ls: Seq<Seq<char>>, k: nat)
    ensures
        gestures_fold(gs, ls, k).0.len() >= gs.len(),
        forall|i: int|
            0 <= i < gs.len() ==> (#[trigger] gestures_fold(gs, ls, k).0[i]).trigger == gs[i].trigger,
        keys_unique(gs, |g: GestureBindV| trigger_of(g)) ==> keys_unique(
            gestures_fold(gs, ls, k).0,
            |g: GestureBindV| trigger_of(g),
        ),
    decreases k,
{
    let key = |g: GestureBindV| trigger_of(g);
    if k == 0 || k > ls.len() {
    } else {
        let km = (k - 1) as nat;
        law_gesture_lines_keep_one_binding_per_trigger(gs, ls, km);
        let (g, w) = gestures_fold(gs, ls, km);
        let l = trim(ls[k - 1]);
        if is_content(l) {
            match spec_split_kv(l) {
                Some((kw, val)) => if kw == "gesture"@ {
                    match spec_parse_gesture(val) {
                        Some(ng) => {
                            lemma_upsert_keyed(g, key, same_trigger(ng.trigger), ng);
                            let r = upsert(g, same_trigger(ng.trigger), ng);
                            assert forall|i: int| 0 <= i < gs.len() implies (#[trigger] r[i]).trigger
                                == gs[i].trigger by {
                                assert(key(r[i]) == key(g[i]));
                            }
                        },
                        None => {},
                    }
                },
                None => {},
            }
        }
    }
}

/// The hold pass drops no hold binding, keeps each one's chord at its
/// place, and keeps one hold binding per chord.
pub proof fn law_hold_lines_keep_one_hold_per_chord(
    hs: Seq<HoldBindV>,
    modifier: u32,
    keys: Map<Seq<char>, u32>,
    ls: Seq<Seq<char>>,
    k: nat,
)
    ensures
        holds_fold(hs, modifier, keys, ls, k).0.len() >= hs.len(),
        forall|i: int|
            0 <= i < hs.len() ==> hold_chord_of(#[trigger] holds_fold(hs, modifier, keys, ls, k).0[i])
                == hold_chord_of(hs[i]),
        keys_unique(hs, |h: HoldBindV| hold_chord_of(h)) ==> keys_unique(
            holds_fold(hs, modifier, keys, ls, k).0,
            |h: HoldBindV| hold_chord_of(h),
        ),
    decreases k,
{
    let key = |h: HoldBindV| hold_chord_of(h);
    if k == 0 || k > ls.len() {
    } else {
        let km = (k - 1) as nat;
        law_hold_lines_keep_one_hold_per_chord(hs, modifier, keys, ls, km);
        let (h, w) = holds_fold(hs, modifier, keys, ls, km);
        let l = trim(ls[k - 1]);
        if is_content(l) {
            match spec_split_kv(l) {
                Some((kw, val)) => if kw == "hold"@ {
                    match spec_parse_hold(val, modifier, keys) {
                        Some(nh) => {
                            lemma_upsert_keyed(h, key, same_hold_chord(nh.mods, nh.keysym), nh);
                            let r = upsert(h, same_hold_chord(nh.mods, nh.keysym), nh);
                            assert forall|i: int| 0 <= i < hs.len() implies hold_chord_of(#[trigger] r[i])
                                == hold_chord_of(hs[i]) by {
                                assert(key(r[i]) == key(h[i]));
                            }
                        },
                        None => {},
                    }
                },
                None => {},
            }
        }
    }
}

} // verus!
