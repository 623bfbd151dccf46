//! The integer side of touch-gesture policy: which gestures are enabled by
//! the bound-trigger mask, where the keyboard handle's pill is drawn, and
//! the keyboard height the recognizer uses, and what a two-finger double
//! tap on a window does. Recognising the touches themselves works on
//! fractional positions and is the shell's.

use vstd::prelude::*;
use crate::config::{opt_string_view, trigger_bit, Action, ActionV, Config, GestureBindV, GestureTrigger};
use crate::desk::{
    append_effects, effects_view, has_id, holds_id, sane_rect, spec_dispatch, spec_set_solo, wf, Desk,
    DeskV, Effect, EffectV, Rect,
};
use crate::keybind::{gesture_action, spec_gesture_action};
use crate::pointer::spec_focus_clicked;
use crate::seqs::first_where;
use crate::settings::gestures_view;

verus! {

/// The trigger's bit is set in the mask.
pub open spec fn spec_enabled(mask: u32, t: GestureTrigger) -> bool {
    mask & (1u32 << trigger_bit(t)) != 0
}

/// Whether the configuration binds the trigger.
pub fn enabled(mask: u32, t: GestureTrigger) -> (r: bool)
    ensures
        r == spec_enabled(mask, t),
{
    let b = t.bit();
    mask & (1u32 << b) != 0
}

/// Whether any multi-finger gesture is bound: two- and three-finger swipes
/// and the two-finger double tap (bits 8 to 16).
pub fn multi_enabled(mask: u32) -> (r: bool)
    ensures
        r == (mask & 0x1ff00u32 != 0),
{
    mask & 0x1ff00 != 0
}

/// The pill hinting where the keyboard handle is, on an output with box
/// `g`: 120 by 5 pixels, centred, 10 pixels above the bottom edge, or just
/// above the keyboard while it is up. None unless the handle is visible and
/// a bottom-edge keyboard gesture is bound.
pub open spec fn spec_handle_rect(
    mask: u32,
    handle_visible: bool,
    keyboard_visible: bool,
    keyboard_height: i32,
    g: Rect,
) -> Option<Rect> {
    if !handle_visible || !(spec_enabled(mask, GestureTrigger::BottomUp) || spec_enabled(
        mask,
        GestureTrigger::BottomDown,
    )) {
        None
    } else {
        let lift = if keyboard_visible {
            keyboard_height + 8
        } else {
            10
        };
        Some(Rect { x: (g.x + half_toward_zero(g.w - 120)) as i32, y: (g.y + g.h - lift) as i32, w: 120, h: 5 })
    }
}

/// Integer halving as Rust does it: rounded toward zero.
pub open spec fn half_toward_zero(v: int) -> int {
    if v >= 0 {
        v / 2
    } else {
        -((-v) / 2)
    }
}

pub fn handle_rect(mask: u32, handle_visible: bool, keyboard_visible: bool, keyboard_height: i32, g: Rect) -> (r: Option<Rect>)
    requires
        sane_rect(g),
        0 <= keyboard_height <= 0x100_0000,
    ensures
        r == spec_handle_rect(mask, handle_visible, keyboard_visible, keyboard_height, g),
{
    if !handle_visible || !(enabled(mask, GestureTrigger::BottomUp) || enabled(mask, GestureTrigger::BottomDown)) {
        return None;
    }
    let lift = if keyboard_visible {
        keyboard_height + 8
    } else {
        10
    };
    Some(Rect { x: g.x + (g.w - 120) / 2, y: g.y + g.h - lift, w: 120, h: 5 })
}

/// The keyboard height once the keyboard's surface reported its real
/// height: a positive report replaces the estimate, anything else keeps it.
pub fn updated_keyboard_height(current: i32, reported: i32) -> (r: i32)
    ensures
        r == (if reported > 0 {
            reported
        } else {
            current
        }),
{
    if reported > 0 {
        reported
    } else {
        current
    }
}

/// A two-finger double tap on window `id`; a locked session ignores it.
/// The window takes focus, then the first double-tap binding runs. Its
/// `ToggleSolo` acts on the tapped window itself, not on the focused window
/// of the active output, which touch never moves the pointer to.
pub open spec fn spec_double_tap(
    d: DeskV,
    id: u64,
    gestures: Seq<GestureBindV>,
    locked: bool,
    float_size: (i32, i32),
    show_cmd: Option<Seq<char>>,
    hide_cmd: Option<Seq<char>>,
) -> (DeskV, Seq<EffectV>) {
    if locked {
        (d, Seq::empty())
    } else {
        let (d1, e1) = spec_focus_clicked(d, id);
        match spec_gesture_action(gestures, GestureTrigger::DoubleTap, false) {
            Some(ActionV::ToggleSolo) => match first_where(d1.workspaces, holds_id(id)) {
                Some(w) => match first_where(d1.workspaces[w].windows, has_id(id)) {
                    Some(i) => {
                        let want_on = d1.workspaces[w].solo != Some(id);
                        let (d2, e2) = spec_set_solo(d1, w, i, want_on);
                        (d2, e1 + e2)
                    },
                    None => (d1, e1),
                },
                None => (d1, e1),
            },
            Some(a) => {
                let (d2, e2) = spec_dispatch(d1, a, float_size, show_cmd, hide_cmd);
                (d2, e1 + e2)
            },
            None => (d1, e1),
        }
    }
}

impl Desk {
    /// Carry out a completed two-finger double tap on window `id`.
    pub fn double_tap(&mut self, id: u64, cfg: &Config, locked: bool) -> (r: Vec<Effect>)
        requires
            wf(old(self)@),
            0 <= cfg.float_size.0 <= 100,
            0 <= cfg.float_size.1 <= 100,
        ensures
            wf(final(self)@),
            final(self)@ == spec_double_tap(
                old(self)@,
                id,
                gestures_view(cfg.gestures@),
                locked,
                cfg.float_size,
                opt_string_view(cfg.virtual_keyboard_show),
                opt_string_view(cfg.virtual_keyboard_hide),
            ).0,
            effects_view(r@) == spec_double_tap(
                old(self)@,
                id,
                gestures_view(cfg.gestures@),
                locked,
                cfg.float_size,
                opt_string_view(cfg.virtual_keyboard_show),
                opt_string_view(cfg.virtual_keyboard_hide),
            ).1,
    {
        if locked {
            let none: Vec<Effect> = Vec::new();
            proof {
                assert(effects_view(none@) =~= Seq::<EffectV>::empty());
            }
            return none;
        }
        let mut effects = self.focus_clicked(id);
        let action = gesture_action(&cfg.gestures, GestureTrigger::DoubleTap, false);
        match action {
            Some(Action::ToggleSolo) => {
                match self.find_window(id) {
                    Some((w, i)) => {
                        let want_on = match self.workspaces[w].solo {
                            Some(s) => s != id,
                            None => true,
                        };
                        let more = self.set_solo(w, i, want_on);
                        append_effects(&mut effects, more);
                    },
                    None => {},
                }
            },
            Some(a) => {
                let more = self.dispatch_action(&a, cfg);
                append_effects(&mut effects, more);
            },
            None => {
                proof {
                    assert(effects_view(effects@) + Seq::<EffectV>::empty() =~= effects_view(effects@));
                }
            },
        }
        effects
    }
}

} // verus!
