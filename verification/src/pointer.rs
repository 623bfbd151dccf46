//! Pointer and window decisions: modifier bits, focus following a click,
//! starting, following and ending a move/resize grab, which output a point
//! is on, and which windows float on their own.

use vstd::prelude::*;
use crate::config::{MOD_ALT, MOD_CTRL, MOD_LOGO, MOD_SHIFT};
use crate::desk::{
    effects_view, focus_ok, has_id, holds_id, lemma_with_ws_wf, spec_clamp_floating, under_pointer,
    wf, win_rect_ok, with_win, with_ws, Desk, DeskV, Effect, EffectV, GrabMode, Rect, Win,
    WorkspaceV,
};
use crate::seqs::{first_where, is_first_where, lemma_first_where_is, lemma_first_where_none};
use crate::text::{chars_of, lower, lower_exec};
use crate::plugins::strings_view;

verus! {

/// The evdev code of the left mouse button.
pub const BTN_LEFT: u32 = 0x110;

/// The evdev code of the right mouse button.
pub const BTN_RIGHT: u32 = 0x111;

/// The modifier bits (as the configuration writes them) of the held
/// modifier keys.
pub fn modifier_bits(shift: bool, ctrl: bool, alt: bool, logo: bool) -> (r: u32)
    ensures
        r == (if shift { MOD_SHIFT } else { 0 }) | (if ctrl { MOD_CTRL } else { 0 }) | (if alt {
            MOD_ALT
        } else {
            0
        }) | (if logo { MOD_LOGO } else { 0 }),
{
    (if shift { MOD_SHIFT } else { 0 }) | (if ctrl { MOD_CTRL } else { 0 }) | (if alt { MOD_ALT } else { 0 }) | (
    if logo {
        MOD_LOGO
    } else {
        0
    })
}

/// The grab a button press with exactly the primary modifier held starts:
/// the left button moves, the right one resizes.
pub open spec fn spec_grab_for(mods: u32, modifier: u32, button: u32) -> Option<GrabMode> {
    if mods != modifier {
        None
    } else if button == BTN_LEFT {
        Some(GrabMode::Move)
    } else if button == BTN_RIGHT {
        Some(GrabMode::Resize)
    } else {
        None
    }
}

pub fn grab_for(mods: u32, modifier: u32, button: u32) -> (r: Option<GrabMode>)
    ensures
        r == spec_grab_for(mods, modifier, button),
{
    if mods != modifier {
        None
    } else if button == BTN_LEFT {
        Some(GrabMode::Move)
    } else if button == BTN_RIGHT {
        Some(GrabMode::Resize)
    } else {
        None
    }
}

/// The window under the pointer is one a grab can take: floating and not
/// fullscreen.
pub open spec fn grabbable(d: DeskV, under: Option<(usize, usize)>) -> bool {
    match under {
        Some((w, i)) => {
            let win = d.workspaces[w as int].windows[i as int];
            win.floating && !win.fullscreen
        },
        None => false,
    }
}

/// A click on window `id`: it becomes the focused window of the first
/// workspace holding it and gets keyboard focus. A window that no workspace
/// holds is left alone.
pub open spec fn spec_focus_clicked(d: DeskV, id: u64) -> (DeskV, Seq<EffectV>) {
    match first_where(d.workspaces, holds_id(id)) {
        Some(w) => match first_where(d.workspaces[w].windows, has_id(id)) {
            Some(p) => (
                with_ws(d, w, WorkspaceV { focused: p as usize, ..d.workspaces[w] }),
                seq![EffectV::Focus(id)],
            ),
            None => (d, Seq::empty()),
        },
        None => (d, Seq::empty()),
    }
}

/// The smallest width or height a resize drag leaves a floating window.
pub const MIN_FLOAT_SIZE: i32 = 50;

/// Where the grabbed window goes when the pointer has moved `(dx, dy)`
/// since the grab began on `start`: a move keeps the size and is clamped
/// like any floating window; a resize keeps the top-left corner and never
/// shrinks below `MIN_FLOAT_SIZE`.
pub open spec fn spec_drag_rect(d: DeskV, id: u64, start: Rect, dx: int, dy: int) -> Rect {
    if d.grab == GrabMode::Move {
        let c = match first_where(d.workspaces, holds_id(id)) {
            Some(w) => match first_where(d.workspaces[w].windows, has_id(id)) {
                Some(i) => spec_clamp_floating(d, w, d.workspaces[w].windows[i].rect, start.x + dx, start.y + dy),
                None => (start.x + dx, start.y + dy),
            },
            None => (start.x + dx, start.y + dy),
        };
        Rect { x: c.0 as i32, y: c.1 as i32, w: start.w, h: start.h }
    } else {
        let w = if start.w + dx >= MIN_FLOAT_SIZE { start.w + dx } else { MIN_FLOAT_SIZE as int };
        let h = if start.h + dy >= MIN_FLOAT_SIZE { start.h + dy } else { MIN_FLOAT_SIZE as int };
        Rect { x: start.x, y: start.y, w: w as i32, h: h as i32 }
    }
}

/// An active grab follows the pointer: the grabbed window gets its new rect
/// and is placed there. Without a grab nothing happens.
pub open spec fn spec_drag(d: DeskV, start: Rect, dx: int, dy: int) -> (DeskV, Seq<EffectV>) {
    match d.grab_window {
        Some(id) if d.grab != GrabMode::Inactive => {
            let rect = spec_drag_rect(d, id, start, dx, dy);
            let d2 = match first_where(d.workspaces, holds_id(id)) {
                Some(w) => match first_where(d.workspaces[w].windows, has_id(id)) {
                    Some(i) => with_win(d, w, i, Win { rect, ..d.workspaces[w].windows[i] }),
                    None => d,
                },
                None => d,
            };
            (d2, seq![EffectV::Place(id, rect)])
        },
        _ => (d, Seq::empty()),
    }
}

impl Desk {
    /// The geometry of the first output holding the point `(x, y)` (a
    /// touch position rounded to pixels), if any holds it.
    pub fn output_rect_at(&self, x: i32, y: i32) -> (r: Option<Rect>)
        ensures
            r == (match first_where(self@.outputs, under_pointer(x, y)) {
                Some(i) => Some(self@.outputs[i].geometry),
                None => None,
            }),
    {
        let ghost p = under_pointer(x, y);
        let mut i: usize = 0;
        while i < self.outputs.len()
            invariant
                i <= self.outputs.len(),
                p == under_pointer(x, y),
                forall|k: int| 0 <= k < i ==> !p(#[trigger] self@.outputs[k]),
            decreases self.outputs.len() - i,
        {
            if self.outputs[i].geometry.contains(x, y) {
                proof {
                    assert(is_first_where(self@.outputs, p, i as int));
                    lemma_first_where_is(self@.outputs, p, i as int);
                }
                return Some(self.outputs[i].geometry);
            }
            i += 1;
        }
        proof {
            lemma_first_where_none(self@.outputs, p);
        }
        None
    }

    /// The pointer moved `(dx, dy)` (whole pixels) since the grab began,
    /// when the grabbed window had the rect `start`.
    pub fn drag(&mut self, start: Rect, dx: i32, dy: i32) -> (r: Vec<Effect>)
        requires
            wf(old(self)@),
            win_rect_ok(start),
            -0x1000_0000 <= start.x + dx <= 0x1000_0000,
            -0x1000_0000 <= start.y + dy <= 0x1000_0000,
            start.w + dx <= 0x1000_0000,
            start.h + dy <= 0x1000_0000,
        ensures
            wf(final(self)@),
            final(self)@ == spec_drag(old(self)@, start, dx as int, dy as int).0,
            effects_view(r@) == spec_drag(old(self)@, start, dx as int, dy as int).1,
    {
        let mut effects: Vec<Effect> = Vec::new();
        let id = match self.grab_window {
            Some(id) => id,
            None => {
                proof {
                    assert(effects_view(effects@) =~= Seq::<EffectV>::empty());
                }
                return effects;
            },
        };
        if self.grab == GrabMode::Inactive {
            proof {
                assert(effects_view(effects@) =~= Seq::<EffectV>::empty());
            }
            return effects;
        }
        let loc = self.find_window(id);
        let rect = if self.grab == GrabMode::Move {
            let (x, y) = match loc {
                Some((w, i)) => {
                    proof {
                        assert(win_rect_ok(self@.workspaces[w as int].windows[i as int].rect));
                    }
                    self.clamp_floating(w, self.workspaces[w].windows[i].rect, start.x + dx, start.y + dy)
                },
                None => (start.x + dx, start.y + dy),
            };
            Rect { x, y, w: start.w, h: start.h }
        } else {
            let w = if start.w + dx >= MIN_FLOAT_SIZE { start.w + dx } else { MIN_FLOAT_SIZE };
            let h = if start.h + dy >= MIN_FLOAT_SIZE { start.h + dy } else { MIN_FLOAT_SIZE };
            Rect { x: start.x, y: start.y, w, h }
        };
        proof {
            assert(rect == spec_drag_rect(old(self)@, id, start, dx as int, dy as int));
        }
        match loc {
            Some((w, i)) => {
                self.set_window_rect(w, i, rect);
            },
            None => {},
        }
        effects.push(Effect::Place(id, rect));
        proof {
            assert(effects_view(effects@) =~= seq![EffectV::Place(id, rect)]);
        }
        effects
    }

    /// Keyboard focus follows a click: the clicked window becomes its
    /// workspace's focused one, so closing and moving act on it.
    pub fn focus_clicked(&mut self, id: u64) -> (r: Vec<Effect>)
        requires
            wf(old(self)@),
        ensures
            wf(final(self)@),
            final(self)@ == spec_focus_clicked(old(self)@, id).0,
            effects_view(r@) == spec_focus_clicked(old(self)@, id).1,
    {
        let mut effects: Vec<Effect> = Vec::new();
        match self.find_window(id) {
            Some((w, p)) => {
                let ghost d = self@;
                self.workspaces[w].focused = p;
                proof {
                    let ws = WorkspaceV { focused: p, ..d.workspaces[w as int] };
                    assert(focus_ok(ws));
                    assert(self@.workspaces =~= with_ws(d, w as int, ws).workspaces);
                    lemma_with_ws_wf(d, w as int, ws);
                }
                effects.push(Effect::Focus(id));
                proof {
                    assert(effects_view(effects@) =~= seq![EffectV::Focus(id)]);
                }
            },
            None => {
                proof {
                    assert(effects_view(effects@) =~= Seq::<EffectV>::empty());
                }
            },
        }
        effects
    }

    /// A press with the primary modifier on the floating window `(w, i)`
    /// (the window under the pointer, if any) starts a grab on it; a
    /// fullscreen or tiled window is never grabbed. Whether a grab started
    /// (the press then goes to no client).
    pub fn start_grab(&mut self, mods: u32, modifier: u32, button: u32, under: Option<(usize, usize)>) -> (r: bool)
        requires
            under matches Some((w, i)) ==> w < old(self)@.workspaces.len() && i < old(self)@.workspaces[w as int].windows.len(),
        ensures
            r == (spec_grab_for(mods, modifier, button) is Some && grabbable(old(self)@, under)),
            r ==> (under matches Some((w, i)) && final(self)@ == (DeskV {
                grab: spec_grab_for(mods, modifier, button)->0,
                grab_window: Some(old(self)@.workspaces[w as int].windows[i as int].id),
                ..old(self)@
            })),
            !r ==> final(self)@ == old(self)@,
    {
        let mode = match grab_for(mods, modifier, button) {
            Some(m) => m,
            None => return false,
        };
        let (w, i) = match under {
            Some(p) => p,
            None => return false,
        };
        let win = self.workspaces[w].windows[i];
        proof {
            assert(win == old(self)@.workspaces[w as int].windows[i as int]);
        }
        if !win.floating || win.fullscreen {
            return false;
        }
        self.grab = mode;
        self.grab_window = Some(win.id);
        true
    }

    /// A button release ends an active grab and is swallowed with it (the
    /// client never saw the press). Whether it was swallowed.
    pub fn release_button(&mut self) -> (r: bool)
        ensures
            r == (old(self)@.grab != GrabMode::Inactive),
            r ==> final(self)@ == (DeskV { grab: GrabMode::Inactive, grab_window: None, ..old(self)@ }),
            !r ==> final(self)@ == old(self)@,
    {
        if self.grab != GrabMode::Inactive {
            self.grab = GrabMode::Inactive;
            self.grab_window = None;
            true
        } else {
            false
        }
    }
}

/// A window floats on its own when it is a child of another (a dialog), or
/// asks for one fixed size (its minimum and maximum agree and are set).
pub fn floats_naturally(has_parent: bool, min: (i32, i32), max: (i32, i32)) -> (r: bool)
    ensures
        r == (has_parent || (min.0 > 0 && min.1 > 0 && min == max)),
{
    if has_parent {
        return true;
    }
    min.0 > 0 && min.1 > 0 && min.0 == max.0 && min.1 == max.1
}

/// A `float = <app_id>` rule floats the window: its app id, lower-cased, is
/// among the (lower-cased) rules.
pub open spec fn spec_floats_by_rule(app_id: Option<Seq<char>>, rules: Seq<Seq<char>>) -> bool {
    match app_id {
        Some(a) => rules.contains(lower(a)),
        None => false,
    }
}

pub fn floats_by_rule(app_id: Option<&str>, rules: &Vec<String>) -> (r: bool)
    ensures
        r == spec_floats_by_rule(crate::plugins::opt_str(app_id), strings_view(rules@)),
{
    let a = match app_id {
        Some(a) => lower_exec(&chars_of(a)),
        None => return false,
    };
    let ghost rv = strings_view(rules@);
    let mut i: usize = 0;
    while i < rules.len()
        invariant
            i <= rules.len(),
            rv == strings_view(rules@),
            app_id matches Some(x) && a@ == lower(x@),
            forall|k: int| 0 <= k < i ==> rv[k] != a@,
        decreases rules.len() - i,
    {
        let r = chars_of(rules[i].as_str());
        if crate::names::same_chars(&r, &a) {
            proof {
                assert(rv[i as int] == a@);
                assert(rv.contains(a@));
            }
            return true;
        }
        proof {
            assert(rv[i as int] == r@);
        }
        i += 1;
    }
    assert(!rv.contains(a@));
    false
}

} // verus!
