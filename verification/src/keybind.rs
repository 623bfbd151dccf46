//! What a key chord does: hold bindings, virtual-terminal switching and the
//! configuration's bind table.
//!
//! The keyboard handler is a small state machine over the chord being held.
//! The shell feeds it key events and hold-timer expiries and carries out the
//! [`KeyCommand`]s it answers with (dispatching an action, arming or
//! cancelling the hold timer, switching the virtual terminal).

use vstd::prelude::*;
use crate::backend::Backend;
use crate::config::{
    Action, ActionV, Bind, BindV, GestureBind, GestureBindV, GestureTrigger, HoldBind, HoldBindV, MOD_ALT,
    MOD_CTRL, MOD_MASK,
};
use crate::defaults::binds_view;
use crate::seqs::{first_where, is_first_where, lemma_first_where_is, lemma_first_where_none};
use crate::settings::{gestures_view, holds_view, same_chord, same_hold_chord, same_trigger};

verus! {

/// The keysym of F1; F1 to F12 are contiguous.
pub const KEY_F1: u32 = 0xffbe;

/// The keysym of F12.
pub const KEY_F12: u32 = 0xffc9;

/// What the shell must do for a key event.
#[derive(Debug, PartialEq)]
pub enum KeyCommand {
    /// Run an action.
    Dispatch(Action),
    /// Arm the hold timer for this many milliseconds.
    ArmTimer(i32),
    /// Cancel the armed hold timer.
    CancelTimer,
    /// Ask the session for this virtual terminal.
    ChangeVt(i32),
}

pub enum KeyCommandV {
    Dispatch(ActionV),
    ArmTimer(i32),
    CancelTimer,
    ChangeVt(i32),
}

impl View for KeyCommand {
    type V = KeyCommandV;

    open spec fn view(&self) -> KeyCommandV {
        match self {
            KeyCommand::Dispatch(a) => KeyCommandV::Dispatch(a@),
            KeyCommand::ArmTimer(ms) => KeyCommandV::ArmTimer(*ms),
            KeyCommand::CancelTimer => KeyCommandV::CancelTimer,
            KeyCommand::ChangeVt(vt) => KeyCommandV::ChangeVt(*vt),
        }
    }
}

pub open spec fn commands_view(v: Seq<KeyCommand>) -> Seq<KeyCommandV> {
    v.map_values(|c: KeyCommand| c@)
}

/// The chord being held for a hold binding, the action it will fire, and
/// whether its timer is armed.
pub struct HoldState {
    pub held_keysym: u32,
    pub held_modifiers: u32,
    pub held_action: Option<Action>,
    pub timer_armed: bool,
}

pub ghost struct HoldStateV {
    pub held_keysym: u32,
    pub held_modifiers: u32,
    pub held_action: Option<ActionV>,
    pub timer_armed: bool,
}

impl View for HoldState {
    type V = HoldStateV;

    open spec fn view(&self) -> HoldStateV {
        HoldStateV {
            held_keysym: self.held_keysym,
            held_modifiers: self.held_modifiers,
            held_action: match self.held_action {
                Some(a) => Some(a@),
                None => None,
            },
            timer_armed: self.timer_armed,
        }
    }
}

/// Nothing held.
pub open spec fn idle() -> HoldStateV {
    HoldStateV { held_keysym: 0, held_modifiers: 0, held_action: None, timer_armed: false }
}

/// `cancel_hold`: the timer (if armed) is cancelled and nothing is held.
pub open spec fn cancel_commands(s: HoldStateV) -> Seq<KeyCommandV> {
    if s.timer_armed {
        seq![KeyCommandV::CancelTimer]
    } else {
        Seq::empty()
    }
}

/// The decision for one key event: the new hold state, whether the event is
/// consumed (the focused client never sees it), and what the shell must do.
/// `binds` and `holds` are the configuration's tables, `locked` whether a
/// session lock owns the keyboard, and `backend` what drives the display.
pub open spec fn spec_handle_key(
    s: HoldStateV,
    binds: Seq<BindV>,
    holds: Seq<HoldBindV>,
    locked: bool,
    backend: Backend,
    keysym: u32,
    modifiers: u32,
    pressed: bool,
) -> (HoldStateV, bool, Seq<KeyCommandV>) {
    let mods = modifiers & MOD_MASK;
    let bound = first_where(binds, same_chord(mods, keysym));
    if locked {
        (s, false, Seq::empty())
    } else if s.held_keysym == keysym && s.held_modifiers == mods {
        if !pressed {
            let short = match (s.held_action, bound) {
                (Some(_), Some(i)) => seq![KeyCommandV::Dispatch(binds[i].action)],
                _ => Seq::empty(),
            };
            (idle(), true, cancel_commands(s) + short)
        } else {
            (s, true, Seq::empty())
        }
    } else {
        match first_where(holds, same_hold_chord(mods, keysym)) {
            Some(h) => if pressed {
                (
                    HoldStateV {
                        held_keysym: keysym,
                        held_modifiers: mods,
                        held_action: Some(holds[h].action),
                        timer_armed: true,
                    },
                    true,
                    cancel_commands(s) + seq![KeyCommandV::ArmTimer(holds[h].duration_ms)],
                )
            } else {
                (s, true, Seq::empty())
            },
            None => if !pressed {
                (s, bound is Some, Seq::empty())
            } else if mods == (MOD_CTRL | MOD_ALT) && KEY_F1 <= keysym <= KEY_F12 {
                (
                    s,
                    true,
                    match backend {
                        Backend::Udev => seq![KeyCommandV::ChangeVt((keysym - KEY_F1 + 1) as i32)],
                        Backend::Winit => Seq::empty(),
                    },
                )
            } else {
                match bound {
                    Some(i) => (s, true, seq![KeyCommandV::Dispatch(binds[i].action)]),
                    None => (s, false, Seq::empty()),
                }
            },
        }
    }
}

/// The first bind on this chord, if any.
fn find_bind(binds: &Vec<Bind>, mods: u32, keysym: u32) -> (r: Option<usize>)
    ensures
        match first_where(binds_view(binds@), same_chord(mods, keysym)) {
            Some(i) => r == Some(i as usize),
            None => r is None,
        },
        r matches Some(i) ==> i < binds.len(),
{
    let ghost v = binds_view(binds@);
    let ghost p = same_chord(mods, keysym);
    let mut i: usize = 0;
    while i < binds.len()
        invariant
            i <= binds.len(),
            v == binds_view(binds@),
            p == same_chord(mods, keysym),
            forall|k: int| 0 <= k < i ==> !p(#[trigger] v[k]),
        decreases binds.len() - i,
    {
        proof {
            assert(v[i as int] == binds@[i as int]@);
        }
        if binds[i].mods == mods && binds[i].keysym == keysym {
            proof {
                assert(is_first_where(v, p, i as int));
                lemma_first_where_is(v, p, i as int);
            }
            return Some(i);
        }
        i += 1;
    }
    proof {
        lemma_first_where_none(v, p);
    }
    None
}

/// The first hold bind on this chord, if any.
fn find_hold(holds: &Vec<HoldBind>, mods: u32, keysym: u32) -> (r: Option<usize>)
    ensures
        match first_where(holds_view(holds@), same_hold_chord(mods, keysym)) {
            Some(i) => r == Some(i as usize),
            None => r is None,
        },
        r matches Some(i) ==> i < holds.len(),
{
    let ghost v = holds_view(holds@);
    let ghost p = same_hold_chord(mods, keysym);
    let mut i: usize = 0;
    while i < holds.len()
        invariant
            i <= holds.len(),
            v == holds_view(holds@),
            p == same_hold_chord(mods, keysym),
            forall|k: int| 0 <= k < i ==> !p(#[trigger] v[k]),
        decreases holds.len() - i,
    {
        proof {
            assert(v[i as int] == holds@[i as int]@);
        }
        if holds[i].mods == mods && holds[i].keysym == keysym {
            proof {
                assert(is_first_where(v, p, i as int));
                lemma_first_where_is(v, p, i as int);
            }
            return Some(i);
        }
        i += 1;
    }
    proof {
        lemma_first_where_none(v, p);
    }
    None
}

impl HoldState {
    /// Nothing held.
    pub fn new() -> (r: HoldState)
        ensures
            r@ == idle(),
    {
        HoldState { held_keysym: 0, held_modifiers: 0, held_action: None, timer_armed: false }
    }

    fn cancel(&mut self, out: &mut Vec<KeyCommand>)
        ensures
            final(self)@ == idle(),
            commands_view(final(out)@) == commands_view(old(out)@) + cancel_commands(old(self)@),
    {
        let ghost before = commands_view(out@);
        if self.timer_armed {
            out.push(KeyCommand::CancelTimer);
            assert(commands_view(out@) =~= before + seq![KeyCommandV::CancelTimer]);
        } else {
            assert(commands_view(out@) =~= before + Seq::<KeyCommandV>::empty());
        }
        self.held_keysym = 0;
        self.held_modifiers = 0;
        self.held_action = None;
        self.timer_armed = false;
    }

    /// The keyboard produced a chord: returns whether it is consumed (the
    /// focused client never sees it) and what the shell must do.
    pub fn handle_key(
        &mut self,
        binds: &Vec<Bind>,
        holds: &Vec<HoldBind>,
        locked: bool,
        backend: Backend,
        keysym: u32,
        modifiers: u32,
        pressed: bool,
    ) -> (r: (bool, Vec<KeyCommand>))
        ensures
            (final(self)@, r.0, commands_view(r.1@)) == spec_handle_key(
                old(self)@,
                binds_view(binds@),
                holds_view(holds@),
                locked,
                backend,
                keysym,
                modifiers,
                pressed,
            ),
    {
        let mut out: Vec<KeyCommand> = Vec::new();
        proof {
            assert(commands_view(out@) =~= Seq::<KeyCommandV>::empty());
        }
        let mods = modifiers & MOD_MASK;
        if locked {
            return (false, out);
        }
        let bound = find_bind(binds, mods, keysym);
        if self.held_keysym == keysym && self.held_modifiers == mods {
            if !pressed {
                let has_action = self.held_action.is_some();
                self.cancel(&mut out);
                if has_action {
                    if let Some(i) = bound {
                        let ghost before = commands_view(out@);
                        out.push(KeyCommand::Dispatch(binds[i].action.duplicate()));
                        proof {
                            assert(binds_view(binds@)[i as int] == binds@[i as int]@);
                            assert(commands_view(out@) =~= before + seq![
                                KeyCommandV::Dispatch(binds_view(binds@)[i as int].action),
                            ]);
                        }
                    } else {
                        proof {
                            assert(commands_view(out@) =~= commands_view(out@) + Seq::<KeyCommandV>::empty());
                        }
                    }
                } else {
                    proof {
                        assert(commands_view(out@) =~= commands_view(out@) + Seq::<KeyCommandV>::empty());
                    }
                }
            }
            return (true, out);
        }
        match find_hold(holds, mods, keysym) {
            Some(h) => {
                if pressed {
                    let action = holds[h].action.duplicate();
                    let ms = holds[h].duration_ms;
                    self.cancel(&mut out);
                    self.held_keysym = keysym;
                    self.held_modifiers = mods;
                    self.held_action = Some(action);
                    self.timer_armed = true;
                    let ghost before = commands_view(out@);
                    out.push(KeyCommand::ArmTimer(ms));
                    proof {
                        assert(holds_view(holds@)[h as int] == holds@[h as int]@);
                        assert(commands_view(out@) =~= before + seq![KeyCommandV::ArmTimer(ms)]);
                    }
                }
                (true, out)
            },
            None => {
                if !pressed {
                    return (bound.is_some(), out);
                }
                if mods == (MOD_CTRL | MOD_ALT) && KEY_F1 <= keysym && keysym <= KEY_F12 {
                    let vt = (keysym - KEY_F1 + 1) as i32;
                    match backend.change_vt(vt) {
                        Some(v) => {
                            out.push(KeyCommand::ChangeVt(v));
                            proof {
                                assert(commands_view(out@) =~= seq![KeyCommandV::ChangeVt(v)]);
                            }
                        },
                        None => {},
                    }
                    return (true, out);
                }
                match bound {
                    Some(i) => {
                        out.push(KeyCommand::Dispatch(binds[i].action.duplicate()));
                        proof {
                            assert(binds_view(binds@)[i as int] == binds@[i as int]@);
                            assert(commands_view(out@) =~= seq![
                                KeyCommandV::Dispatch(binds_view(binds@)[i as int].action),
                            ]);
                        }
                        (true, out)
                    },
                    None => (false, out),
                }
            },
        }
    }

    /// The hold timer fired: the held chord's action, if it is still held,
    /// runs (once).
    pub fn hold_timeout(&mut self) -> (r: Option<Action>)
        ensures
            final(self)@ == (HoldStateV { held_action: None, timer_armed: false, ..old(self)@ }),
            match r {
                Some(a) => old(self)@.held_action == Some(a@),
                None => old(self)@.held_action is None,
            },
    {
        self.timer_armed = false;
        let a = self.held_action.take();
        a
    }
}

/// A chord with a hold binding, tapped (pressed and released before its
/// timer fires) from a state that holds nothing: the press arms the timer;
/// the release cancels it, runs the chord's ordinary binding if it has one,
/// and leaves nothing held. Both events are consumed.
pub proof fn law_hold_tap_runs_the_ordinary_binding(
    binds: Seq<BindV>,
    holds: Seq<HoldBindV>,
    backend: Backend,
    keysym: u32,
    modifiers: u32,
)
    requires
        first_where(holds, same_hold_chord(modifiers & MOD_MASK, keysym)) is Some,
        !(keysym == 0 && modifiers & MOD_MASK == 0),
    ensures
        ({
            let mods = modifiers & MOD_MASK;
            let h = first_where(holds, same_hold_chord(mods, keysym))->0;
            let (s1, c1, e1) = spec_handle_key(idle(), binds, holds, false, backend, keysym, modifiers, true);
            let (s2, c2, e2) = spec_handle_key(s1, binds, holds, false, backend, keysym, modifiers, false);
            &&& c1 && c2
            &&& e1 == seq![KeyCommandV::ArmTimer(holds[h].duration_ms)]
            &&& s2 == idle()
            &&& e2 == seq![KeyCommandV::CancelTimer] + match first_where(binds, same_chord(mods, keysym)) {
                Some(i) => seq![KeyCommandV::Dispatch(binds[i].action)],
                None => Seq::<KeyCommandV>::empty(),
            }
        }),
{
    let mods = modifiers & MOD_MASK;
    assert(cancel_commands(idle()) =~= Seq::<KeyCommandV>::empty());
    let h = first_where(holds, same_hold_chord(mods, keysym))->0;
    assert(Seq::<KeyCommandV>::empty() + seq![KeyCommandV::ArmTimer(holds[h].duration_ms)] =~= seq![
        KeyCommandV::ArmTimer(holds[h].duration_ms),
    ]);
}

/// A chord held until its timer fires: the timer hands out the hold action
/// once, and the release that follows runs nothing (it is still consumed).
pub proof fn law_hold_fires_once(
    s: HoldStateV,
    binds: Seq<BindV>,
    holds: Seq<HoldBindV>,
    backend: Backend,
    keysym: u32,
    modifiers: u32,
)
    requires
        s.held_keysym == keysym,
        s.held_modifiers == modifiers & MOD_MASK,
    ensures
        ({
            let after_timeout = HoldStateV { held_action: None, timer_armed: false, ..s };
            let (s2, c2, e2) = spec_handle_key(
                after_timeout,
                binds,
                holds,
                false,
                backend,
                keysym,
                modifiers,
                false,
            );
            &&& c2
            &&& e2 == Seq::<KeyCommandV>::empty()
            &&& s2 == idle()
        }),
{
    let after_timeout = HoldStateV { held_action: None, timer_armed: false, ..s };
    assert(cancel_commands(after_timeout) + Seq::<KeyCommandV>::empty() =~= Seq::<KeyCommandV>::empty());
}

/// An ordinary binding consumes its release too, so a client never sees the
/// release of a press the compositor handled; a chord no table knows is
/// passed on.
pub proof fn law_bound_release_is_consumed(
    s: HoldStateV,
    binds: Seq<BindV>,
    holds: Seq<HoldBindV>,
    backend: Backend,
    keysym: u32,
    modifiers: u32,
)
    requires
        !(s.held_keysym == keysym && s.held_modifiers == modifiers & MOD_MASK),
        first_where(holds, same_hold_chord(modifiers & MOD_MASK, keysym)) is None,
    ensures
        spec_handle_key(s, binds, holds, false, backend, keysym, modifiers, false).1 == first_where(
            binds,
            same_chord(modifiers & MOD_MASK, keysym),
        ) is Some,
        spec_handle_key(s, binds, holds, false, backend, keysym, modifiers, false).2 == Seq::<
            KeyCommandV,
        >::empty(),
{
}

/// The action a completed gesture runs: the first binding for its trigger.
/// A locked session runs none.
pub open spec fn spec_gesture_action(gestures: Seq<GestureBindV>, t: GestureTrigger, locked: bool) -> Option<ActionV> {
    if locked {
        None
    } else {
        match first_where(gestures, same_trigger(t)) {
            Some(i) => Some(gestures[i].action),
            None => None,
        }
    }
}

/// What to dispatch for a completed gesture.
pub fn gesture_action(gestures: &Vec<GestureBind>, t: GestureTrigger, locked: bool) -> (r: Option<Action>)
    ensures
        match spec_gesture_action(gestures_view(gestures@), t, locked) {
            Some(a) => r matches Some(x) && x@ == a,
            None => r is None,
        },
{
    if locked {
        return None;
    }
    let ghost v = gestures_view(gestures@);
    let ghost p = same_trigger(t);
    let mut i: usize = 0;
    while i < gestures.len()
        invariant
            i <= gestures.len(),
            v == gestures_view(gestures@),
            p == same_trigger(t),
            !locked,
            forall|k: int| 0 <= k < i ==> !p(#[trigger] v[k]),
        decreases gestures.len() - i,
    {
        proof {
            assert(v[i as int] == gestures@[i as int]@);
        }
        if gestures[i].trigger == t {
            proof {
                assert(is_first_where(v, p, i as int));
                lemma_first_where_is(v, p, i as int);
            }
            let a = gestures[i].action.duplicate();
            assert(a@ == v[i as int].action);
            return Some(a);
        }
        i += 1;
    }
    proof {
        lemma_first_where_none(v, p);
    }
    None
}

} // verus!
