//! What a configuration script builds up while it runs.
//!
//! Assignments do not touch the live compositor: they land here, and only a
//! script that reaches its end hands the result over. The built-in keymap is
//! merged in last, and only for chords the script did not speak for, so a
//! two-line script is a two-line change to the defaults, never a fork of the
//! whole keymap.

use vstd::prelude::*;
use crate::config::{Bind, BindV, Config, ConfigV, GestureBind, GestureBindV, GestureTrigger, HoldBind, HoldBindV};
use crate::defaults::{binds_view, builtin_keys_known, default_binds, spec_default_binds};
use crate::names::Keysyms;
use crate::seqs::{lemma_upsert_twice, lemma_upsert_unique, unique_where, upsert};
use crate::settings::{
    gestures_view, holds_view, same_chord, same_hold_chord, same_trigger, upsert_bind,
    upsert_gesture, upsert_hold,
};

verus! {

/// The events a script can register handlers for.
#[derive(Clone, Copy, PartialEq, Eq, Structural, Debug)]
pub enum Event {
    Startup,
    Window,
    Workspace,
}

impl Event {
    /// The name a script writes after `oxin.on.`.
    pub fn name(self) -> (r: &'static str)
        ensures
            r@ == (match self {
                Event::Startup => "startup"@,
                Event::Window => "window"@,
                Event::Workspace => "workspace"@,
            }),
    {
        match self {
            Event::Startup => "startup",
            Event::Window => "window",
            Event::Workspace => "workspace",
        }
    }

    /// The event's slot in the handler table.
    pub fn index(self) -> (r: usize)
        ensures
            r == spec_event_index(self),
    {
        match self {
            Event::Startup => 0,
            Event::Window => 1,
            Event::Workspace => 2,
        }
    }
}

pub open spec fn spec_event_index(e: Event) -> usize {
    match e {
        Event::Startup => 0,
        Event::Window => 1,
        Event::Workspace => 2,
    }
}

/// The chord a bind is on.
pub open spec fn chord_of(b: BindV) -> (u32, u32) {
    (b.mods, b.keysym)
}

/// A configuration in progress: the settings so far, how many script
/// functions were registered (an `Action::Lua` carries one's id), the chords
/// the script unbound, how many handlers each event has, and whether a
/// binding has resolved `MOD` yet.
pub struct Staged {
    pub config: Config,
    pub functions: u32,
    pub unbound: Vec<(u32, u32)>,
    pub handlers: Vec<u32>,
    pub mod_resolved: bool,
}

pub ghost struct StagedV {
    pub config: ConfigV,
    pub functions: u32,
    pub unbound: Set<(u32, u32)>,
    pub handlers: Seq<u32>,
    pub mod_resolved: bool,
}

impl View for Staged {
    type V = StagedV;

    open spec fn view(&self) -> StagedV {
        StagedV {
            config: self.config@,
            functions: self.functions,
            unbound: self.unbound@.to_set(),
            handlers: self.handlers@,
            mod_resolved: self.mod_resolved,
        }
    }
}

/// One handler count per event.
pub open spec fn staged_wf(s: StagedV) -> bool {
    s.handlers.len() == 3
}

/// The binds `finish` adds: each default whose chord the script neither
/// bound (`bound`) nor unbound, in the defaults' order.
pub open spec fn merged_defaults(defaults: Seq<BindV>, bound: Set<(u32, u32)>, unbound: Set<(u32, u32)>) -> Seq<BindV> {
    defaults.filter(|d: BindV| !bound.contains(chord_of(d)) && !unbound.contains(chord_of(d)))
}

/// The chords a list of binds is on.
pub open spec fn chords(binds: Seq<BindV>) -> Set<(u32, u32)> {
    binds.map_values(|b: BindV| chord_of(b)).to_set()
}

/// The finished configuration's binds: the script's own, then the merged
/// defaults for the final modifier.
pub open spec fn finished_binds(s: StagedV, keys: Map<Seq<char>, u32>) -> Seq<BindV> {
    s.config.binds + merged_defaults(
        spec_default_binds(keys, s.config.modifier),
        chords(s.config.binds),
        s.unbound,
    )
}

/// What a finished load hands over.
pub struct Finished {
    pub config: Config,
    pub functions: u32,
    pub handlers: Vec<u32>,
}

fn contains_chord(v: &Vec<(u32, u32)>, c: (u32, u32)) -> (r: bool)
    ensures
        r == v@.contains(c),
{
    let mut i: usize = 0;
    while i < v.len()
        invariant
            i <= v.len(),
            forall|k: int| 0 <= k < i ==> v@[k] != c,
        decreases v.len() - i,
    {
        if v[i].0 == c.0 && v[i].1 == c.1 {
            assert(v@[i as int] == c);
            return true;
        }
        i += 1;
    }
    false
}

fn binds_have_chord(binds: &Vec<Bind>, c: (u32, u32)) -> (r: bool)
    ensures
        r == chords(binds_view(binds@)).contains(c),
{
    let ghost v = binds_view(binds@);
    let ghost m = v.map_values(|b: BindV| chord_of(b));
    let mut i: usize = 0;
    while i < binds.len()
        invariant
            i <= binds.len(),
            v == binds_view(binds@),
            m == v.map_values(|b: BindV| chord_of(b)),
            forall|k: int| 0 <= k < i ==> m[k] != c,
        decreases binds.len() - i,
    {
        proof {
            assert(m[i as int] == chord_of(binds@[i as int]@));
        }
        if binds[i].mods == c.0 && binds[i].keysym == c.1 {
            proof {
                assert(m.contains(c));
            }
            return true;
        }
        i += 1;
    }
    proof {
        assert(!m.contains(c)) by {
            if m.contains(c) {
                let k = choose|k: int| 0 <= k < m.len() && m[k] == c;
                assert(m[k] != c);
            }
        }
    }
    false
}

impl Staged {
    /// Nothing staged yet: the built-in settings, no functions, nothing
    /// unbound, no handlers.
    pub fn new() -> (r: Staged)
        ensures
            r@.config == crate::config::default_config(),
            r@.functions == 0,
            r@.unbound == Set::<(u32, u32)>::empty(),
            r@.handlers == seq![0u32, 0u32, 0u32],
            !r@.mod_resolved,
            staged_wf(r@),
    {
        let mut handlers: Vec<u32> = Vec::new();
        handlers.push(0);
        handlers.push(0);
        handlers.push(0);
        let r = Staged {
            config: Config::default(),
            functions: 0,
            unbound: Vec::new(),
            handlers,
            mod_resolved: false,
        };
        proof {
            assert(r.unbound@.to_set() =~= Set::<(u32, u32)>::empty());
            assert(r@.handlers =~= seq![0u32, 0u32, 0u32]);
        }
        r
    }

    /// Record a script function; the id an `Action::Lua` carries for it.
    pub fn add_function(&mut self) -> (r: u32)
        requires
            old(self).functions < u32::MAX,
        ensures
            r == old(self).functions,
            final(self)@ == (StagedV { functions: (old(self).functions + 1) as u32, ..old(self)@ }),
    {
        let id = self.functions;
        self.functions = self.functions + 1;
        id
    }

    /// Register one more handler for `event`; its position among that
    /// event's handlers, which run in registration order.
    pub fn add_handler(&mut self, event: Event) -> (r: u32)
        requires
            staged_wf(old(self)@),
            old(self)@.handlers[spec_event_index(event) as int] < u32::MAX,
        ensures
            staged_wf(final(self)@),
            r == old(self)@.handlers[spec_event_index(event) as int],
            final(self)@ == (StagedV {
                handlers: old(self)@.handlers.update(spec_event_index(event) as int, (r + 1) as u32),
                ..old(self)@
            }),
    {
        let i = event.index();
        let n = self.handlers[i];
        self.handlers.set(i, n + 1);
        n
    }

    /// Replace or add the bind on `bind`'s chord.
    pub fn set_bind(&mut self, bind: Bind)
        ensures
            final(self)@ == (StagedV {
                config: ConfigV {
                    binds: upsert(old(self)@.config.binds, same_chord(bind.mods, bind.keysym), bind@),
                    ..old(self)@.config
                },
                ..old(self)@
            }),
    {
        let ghost b = bind@;
        let mut binds: Vec<Bind> = Vec::new();
        std::mem::swap(&mut binds, &mut self.config.binds);
        upsert_bind(&mut binds, bind);
        std::mem::swap(&mut binds, &mut self.config.binds);
        proof {
            assert(self@.config =~= ConfigV {
                binds: upsert(old(self)@.config.binds, same_chord(b.mods, b.keysym), b),
                ..old(self)@.config
            });
        }
    }

    /// Remove every bind on `chord`, and remember that no default may take
    /// its place.
    pub fn clear_bind(&mut self, chord: (u32, u32))
        ensures
            final(self)@ == cleared(old(self)@, chord),
    {
        let ghost old_binds = binds_view(self.config.binds@);
        let mut binds: Vec<Bind> = Vec::new();
        std::mem::swap(&mut binds, &mut self.config.binds);
        let mut kept: Vec<Bind> = Vec::new();
        let ghost p = |b: BindV| chord_of(b) != chord;
        let mut i: usize = 0;
        proof {
            reveal(Seq::filter);
        }
        assert(old_binds.take(0).filter(p) =~= Seq::<BindV>::empty());
        while i < binds.len()
            invariant
                i <= binds.len(),
                old_binds == binds_view(binds@),
                p == (|b: BindV| chord_of(b) != chord),
                binds_view(kept@) == old_binds.take(i as int).filter(p),
            decreases binds.len() - i,
        {
            let b = binds[i].duplicate();
            proof {
                let t = old_binds.take(i + 1);
                assert(t.drop_last() =~= old_binds.take(i as int));
                assert(t.last() == b@);
                reveal(Seq::filter);
                assert(t.filter(p) == (if p(t.last()) {
                    t.drop_last().filter(p).push(t.last())
                } else {
                    t.drop_last().filter(p)
                }));
                assert(p(b@) == (b.mods != chord.0 || b.keysym != chord.1));
            }
            if b.mods != chord.0 || b.keysym != chord.1 {
                let ghost before = binds_view(kept@);
                let ghost bv = b@;
                kept.push(b);
                assert(binds_view(kept@) =~= before.push(bv));
            }
            i += 1;
        }
        assert(old_binds.take(binds.len() as int) =~= old_binds);
        std::mem::swap(&mut kept, &mut self.config.binds);
        let ghost before = self.unbound@;
        if !contains_chord(&self.unbound, chord) {
            self.unbound.push(chord);
            proof {
                assert forall|x: (u32, u32)| self.unbound@.contains(x) == (before.contains(x) || x == chord) by {
                    if self.unbound@.contains(x) {
                        let k = choose|k: int| 0 <= k < self.unbound@.len() && self.unbound@[k] == x;
                        if k < before.len() {
                            assert(before[k] == x);
                        }
                    }
                    if before.contains(x) {
                        let k = choose|k: int| 0 <= k < before.len() && before[k] == x;
                        assert(self.unbound@[k] == x);
                    }
                    if x == chord {
                        assert(self.unbound@[before.len() as int] == x);
                    }
                }
            }
        }
        proof {
            assert(self.unbound@.to_set() =~= old(self)@.unbound.insert(chord));
            assert(self@.config =~= ConfigV {
                binds: old(self)@.config.binds.filter(p),
                ..old(self)@.config
            });
        }
    }

    /// Remove the hold binds on `chord`.
    pub fn clear_hold(&mut self, chord: (u32, u32))
        ensures
            final(self)@ == (StagedV {
                config: ConfigV {
                    hold_binds: old(self)@.config.hold_binds.filter(
                        |h: HoldBindV| (h.mods, h.keysym) != chord,
                    ),
                    ..old(self)@.config
                },
                ..old(self)@
            }),
    {
        let ghost old_hs = holds_view(self.config.hold_binds@);
        let mut hs: Vec<HoldBind> = Vec::new();
        std::mem::swap(&mut hs, &mut self.config.hold_binds);
        let mut kept: Vec<HoldBind> = Vec::new();
        let ghost p = |h: HoldBindV| (h.mods, h.keysym) != chord;
        let mut i: usize = 0;
        proof {
            reveal(Seq::filter);
        }
        assert(old_hs.take(0).filter(p) =~= Seq::<HoldBindV>::empty());
        while i < hs.len()
            invariant
                i <= hs.len(),
                old_hs == holds_view(hs@),
                p == (|h: HoldBindV| (h.mods, h.keysym) != chord),
                holds_view(kept@) == old_hs.take(i as int).filter(p),
            decreases hs.len() - i,
        {
            let h = hs[i].duplicate();
            proof {
                let t = old_hs.take(i + 1);
                assert(t.drop_last() =~= old_hs.take(i as int));
                assert(t.last() == h@);
                reveal(Seq::filter);
                assert(t.filter(p) == (if p(t.last()) {
                    t.drop_last().filter(p).push(t.last())
                } else {
                    t.drop_last().filter(p)
                }));
                assert(p(h@) == (h.mods != chord.0 || h.keysym != chord.1));
            }
            if h.mods != chord.0 || h.keysym != chord.1 {
                let ghost before = holds_view(kept@);
                let ghost hv = h@;
                kept.push(h);
                assert(holds_view(kept@) =~= before.push(hv));
            }
            i += 1;
        }
        assert(old_hs.take(hs.len() as int) =~= old_hs);
        std::mem::swap(&mut kept, &mut self.config.hold_binds);
        proof {
            assert(self@.config =~= ConfigV {
                hold_binds: old(self)@.config.hold_binds.filter(p),
                ..old(self)@.config
            });
        }
    }

    /// Replace or add the hold bind on `h`'s chord.
    pub fn set_hold(&mut self, h: HoldBind)
        ensures
            final(self)@ == (StagedV {
                config: ConfigV {
                    hold_binds: upsert(old(self)@.config.hold_binds, same_hold_chord(h.mods, h.keysym), h@),
                    ..old(self)@.config
                },
                ..old(self)@
            }),
    {
        let ghost hv = h@;
        let mut hs: Vec<HoldBind> = Vec::new();
        std::mem::swap(&mut hs, &mut self.config.hold_binds);
        upsert_hold(&mut hs, h);
        std::mem::swap(&mut hs, &mut self.config.hold_binds);
        proof {
            assert(self@.config =~= ConfigV {
                hold_binds: upsert(old(self)@.config.hold_binds, same_hold_chord(hv.mods, hv.keysym), hv),
                ..old(self)@.config
            });
        }
    }

    /// Remove the gesture binding for `trigger`.
    pub fn clear_gesture(&mut self, trigger: GestureTrigger)
        ensures
            final(self)@ == (StagedV {
                config: ConfigV {
                    gestures: old(self)@.config.gestures.filter(|g: GestureBindV| g.trigger != trigger),
                    ..old(self)@.config
                },
                ..old(self)@
            }),
    {
        let ghost old_gs = gestures_view(self.config.gestures@);
        let mut gs: Vec<GestureBind> = Vec::new();
        std::mem::swap(&mut gs, &mut self.config.gestures);
        let mut kept: Vec<GestureBind> = Vec::new();
        let ghost p = |g: GestureBindV| g.trigger != trigger;
        let mut i: usize = 0;
        proof {
            reveal(Seq::filter);
        }
        assert(old_gs.take(0).filter(p) =~= Seq::<GestureBindV>::empty());
        while i < gs.len()
            invariant
                i <= gs.len(),
                old_gs == gestures_view(gs@),
                p == (|g: GestureBindV| g.trigger != trigger),
                gestures_view(kept@) == old_gs.take(i as int).filter(p),
            decreases gs.len() - i,
        {
            let g = gs[i].duplicate();
            proof {
                let t = old_gs.take(i + 1);
                assert(t.drop_last() =~= old_gs.take(i as int));
                assert(t.last() == g@);
                reveal(Seq::filter);
                assert(t.filter(p) == (if p(t.last()) {
                    t.drop_last().filter(p).push(t.last())
                } else {
                    t.drop_last().filter(p)
                }));
            }
            if g.trigger != trigger {
                let ghost before = gestures_view(kept@);
                let ghost gv = g@;
                kept.push(g);
                assert(gestures_view(kept@) =~= before.push(gv));
            }
            i += 1;
        }
        assert(old_gs.take(gs.len() as int) =~= old_gs);
        std::mem::swap(&mut kept, &mut self.config.gestures);
        proof {
            assert(self@.config =~= ConfigV {
                gestures: old(self)@.config.gestures.filter(p),
                ..old(self)@.config
            });
        }
    }

    /// Replace or add the gesture binding for `g`'s trigger.
    pub fn set_gesture(&mut self, g: GestureBind)
        ensures
            final(self)@ == (StagedV {
                config: ConfigV {
                    gestures: upsert(old(self)@.config.gestures, same_trigger(g.trigger), g@),
                    ..old(self)@.config
                },
                ..old(self)@
            }),
    {
        let ghost gv = g@;
        let mut gs: Vec<GestureBind> = Vec::new();
        std::mem::swap(&mut gs, &mut self.config.gestures);
        upsert_gesture(&mut gs, g);
        std::mem::swap(&mut gs, &mut self.config.gestures);
        proof {
            assert(self@.config =~= ConfigV {
                gestures: upsert(old(self)@.config.gestures, same_trigger(gv.trigger), gv),
                ..old(self)@.config
            });
        }
    }

    /// Fill in the built-in keymap for the final modifier (only on chords
    /// the script neither bound nor unbound) and hand the configuration
    /// over.
    pub fn finish(self, keys: &Keysyms) -> (r: Finished)
        requires
            builtin_keys_known(keys@),
        ensures
            r.config@ == (ConfigV { binds: finished_binds(self@, keys@), ..self@.config }),
            r.functions == self.functions,
            r.handlers@ == self.handlers@,
    {
        let ghost s = self@;
        let Staged { mut config, functions, unbound, handlers, mod_resolved: _ } = self;
        let defaults = default_binds(config.modifier, keys);
        let ghost dv = binds_view(defaults@);
        let ghost bound = chords(binds_view(config.binds@));
        let ghost p = |d: BindV| !bound.contains(chord_of(d)) && !s.unbound.contains(chord_of(d));
        let mut own: Vec<Bind> = Vec::new();
        std::mem::swap(&mut own, &mut config.binds);
        let ghost own_v = binds_view(own@);
        let mut extra: Vec<Bind> = Vec::new();
        let mut i: usize = 0;
        proof {
            reveal(Seq::filter);
        }
        assert(dv.take(0).filter(p) =~= Seq::<BindV>::empty());
        while i < defaults.len()
            invariant
                i <= defaults.len(),
                dv == binds_view(defaults@),
                own_v == binds_view(own@),
                bound == chords(own_v),
                s.unbound == unbound@.to_set(),
                p == (|d: BindV| !bound.contains(chord_of(d)) && !s.unbound.contains(chord_of(d))),
                binds_view(extra@) == dv.take(i as int).filter(p),
            decreases defaults.len() - i,
        {
            let d = defaults[i].duplicate();
            let c = (d.mods, d.keysym);
            proof {
                let t = dv.take(i + 1);
                assert(t.drop_last() =~= dv.take(i as int));
                assert(t.last() == d@);
                reveal(Seq::filter);
                assert(t.filter(p) == (if p(t.last()) {
                    t.drop_last().filter(p).push(t.last())
                } else {
                    t.drop_last().filter(p)
                }));
                assert(chord_of(d@) == c);
            }
            let taken = binds_have_chord(&own, c) || contains_chord(&unbound, c);
            if !taken {
                let ghost before = binds_view(extra@);
                let ghost bv = d@;
                extra.push(d);
                assert(binds_view(extra@) =~= before.push(bv));
            }
            i += 1;
        }
        assert(dv.take(defaults.len() as int) =~= dv);
        let ghost ev = binds_view(extra@);
        own.append(&mut extra);
        proof {
            assert(binds_view(own@) =~= own_v + ev);
        }
        std::mem::swap(&mut own, &mut config.binds);
        proof {
            assert(config@ =~= ConfigV { binds: finished_binds(s, keys@), ..s.config });
        }
        Finished { config, functions, handlers }
    }
}

/// Binding the same chord twice leaves exactly what binding it once, to the
/// second action, would have left: the second binding replaces the first.
pub proof fn law_binding_twice_replaces(binds: Seq<BindV>, a: BindV, b: BindV)
    requires
        chord_of(a) == chord_of(b),
    ensures
        upsert(upsert(binds, same_chord(a.mods, a.keysym), a), same_chord(b.mods, b.keysym), b)
            == upsert(binds, same_chord(b.mods, b.keysym), b),
{
    assert(same_chord(a.mods, a.keysym) == same_chord(b.mods, b.keysym));
    lemma_upsert_twice(binds, same_chord(b.mods, b.keysym), a, b);
}

/// A chord with at most one bind keeps exactly one after `set_bind`: the
/// new one.
pub proof fn law_set_bind_keeps_one_per_chord(binds: Seq<BindV>, b: BindV)
    requires
        unique_where(binds, same_chord(b.mods, b.keysym)),
    ensures
        unique_where(upsert(binds, same_chord(b.mods, b.keysym), b), same_chord(b.mods, b.keysym)),
        upsert(binds, same_chord(b.mods, b.keysym), b).contains(b),
{
    lemma_upsert_unique(binds, same_chord(b.mods, b.keysym), b);
}

/// The script's own binds open the finished keymap, unchanged and in order.
pub proof fn law_finish_keeps_script_binds(s: StagedV, keys: Map<Seq<char>, u32>)
    ensures
        finished_binds(s, keys).subrange(0, s.config.binds.len() as int) == s.config.binds,
{
    assert(finished_binds(s, keys).subrange(0, s.config.binds.len() as int) =~= s.config.binds);
}

/// Everything `finish` adds after the script's binds is a default on a
/// chord the script neither bound nor unbound.
pub proof fn law_finish_adds_only_free_defaults(s: StagedV, keys: Map<Seq<char>, u32>, i: int)
    requires
        s.config.binds.len() <= i < finished_binds(s, keys).len(),
    ensures
        spec_default_binds(keys, s.config.modifier).contains(finished_binds(s, keys)[i]),
        !chords(s.config.binds).contains(chord_of(finished_binds(s, keys)[i])),
        !s.unbound.contains(chord_of(finished_binds(s, keys)[i])),
{
    let d = spec_default_binds(keys, s.config.modifier);
    let bound = chords(s.config.binds);
    let p = |x: BindV| !bound.contains(chord_of(x)) && !s.unbound.contains(chord_of(x));
    let m = merged_defaults(d, bound, s.unbound);
    assert(m == d.filter(p));
    let k = i - s.config.binds.len();
    assert(finished_binds(s, keys)[i] == m[k]);
    d.lemma_filter_pred(p, k);
    d.lemma_filter_contains_rev(p, m[k]);
}

/// A chord the script set to nothing gets no default back: every bind on it
/// in the finished keymap is one the script made itself.
pub proof fn law_unbound_chord_stays_unbound(s: StagedV, keys: Map<Seq<char>, u32>, c: (u32, u32), i: int)
    requires
        s.unbound.contains(c),
        0 <= i < finished_binds(s, keys).len(),
        chord_of(finished_binds(s, keys)[i]) == c,
    ensures
        i < s.config.binds.len(),
{
    if i >= s.config.binds.len() {
        law_finish_adds_only_free_defaults(s, keys, i);
    }
}

/// Defaults fill in around the script: a default on a chord the script
/// neither bound nor unbound is in the finished keymap.
pub proof fn law_defaults_fill_in(s: StagedV, keys: Map<Seq<char>, u32>, j: int)
    requires
        0 <= j < spec_default_binds(keys, s.config.modifier).len(),
        !chords(s.config.binds).contains(chord_of(spec_default_binds(keys, s.config.modifier)[j])),
        !s.unbound.contains(chord_of(spec_default_binds(keys, s.config.modifier)[j])),
    ensures
        finished_binds(s, keys).contains(spec_default_binds(keys, s.config.modifier)[j]),
{
    let d = spec_default_binds(keys, s.config.modifier);
    let bound = chords(s.config.binds);
    let p = |x: BindV| !bound.contains(chord_of(x)) && !s.unbound.contains(chord_of(x));
    let m = merged_defaults(d, bound, s.unbound);
    assert(m == d.filter(p));
    d.lemma_filter_contains(p, j);
    let k = choose|k: int| 0 <= k < m.len() && m[k] == d[j];
    assert(finished_binds(s, keys)[s.config.binds.len() + k] == d[j]);
}

/// Unbinding a chord is for good: after `clear_bind`, the finished keymap has
/// no bind on it at all.
pub proof fn law_nil_unbinds_for_good(s: StagedV, keys: Map<Seq<char>, u32>, c: (u32, u32), i: int)
    requires
        0 <= i < finished_binds(cleared(s, c), keys).len(),
    ensures
        chord_of(finished_binds(cleared(s, c), keys)[i]) != c,
{
    let t = cleared(s, c);
    let q = |b: BindV| chord_of(b) != c;
    if chord_of(finished_binds(t, keys)[i]) == c {
        law_unbound_chord_stays_unbound(t, keys, c, i);
        s.config.binds.lemma_filter_pred(q, i);
    }
}

/// What `clear_bind` leaves of `s`.
pub open spec fn cleared(s: StagedV, c: (u32, u32)) -> StagedV {
    StagedV {
        config: ConfigV { binds: s.config.binds.filter(|b: BindV| chord_of(b) != c), ..s.config },
        unbound: s.unbound.insert(c),
        ..s
    }
}

/// A staging nothing was written to: the default settings, no binds, no
/// unbound chords, no functions or handlers.
pub open spec fn fresh_staging() -> StagedV {
    StagedV {
        config: crate::config::default_config(),
        functions: 0,
        unbound: Set::empty(),
        handlers: seq![0u32, 0u32, 0u32],
        mod_resolved: false,
    }
}

proof fn lemma_filter_keeps_all(d: Seq<BindV>, p: spec_fn(BindV) -> bool)
    requires
        forall|x: BindV| #[trigger] p(x),
    ensures
        d.filter(p) == d,
    decreases d.len(),
{
    reveal(Seq::filter);
    if d.len() > 0 {
        lemma_filter_keeps_all(d.drop_last(), p);
        assert(d.drop_last().push(d.last()) =~= d);
    } else {
        assert(d.filter(p) =~= d);
    }
}

/// With nothing staged, finishing gives exactly the built-in keymap for
/// the default modifier: running no script and running an empty one end
/// in the same place.
pub proof fn law_an_empty_load_finishes_with_the_builtin_keymap(keys: Map<Seq<char>, u32>)
    ensures
        finished_binds(fresh_staging(), keys) == spec_default_binds(keys, crate::config::MOD_LOGO),
{
    let s = fresh_staging();
    let d = spec_default_binds(keys, s.config.modifier);
    let bound = chords(s.config.binds);
    let p = |x: BindV| !bound.contains(chord_of(x)) && !s.unbound.contains(chord_of(x));
    assert(s.config.binds.map_values(|b: BindV| chord_of(b)) =~= Seq::<(u32, u32)>::empty());
    assert(bound =~= Set::<(u32, u32)>::empty());
    lemma_filter_keeps_all(d, p);
    assert(finished_binds(s, keys) =~= d);
}

} // verus!
