//! The keyed registrars: `oxin.keys`, `oxin.hold`, `oxin.gestures` and
//! `oxin.monitors`.
//!
//! Each is a table a script assigns into, keyed by what the binding is
//! about: a chord, a gesture name or an output's connector name. Keyed
//! rather than append-only, because each of these has an identity that can
//! be replaced: binding `MOD+q` twice leaves one binding. The write lands straight in the staged configuration, so
//! `"MOD+SHIFT+q"` and `"SHIFT+MOD+q"` reach the same entry. Assigning `nil`
//! removes a binding, a built-in default included.

use vstd::prelude::*;
use crate::config::{
    monitors_view, Action, ActionV, Bind, BindV, ConfigV, GestureBind, GestureBindV, GestureTrigger,
    HoldBind, HoldBindV, MonitorPlace, MonitorPlaceV, MonitorScale, MOD_MASK,
};
use crate::seqs::{
    is_first_where, keys_unique, lemma_filter_keeps_unique, lemma_first_where_is, lemma_first_where_none,
    lemma_upsert_keyed,
};
use crate::names::{parse_mods, spec_lookup, spec_parse_mods, Keysyms};
use crate::parse::{trigger_by_name, trigger_named};
use crate::seqs::upsert;
use crate::settings::{same_chord, same_hold_chord, same_trigger};
use crate::staging::{cleared, Staged, StagedV};
use crate::plugins::append_lit;
use crate::text::{
    chars_of, debug_quoted, eq_lit, in_quotes, lower, lower_exec, plain, quoted, rsplit_once,
    rsplit_once_exec, string_of, trim, trim_exec, upper_char, upper_char_exec,
};

verus! {

/// The registrar tables.
#[derive(Clone, Copy, PartialEq, Eq, Structural, Debug)]
pub enum Kind {
    Keys,
    Hold,
    Gestures,
    Monitors,
}

impl Kind {
    /// The name a script writes for the table.
    pub fn name(self) -> (r: &'static str)
        ensures
            r@ == (match self {
                Kind::Keys => "oxin.keys"@,
                Kind::Hold => "oxin.hold"@,
                Kind::Gestures => "oxin.gestures"@,
                Kind::Monitors => "oxin.monitors"@,
            }),
    {
        match self {
            Kind::Keys => "oxin.keys",
            Kind::Hold => "oxin.hold",
            Kind::Gestures => "oxin.gestures",
            Kind::Monitors => "oxin.monitors",
        }
    }
}

/// A key of a script table.
#[derive(Debug)]
pub enum TableKey {
    Name(String),
    Index(i64),
    /// Any other key, by its type name.
    Other(String),
}

/// A value a script assigned, as far as the registrars and settings read it.
#[derive(Debug)]
pub enum ScriptValue {
    Nil,
    Bool(bool),
    /// A whole number.
    Int(i64),
    /// A number with a fractional part. Its value is the shell's to read:
    /// this library holds no fractional numbers.
    Number,
    Str(String),
    /// A value built by `oxin.action`.
    Action(Action),
    /// A script function.
    Function,
    Table(Vec<(TableKey, ScriptValue)>),
    /// Anything else, by its type name.
    Other(String),
}

/// Why an assignment to a registrar was refused. The refusals about a name
/// carry the name, so the message can say which.
#[derive(Debug, PartialEq, Eq)]
pub enum AssignError {
    /// The chord names no key at all.
    NoKeyName,
    /// A modifier in the chord (`spec`, trimmed) is not one the vocabulary
    /// has; `mods` is the chord's modifier part.
    UnknownModifier { spec: String, mods: String },
    /// xkb does not know the chord's key: the chord (trimmed) and its key
    /// part.
    UnknownKey { spec: String, key: String },
    /// No gesture trigger has that name (lowercased).
    UnknownGesture(String),
    /// The binding gives no action.
    NoAction,
    /// The value is neither an `oxin.action` nor a function.
    NotAnAction,
    /// A hold binding's `ms` is missing or not a whole number.
    HoldShape,
    /// A hold binding's `ms` is outside 1 to 60000.
    HoldRange,
    /// A hold binding is not a table.
    HoldNotTable,
    /// A named output's whole scale is zero or negative.
    ScaleNotPositive,
    /// A named output is given something other than a table or `nil`.
    MonitorNotTable,
}

/// The mathematical form of an [`AssignError`]: its names as characters.
pub ghost enum AssignErrorV {
    NoKeyName,
    UnknownModifier { spec: Seq<char>, mods: Seq<char> },
    UnknownKey { spec: Seq<char>, key: Seq<char> },
    UnknownGesture(Seq<char>),
    NoAction,
    NotAnAction,
    HoldShape,
    HoldRange,
    HoldNotTable,
    ScaleNotPositive,
    MonitorNotTable,
}

impl View for AssignError {
    type V = AssignErrorV;

    open spec fn view(&self) -> AssignErrorV {
        match self {
            AssignError::NoKeyName => AssignErrorV::NoKeyName,
            AssignError::UnknownModifier { spec, mods } => AssignErrorV::UnknownModifier {
                spec: spec@,
                mods: mods@,
            },
            AssignError::UnknownKey { spec, key } => AssignErrorV::UnknownKey { spec: spec@, key: key@ },
            AssignError::UnknownGesture(n) => AssignErrorV::UnknownGesture(n@),
            AssignError::NoAction => AssignErrorV::NoAction,
            AssignError::NotAnAction => AssignErrorV::NotAnAction,
            AssignError::HoldShape => AssignErrorV::HoldShape,
            AssignError::HoldRange => AssignErrorV::HoldRange,
            AssignError::HoldNotTable => AssignErrorV::HoldNotTable,
            AssignError::ScaleNotPositive => AssignErrorV::ScaleNotPositive,
            AssignError::MonitorNotTable => AssignErrorV::MonitorNotTable,
        }
    }
}

/// A result with its refusal in mathematical form.
pub open spec fn err_view<T>(r: Result<T, AssignError>) -> Result<T, AssignErrorV> {
    match r {
        Ok(x) => Ok(x),
        Err(e) => Err(e@),
    }
}

/// The names a refusal quotes: the first and the second, where it has them.
pub open spec fn quoted_parts(e: AssignErrorV) -> (Seq<char>, Seq<char>) {
    match e {
        AssignErrorV::UnknownModifier { spec, mods } => (spec, mods),
        AssignErrorV::UnknownKey { spec, key } => (spec, key),
        AssignErrorV::UnknownGesture(n) => (n, Seq::empty()),
        _ => (Seq::empty(), Seq::empty()),
    }
}

/// The triggers a refused gesture name is told about.
pub open spec fn trigger_help() -> Seq<char> {
    ". Touchscreen triggers are edge swipes (bottom-up, edge-left-in, top-down, …), multi-finger swipes (two-left, three-up, …) and double-tap. Touchpad triggers are pad-three-left/right/up/down and pad-pinch-in/out."@
}

/// What a script author reads for a refusal, given how `{:?}` prints the
/// names it quotes (`q1` and `q2`, in the order of [`quoted_parts`]).
pub open spec fn assign_error_text(e: AssignErrorV, q1: Seq<char>, q2: Seq<char>) -> Seq<char> {
    match e {
        AssignErrorV::NoKeyName => "a binding needs a key name"@,
        AssignErrorV::UnknownModifier { .. } => q1 + ": unknown modifier in "@ + q2
            + " (use MOD, SUPER, CTRL, ALT, SHIFT)"@,
        AssignErrorV::UnknownKey { .. } => q1 + ": xkb does not know a key called "@ + q2,
        AssignErrorV::UnknownGesture(_) => "oxin.gestures has no trigger "@ + q1 + trigger_help(),
        AssignErrorV::NoAction => "no action given"@,
        AssignErrorV::NotAnAction => "expected an oxin.action or a function"@,
        AssignErrorV::HoldShape => "oxin.hold takes { ms = <milliseconds>, action = ... }"@,
        AssignErrorV::HoldRange => "oxin.hold: ms must be between 1 and 60000"@,
        AssignErrorV::HoldNotTable => "oxin.hold takes a table { ms = ..., action = ... }"@,
        AssignErrorV::ScaleNotPositive => "oxin.monitors: scale must be greater than 0"@,
        AssignErrorV::MonitorNotTable => "oxin.monitors takes { x = ..., y = ..., scale = ... }"@,
    }
}

/// The text of refusal `e`, given the `{:?}` forms of the names it quotes.
pub fn refusal_text(e: &AssignError, q1: &str, q2: &str) -> (r: String)
    ensures
        r@ == assign_error_text(e@, q1@, q2@),
{
    let mut out: Vec<char> = Vec::new();
    match e {
        AssignError::NoKeyName => append_lit(&mut out, "a binding needs a key name"),
        AssignError::UnknownModifier { .. } => {
            append_lit(&mut out, q1);
            append_lit(&mut out, ": unknown modifier in ");
            append_lit(&mut out, q2);
            append_lit(&mut out, " (use MOD, SUPER, CTRL, ALT, SHIFT)");
        },
        AssignError::UnknownKey { .. } => {
            append_lit(&mut out, q1);
            append_lit(&mut out, ": xkb does not know a key called ");
            append_lit(&mut out, q2);
        },
        AssignError::UnknownGesture(_) => {
            append_lit(&mut out, "oxin.gestures has no trigger ");
            append_lit(&mut out, q1);
            append_lit(
                &mut out,
                ". Touchscreen triggers are edge swipes (bottom-up, edge-left-in, top-down, …), multi-finger swipes (two-left, three-up, …) and double-tap. Touchpad triggers are pad-three-left/right/up/down and pad-pinch-in/out.",
            );
        },
        AssignError::NoAction => append_lit(&mut out, "no action given"),
        AssignError::NotAnAction => append_lit(&mut out, "expected an oxin.action or a function"),
        AssignError::HoldShape => append_lit(&mut out, "oxin.hold takes { ms = <milliseconds>, action = ... }"),
        AssignError::HoldRange => append_lit(&mut out, "oxin.hold: ms must be between 1 and 60000"),
        AssignError::HoldNotTable => append_lit(&mut out, "oxin.hold takes a table { ms = ..., action = ... }"),
        AssignError::ScaleNotPositive => append_lit(&mut out, "oxin.monitors: scale must be greater than 0"),
        AssignError::MonitorNotTable => append_lit(
            &mut out,
            "oxin.monitors takes { x = ..., y = ..., scale = ... }",
        ),
    }
    proof {
        assert(out@ =~= assign_error_text(e@, q1@, q2@));
    }
    string_of(&out)
}

impl AssignError {
    /// What a script author reads for this refusal.
    pub fn message(&self) -> (r: String)
        ensures
            r@ == assign_error_text(
                self@,
                debug_quoted(quoted_parts(self@).0),
                debug_quoted(quoted_parts(self@).1),
            ),
            plain(quoted_parts(self@).0) && plain(quoted_parts(self@).1) ==> r@ == assign_error_text(
                self@,
                in_quotes(quoted_parts(self@).0),
                in_quotes(quoted_parts(self@).1),
            ),
    {
        let empty = String::new();
        match self {
            AssignError::UnknownModifier { spec, mods } => {
                let q1 = quoted(spec.as_str());
                let q2 = quoted(mods.as_str());
                refusal_text(self, q1.as_str(), q2.as_str())
            },
            AssignError::UnknownKey { spec, key } => {
                let q1 = quoted(spec.as_str());
                let q2 = quoted(key.as_str());
                refusal_text(self, q1.as_str(), q2.as_str())
            },
            AssignError::UnknownGesture(n) => {
                let q1 = quoted(n.as_str());
                let q2 = quoted(empty.as_str());
                refusal_text(self, q1.as_str(), q2.as_str())
            },
            _ => {
                let q1 = quoted(empty.as_str());
                let q2 = quoted(empty.as_str());
                refusal_text(self, q1.as_str(), q2.as_str())
            },
        }
    }
}

/// The value a table gives `name`, or `nil` when it has none.
pub open spec fn field(t: Seq<(TableKey, ScriptValue)>, name: Seq<char>) -> ScriptValue
    decreases t.len(),
{
    if t.len() == 0 {
        ScriptValue::Nil
    } else if t[0].0 matches TableKey::Name(n) && n@ == name {
        t[0].1
    } else {
        field(t.skip(1), name)
    }
}

/// A chord's modifier part and key part: the key is the last `+`-separated
/// piece, so a key that is itself `+` (as in `"MOD++"`) still works.
pub open spec fn chord_parts(spec: Seq<char>) -> (Seq<char>, Seq<char>) {
    let t = trim(spec);
    match rsplit_once(t, '+') {
        Some((m, k)) => if trim(k).len() > 0 {
            (m, trim(k))
        } else {
            (m, "+"@)
        },
        None => (Seq::empty(), t),
    }
}

/// Whether the text spells `MOD` somewhere, in any case.
pub open spec fn mentions_mod(m: Seq<char>) -> bool {
    exists|i: int|
        0 <= i && i + 3 <= m.len() && upper_char(#[trigger] m[i]) == 'M' && upper_char(m[i + 1]) == 'O'
            && upper_char(m[i + 2]) == 'D'
}

/// What a chord resolves to for the current primary modifier and key table.
pub open spec fn spec_chord(spec: Seq<char>, modifier: u32, keys: Map<Seq<char>, u32>) -> Result<
    (u32, u32),
    AssignErrorV,
> {
    let (m, k) = chord_parts(spec);
    if trim(spec).len() == 0 {
        Err(AssignErrorV::NoKeyName)
    } else {
        let mods = if m.len() == 0 {
            Some(0u32)
        } else {
            spec_parse_mods(m, modifier)
        };
        match mods {
            None => Err(AssignErrorV::UnknownModifier { spec: trim(spec), mods: m }),
            Some(bits) => match spec_lookup(keys, k) {
                None => Err(AssignErrorV::UnknownKey { spec: trim(spec), key: k }),
                Some(sym) => Ok((bits & MOD_MASK, sym)),
            },
        }
    }
}

/// Resolving the chord pins the primary modifier: its modifiers parsed and
/// spell `MOD`.
pub open spec fn resolves_mod(spec: Seq<char>, modifier: u32) -> bool {
    let m = chord_parts(spec).0;
    trim(spec).len() > 0 && m.len() > 0 && spec_parse_mods(m, modifier) is Some && mentions_mod(m)
}

/// The staged state after a chord was resolved.
pub open spec fn after_chord(s: StagedV, spec: Seq<char>) -> StagedV {
    StagedV { mod_resolved: s.mod_resolved || resolves_mod(spec, s.config.modifier), ..s }
}

/// The action the right-hand side of a binding stands for; a function gets
/// the next function id.
pub open spec fn rhs_action(v: ScriptValue, next_id: u32) -> Result<ActionV, AssignErrorV> {
    match v {
        ScriptValue::Action(a) => Ok(a@),
        ScriptValue::Function => Ok(ActionV::Lua(next_id)),
        ScriptValue::Nil => Err(AssignErrorV::NoAction),
        _ => Err(AssignErrorV::NotAnAction),
    }
}

/// The staged state after the right-hand side was taken: a function is
/// registered.
pub open spec fn after_rhs(s: StagedV, v: ScriptValue) -> StagedV {
    if v is Function {
        StagedV { functions: (s.functions + 1) as u32, ..s }
    } else {
        s
    }
}

pub open spec fn with_bind(s: StagedV, b: BindV) -> StagedV {
    StagedV {
        config: ConfigV { binds: upsert(s.config.binds, same_chord(b.mods, b.keysym), b), ..s.config },
        ..s
    }
}

pub open spec fn with_hold(s: StagedV, h: HoldBindV) -> StagedV {
    StagedV {
        config: ConfigV {
            hold_binds: upsert(s.config.hold_binds, same_hold_chord(h.mods, h.keysym), h),
            ..s.config
        },
        ..s
    }
}

pub open spec fn without_hold(s: StagedV, c: (u32, u32)) -> StagedV {
    StagedV {
        config: ConfigV {
            hold_binds: s.config.hold_binds.filter(|h: HoldBindV| (h.mods, h.keysym) != c),
            ..s.config
        },
        ..s
    }
}

pub open spec fn with_gesture(s: StagedV, g: GestureBindV) -> StagedV {
    StagedV {
        config: ConfigV { gestures: upsert(s.config.gestures, same_trigger(g.trigger), g), ..s.config },
        ..s
    }
}

pub open spec fn without_gesture(s: StagedV, t: GestureTrigger) -> StagedV {
    StagedV {
        config: ConfigV {
            gestures: s.config.gestures.filter(|g: GestureBindV| g.trigger != t),
            ..s.config
        },
        ..s
    }
}

/// `oxin.keys[spec] = v`: the staged state afterwards and the outcome.
pub open spec fn spec_assign_key(s: StagedV, spec: Seq<char>, v: ScriptValue, keys: Map<Seq<char>, u32>) -> (
    StagedV,
    Result<(), AssignErrorV>,
) {
    let s1 = after_chord(s, spec);
    match spec_chord(spec, s.config.modifier, keys) {
        Err(e) => (s1, Err(e)),
        Ok(c) => if v is Nil {
            (cleared(s1, c), Ok(()))
        } else {
            match rhs_action(v, s1.functions) {
                Err(e) => (s1, Err(e)),
                Ok(a) => (with_bind(after_rhs(s1, v), BindV { mods: c.0, keysym: c.1, action: a }), Ok(())),
            }
        },
    }
}

/// `oxin.hold[spec] = v`: the staged state afterwards and the outcome.
pub open spec fn spec_assign_hold(s: StagedV, spec: Seq<char>, v: ScriptValue, keys: Map<Seq<char>, u32>) -> (
    StagedV,
    Result<(), AssignErrorV>,
) {
    let s1 = after_chord(s, spec);
    match spec_chord(spec, s.config.modifier, keys) {
        Err(e) => (s1, Err(e)),
        Ok(c) => match v {
            ScriptValue::Nil => (without_hold(s1, c), Ok(())),
            ScriptValue::Table(t) => match field(t@, "ms"@) {
                ScriptValue::Int(ms) => if 1 <= ms <= 60000 {
                    let a = field(t@, "action"@);
                    match rhs_action(a, s1.functions) {
                        Err(e) => (s1, Err(e)),
                        Ok(act) => (
                            with_hold(
                                after_rhs(s1, a),
                                HoldBindV { mods: c.0, keysym: c.1, duration_ms: ms as i32, action: act },
                            ),
                            Ok(()),
                        ),
                    }
                } else {
                    (s1, Err(AssignErrorV::HoldRange))
                },
                _ => (s1, Err(AssignErrorV::HoldShape)),
            },
            _ => (s1, Err(AssignErrorV::HoldNotTable)),
        },
    }
}

/// `oxin.gestures[name] = v`: the staged state afterwards and the outcome.
pub open spec fn spec_assign_gesture(s: StagedV, name: Seq<char>, v: ScriptValue) -> (
    StagedV,
    Result<(), AssignErrorV>,
) {
    match trigger_named(lower(name)) {
        None => (s, Err(AssignErrorV::UnknownGesture(lower(name)))),
        Some(t) => if v is Nil {
            (without_gesture(s, t), Ok(()))
        } else {
            match rhs_action(v, s.functions) {
                Err(e) => (s, Err(e)),
                Ok(a) => (with_gesture(after_rhs(s, v), GestureBindV { trigger: t, action: a }), Ok(())),
            }
        },
    }
}

/// A chord's modifier part and key part, as [`chord_parts`] says.
pub fn split_chord(spec: &str) -> (r: (Vec<char>, Vec<char>))
    ensures
        r.0@ == chord_parts(spec@).0,
        r.1@ == chord_parts(spec@).1,
{
    let t = trim_exec(&chars_of(spec));
    match rsplit_once_exec(&t, '+') {
        Some((m, k)) => {
            let kt = trim_exec(&k);
            if kt.len() > 0 {
                (m, kt)
            } else {
                let mut plus: Vec<char> = Vec::new();
                plus.push('+');
                proof {
                    reveal_strlit("+");
                    assert(plus@ =~= "+"@);
                }
                (m, plus)
            }
        },
        None => {
            let empty: Vec<char> = Vec::new();
            assert(empty@ =~= Seq::<char>::empty());
            (empty, t)
        },
    }
}

/// The key name a chord ends in: the name the shell asks xkb about.
pub fn chord_key_name(spec: &str) -> (r: String)
    ensures
        r@ == chord_parts(spec@).1,
{
    let (_m, k) = split_chord(spec);
    string_of(&k)
}

/// Whether `m` spells `MOD`, in any case.
pub fn has_mod_word(m: &Vec<char>) -> (r: bool)
    ensures
        r == mentions_mod(m@),
{
    if m.len() < 3 {
        return false;
    }
    let mut i: usize = 0;
    while i < m.len() - 2
        invariant
            i <= m.len() - 2,
            m.len() >= 3,
            forall|k: int|
                0 <= k < i ==> !(upper_char(#[trigger] m@[k]) == 'M' && upper_char(m@[k + 1]) == 'O'
                    && upper_char(m@[k + 2]) == 'D'),
        decreases m.len() - i,
    {
        if upper_char_exec(m[i]) == 'M' && upper_char_exec(m[i + 1]) == 'O' && upper_char_exec(m[i + 2])
            == 'D' {
            return true;
        }
        i += 1;
    }
    false
}

/// Resolve `"MOD+SHIFT+q"` to the (modifiers, keysym) pair the keyboard
/// handler matches on. A chord whose modifiers spell `MOD` pins the primary
/// modifier from here on.
pub fn chord(staged: &mut Staged, spec: &str, keys: &Keysyms) -> (r: Result<(u32, u32), AssignError>)
    ensures
        err_view(r) == spec_chord(spec@, old(staged)@.config.modifier, keys@),
        final(staged)@ == after_chord(old(staged)@, spec@),
{
    let t = trim_exec(&chars_of(spec));
    if t.len() == 0 {
        return Err(AssignError::NoKeyName);
    }
    let (m, k) = split_chord(spec);
    let mods: u32 = if m.len() == 0 {
        0
    } else {
        match parse_mods(&m, staged.config.modifier) {
            None => return Err(AssignError::UnknownModifier { spec: string_of(&t), mods: string_of(&m) }),
            Some(bits) => {
                if has_mod_word(&m) {
                    staged.mod_resolved = true;
                }
                bits
            },
        }
    };
    match keys.lookup(&k) {
        None => Err(AssignError::UnknownKey { spec: string_of(&t), key: string_of(&k) }),
        Some(sym) => Ok((mods & MOD_MASK, sym)),
    }
}

/// The action a binding's right-hand side stands for; a script function is
/// registered and referred to by its id.
fn action_from(staged: &mut Staged, v: &ScriptValue) -> (r: Result<Action, AssignError>)
    requires
        old(staged).functions < u32::MAX,
    ensures
        match rhs_action(*v, old(staged).functions) {
            Ok(a) => r matches Ok(x) && x@ == a,
            Err(e) => r matches Err(x) && x@ == e,
        },
        final(staged)@ == (if r is Ok {
            after_rhs(old(staged)@, *v)
        } else {
            old(staged)@
        }),
{
    match v {
        ScriptValue::Action(a) => Ok(a.duplicate()),
        ScriptValue::Function => {
            let id = staged.add_function();
            Ok(Action::Lua(id))
        },
        ScriptValue::Nil => Err(AssignError::NoAction),
        _ => Err(AssignError::NotAnAction),
    }
}

/// The value a table gives `name`, by reference; `None` when it has none.
pub(crate) fn find_field<'a>(t: &'a Vec<(TableKey, ScriptValue)>, name: &str) -> (r: Option<&'a ScriptValue>)
    ensures
        match r {
            Some(v) => *v == field(t@, name@),
            None => field(t@, name@) is Nil,
        },
{
    let n = chars_of(name);
    let mut i: usize = 0;
    assert(t@.skip(0) =~= t@);
    while i < t.len()
        invariant
            i <= t.len(),
            n@ == name@,
            field(t@, name@) == field(t@.skip(i as int), name@),
        decreases t.len() - i,
    {
        proof {
            assert(t@.skip(i as int)[0] == t@[i as int]);
            assert(t@.skip(i as int).skip(1) =~= t@.skip(i + 1));
        }
        let entry = &t[i];
        let hit = match &entry.0 {
            TableKey::Name(k) => eq_lit(&n, k.as_str()),
            _ => false,
        };
        if hit {
            return Some(&entry.1);
        }
        i += 1;
    }
    None
}

/// `oxin.keys[spec] = v`: bind the chord to an action or function, or with
/// `nil` unbind it (a default included) for good.
pub fn assign_key(staged: &mut Staged, spec: &str, v: &ScriptValue, keys: &Keysyms) -> (r: Result<(), AssignError>)
    requires
        old(staged).functions < u32::MAX,
    ensures
        (final(staged)@, err_view(r)) == spec_assign_key(old(staged)@, spec@, *v, keys@),
{
    let c = match chord(staged, spec, keys) {
        Err(e) => return Err(e),
        Ok(c) => c,
    };
    if let ScriptValue::Nil = v {
        staged.clear_bind(c);
        return Ok(());
    }
    match action_from(staged, v) {
        Err(e) => Err(e),
        Ok(a) => {
            staged.set_bind(Bind { mods: c.0, keysym: c.1, action: a });
            Ok(())
        },
    }
}

/// `oxin.hold[spec] = { ms = ..., action = ... }`: a long press of the
/// chord; `nil` removes it.
pub fn assign_hold(staged: &mut Staged, spec: &str, v: &ScriptValue, keys: &Keysyms) -> (r: Result<(), AssignError>)
    requires
        old(staged).functions < u32::MAX,
    ensures
        (final(staged)@, err_view(r)) == spec_assign_hold(old(staged)@, spec@, *v, keys@),
{
    let c = match chord(staged, spec, keys) {
        Err(e) => return Err(e),
        Ok(c) => c,
    };
    match v {
        ScriptValue::Nil => {
            staged.clear_hold(c);
            Ok(())
        },
        ScriptValue::Table(t) => {
            let ms: i64 = match find_field(t, "ms") {
                Some(ScriptValue::Int(ms)) => *ms,
                _ => {
                    proof {
                        reveal_strlit("ms");
                    }
                    return Err(AssignError::HoldShape);
                },
            };
            if ms < 1 || ms > 60000 {
                return Err(AssignError::HoldRange);
            }
            let a = match find_field(t, "action") {
                Some(value) => action_from(staged, value),
                None => Err(AssignError::NoAction),
            };
            match a {
                Err(e) => Err(e),
                Ok(act) => {
                    staged.set_hold(HoldBind { mods: c.0, keysym: c.1, duration_ms: ms as i32, action: act });
                    Ok(())
                },
            }
        },
        _ => Err(AssignError::HoldNotTable),
    }
}

/// The gesture trigger a script names, in any case; a name that is no
/// trigger is refused with the name as the script wrote it, lowercased.
pub fn gesture_trigger(name: &str) -> (r: Result<GestureTrigger, AssignError>)
    ensures
        err_view(r) == (match trigger_named(lower(name@)) {
            Some(t) => Ok(t),
            None => Err(AssignErrorV::UnknownGesture(lower(name@))),
        }),
{
    let low = lower_exec(&chars_of(name));
    match trigger_by_name(&low) {
        Some(t) => Ok(t),
        None => Err(AssignError::UnknownGesture(string_of(&low))),
    }
}

/// `oxin.gestures[name] = v`: bind the trigger, or with `nil` unbind it.
pub fn assign_gesture(staged: &mut Staged, name: &str, v: &ScriptValue) -> (r: Result<(), AssignError>)
    requires
        old(staged).functions < u32::MAX,
    ensures
        (final(staged)@, err_view(r)) == spec_assign_gesture(old(staged)@, name@, *v),
{
    let t = match gesture_trigger(name) {
        Err(e) => return Err(e),
        Ok(t) => t,
    };
    if let ScriptValue::Nil = v {
        staged.clear_gesture(t);
        return Ok(());
    }
    match action_from(staged, v) {
        Err(e) => Err(e),
        Ok(a) => {
            staged.set_gesture(GestureBind { trigger: t, action: a });
            Ok(())
        },
    }
}

/// The placement for an output with this connector name.
pub open spec fn named(name: Seq<char>) -> spec_fn(MonitorPlaceV) -> bool {
    |m: MonitorPlaceV| m.name == name
}

/// A coordinate a monitor table gives: its whole number, cut to 32 bits,
/// or 0 when it has none.
pub open spec fn coordinate(v: ScriptValue) -> i32 {
    match v {
        ScriptValue::Int(i) => i as i32,
        _ => 0,
    }
}

/// `oxin.monitors[name] = v`: the staged state afterwards and the outcome.
/// A table places the named output (replacing an earlier placement of it);
/// `nil` removes its placement.
pub open spec fn spec_assign_monitor(s: StagedV, name: Seq<char>, v: ScriptValue) -> (
    StagedV,
    Result<(), AssignErrorV>,
) {
    match v {
        ScriptValue::Nil => (
            StagedV {
                config: ConfigV {
                    monitors: s.config.monitors.filter(|m: MonitorPlaceV| m.name != name),
                    ..s.config
                },
                ..s
            },
            Ok(()),
        ),
        ScriptValue::Table(t) => {
            let x = coordinate(field(t@, "x"@));
            let y = coordinate(field(t@, "y"@));
            let scale = match field(t@, "scale"@) {
                ScriptValue::Int(n) => MonitorScale::Whole(n),
                ScriptValue::Number => MonitorScale::Fraction,
                _ => MonitorScale::Unset,
            };
            if scale matches MonitorScale::Whole(n) && n <= 0 {
                (s, Err(AssignErrorV::ScaleNotPositive))
            } else {
                let m = MonitorPlaceV { name, x, y, scale };
                (
                    StagedV {
                        config: ConfigV { monitors: upsert(s.config.monitors, named(name), m), ..s.config },
                        ..s
                    },
                    Ok(()),
                )
            }
        },
        _ => (s, Err(AssignErrorV::MonitorNotTable)),
    }
}

/// Place `m` over the entry for its connector name, or after the others.
pub(crate) fn upsert_monitor(ms: &mut Vec<MonitorPlace>, m: MonitorPlace)
    ensures
        monitors_view(final(ms)@) == upsert(monitors_view(old(ms)@), named(m.name@), m@),
{
    let ghost v = monitors_view(ms@);
    let ghost p = named(m.name@);
    let mut i: usize = 0;
    while i < ms.len()
        invariant
            i <= ms.len(),
            v == monitors_view(ms@),
            ms@ == old(ms)@,
            p == named(m.name@),
            forall|k: int| 0 <= k < i ==> !p(#[trigger] v[k]),
        decreases ms.len() - i,
    {
        let hit = eq_lit(&chars_of(ms[i].name.as_str()), m.name.as_str());
        proof {
            assert(v[i as int] == ms@[i as int]@);
        }
        if hit {
            proof {
                assert(is_first_where(v, p, i as int));
                lemma_first_where_is(v, p, i as int);
            }
            let ghost mv = m@;
            ms.set(i, m);
            proof {
                assert(monitors_view(ms@) =~= v.update(i as int, mv));
            }
            return;
        }
        i += 1;
    }
    proof {
        lemma_first_where_none(v, p);
    }
    let ghost mv = m@;
    ms.push(m);
    proof {
        assert(monitors_view(ms@) =~= v.push(mv));
    }
}

fn remove_monitor(ms: &mut Vec<MonitorPlace>, name: &str)
    ensures
        monitors_view(final(ms)@) == monitors_view(old(ms)@).filter(|m: MonitorPlaceV| m.name != name@),
{
    let ghost old_v = monitors_view(ms@);
    let ghost p = |m: MonitorPlaceV| m.name != name@;
    let mut all: Vec<MonitorPlace> = Vec::new();
    std::mem::swap(&mut all, ms);
    let mut i: usize = 0;
    proof {
        reveal(Seq::filter);
    }
    assert(old_v.take(0).filter(p) =~= Seq::<MonitorPlaceV>::empty());
    assert(old_v.skip(0) =~= old_v);
    assert(old_v.len() == all.len());
    while all.len() > 0
        invariant
            i + all.len() == old_v.len(),
            old_v.len() <= usize::MAX,
            monitors_view(all@) == old_v.skip(i as int),
            monitors_view(ms@) == old_v.take(i as int).filter(p),
            p == (|m: MonitorPlaceV| m.name != name@),
        decreases all.len(),
    {
        let ghost before_all = all@;
        let m = all.remove(0);
        proof {
            assert(before_all[0] == m);
            assert(monitors_view(before_all)[0] == m@);
            assert(old_v.skip(i as int)[0] == old_v[i as int]);
            assert(m@ == old_v[i as int]);
            assert(all@ =~= before_all.drop_first());
            assert forall|k: int| 0 <= k < all@.len() implies #[trigger] monitors_view(all@)[k]
                == old_v.skip(i + 1)[k] by {
                assert(all@[k] == before_all[k + 1]);
                assert(monitors_view(before_all)[k + 1] == old_v.skip(i as int)[k + 1]);
            }
            assert(monitors_view(all@) =~= old_v.skip(i + 1));
            let t = old_v.take(i + 1);
            assert(t.drop_last() =~= old_v.take(i as int));
            assert(t.last() == m@);
            reveal(Seq::filter);
            assert(t.filter(p) == (if p(t.last()) {
                t.drop_last().filter(p).push(t.last())
            } else {
                t.drop_last().filter(p)
            }));
        }
        let keep = !eq_lit(&chars_of(m.name.as_str()), name);
        if keep {
            let ghost before = monitors_view(ms@);
            let ghost mv = m@;
            ms.push(m);
            assert(monitors_view(ms@) =~= before.push(mv));
        }
        i += 1;
    }
    assert(old_v.take(i as int) =~= old_v);
}

fn coordinate_exec(v: Option<&ScriptValue>) -> (r: i32)
    ensures
        r == coordinate(match v {
            Some(x) => *x,
            None => ScriptValue::Nil,
        }),
{
    match v {
        Some(ScriptValue::Int(i)) => *i as i32,
        _ => 0,
    }
}

/// `oxin.monitors[name] = { x = ..., y = ..., scale = ... }`: place the
/// named output; `nil` removes its placement.
pub fn assign_monitor(staged: &mut Staged, name: &str, v: &ScriptValue) -> (r: Result<(), AssignError>)
    ensures
        (final(staged)@, err_view(r)) == spec_assign_monitor(old(staged)@, name@, *v),
{
    match v {
        ScriptValue::Nil => {
            let ghost s = staged@;
            remove_monitor(&mut staged.config.monitors, name);
            proof {
                assert(staged@.config =~= ConfigV {
                    monitors: s.config.monitors.filter(|m: MonitorPlaceV| m.name != name@),
                    ..s.config
                });
            }
            Ok(())
        },
        ScriptValue::Table(t) => {
            proof {
                reveal_strlit("x");
                reveal_strlit("y");
                reveal_strlit("scale");
            }
            let x = coordinate_exec(find_field(t, "x"));
            let y = coordinate_exec(find_field(t, "y"));
            let scale = match find_field(t, "scale") {
                Some(ScriptValue::Int(n)) => MonitorScale::Whole(*n),
                Some(ScriptValue::Number) => MonitorScale::Fraction,
                _ => MonitorScale::Unset,
            };
            if let MonitorScale::Whole(n) = scale {
                if n <= 0 {
                    return Err(AssignError::ScaleNotPositive);
                }
            }
            let ghost s = staged@;
            let m = MonitorPlace { name: name.to_owned(), x, y, scale };
            let ghost mv = m@;
            upsert_monitor(&mut staged.config.monitors, m);
            proof {
                assert(staged@.config =~= ConfigV {
                    monitors: upsert(s.config.monitors, named(name@), mv),
                    ..s.config
                });
            }
            Ok(())
        },
        _ => Err(AssignError::MonitorNotTable),
    }
}

/// A named output is placed once: placing it again replaces its placement
/// in place, so no connector name has two, and removing it leaves none.
pub proof fn law_one_placement_per_output(s: StagedV, name: Seq<char>, v: ScriptValue)
    requires
        keys_unique(s.config.monitors, |m: MonitorPlaceV| m.name),
    ensures
        keys_unique(spec_assign_monitor(s, name, v).0.config.monitors, |m: MonitorPlaceV| m.name),
        v is Nil ==> forall|i: int|
            0 <= i < spec_assign_monitor(s, name, v).0.config.monitors.len() ==> (
            #[trigger] spec_assign_monitor(s, name, v).0.config.monitors[i]).name != name,
{
    let key = |m: MonitorPlaceV| m.name;
    let ms = s.config.monitors;
    match v {
        ScriptValue::Nil => {
            let p = |m: MonitorPlaceV| m.name != name;
            let r = ms.filter(p);
            assert forall|i: int| 0 <= i < r.len() implies (#[trigger] r[i]).name != name by {
                ms.lemma_filter_pred(p, i);
            }
            assert forall|a: int, b: int|
                0 <= a < r.len() && 0 <= b < r.len() && key(#[trigger] r[a]) == key(#[trigger] r[b])
                implies a == b by {
                lemma_filter_keeps_unique(ms, p, key, a, b);
            }
        },
        ScriptValue::Table(t) => {
            let x = coordinate(field(t@, "x"@));
            let y = coordinate(field(t@, "y"@));
            let scale = match field(t@, "scale"@) {
                ScriptValue::Int(n) => MonitorScale::Whole(n),
                ScriptValue::Number => MonitorScale::Fraction,
                _ => MonitorScale::Unset,
            };
            let m = MonitorPlaceV { name, x, y, scale };
            lemma_upsert_keyed(ms, key, named(name), m);
        },
        _ => {},
    }
}

/// Once a chord has used `MOD`, that stays known: no later key, hold or
/// gesture assignment, accepted or refused, forgets it.
pub proof fn law_mod_resolution_is_sticky(
    s: StagedV,
    spec: Seq<char>,
    name: Seq<char>,
    v: ScriptValue,
    keys: Map<Seq<char>, u32>,
)
    requires
        s.mod_resolved,
    ensures
        spec_assign_key(s, spec, v, keys).0.mod_resolved,
        spec_assign_hold(s, spec, v, keys).0.mod_resolved,
        spec_assign_gesture(s, name, v).0.mod_resolved,
        spec_assign_monitor(s, name, v).0.mod_resolved,
{
}

/// A refused key assignment changes nothing but the record that `MOD` was
/// used: the bindings, settings and registered functions stay as they were.
pub proof fn law_refused_key_changes_no_binding(s: StagedV, spec: Seq<char>, v: ScriptValue, keys: Map<Seq<char>, u32>)
    requires
        spec_assign_key(s, spec, v, keys).1 is Err,
    ensures
        spec_assign_key(s, spec, v, keys).0 == after_chord(s, spec),
{
}

} // verus!
