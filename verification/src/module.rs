//! The `oxin` table a script assigns settings onto.
//!
//! Settings are assigned one by one (`oxin.gap = 4`), and a setting the
//! script never mentions keeps its value. Every write is checked: a name the
//! table does not know is refused, with the nearest known setting named, so
//! a typo such as `oxin.gpa = 4` is a one-line fix instead of a silently
//! ignored line. A refused assignment leaves the configuration untouched.

use vstd::prelude::*;
use crate::config::{Config, ConfigV, MOD_LOGO};
use crate::names::{mod_name, parse_mods, spec_parse_mods};
use crate::registrars::{after_chord, field, resolves_mod, ScriptValue, TableKey};
use crate::staging::StagedV;
use crate::plugins::append_lit;
use crate::text::{chars_of, debug_quoted, eq_lit, in_quotes, plain, quoted, string_of};

verus! {

pub open spec fn min3(x: int, y: int, z: int) -> int {
    if x <= y && x <= z {
        x
    } else if y <= z {
        y
    } else {
        z
    }
}

/// The Levenshtein distance: the fewest single-character insertions,
/// deletions and substitutions that turn `a` into `b`.
pub open spec fn lev(a: Seq<char>, b: Seq<char>) -> nat
    decreases a.len() + b.len(),
{
    if a.len() == 0 {
        b.len()
    } else if b.len() == 0 {
        a.len()
    } else {
        min3(
            lev(a.drop_last(), b.drop_last()) as int + (if a.last() == b.last() {
                0int
            } else {
                1int
            }),
            lev(a.drop_last(), b) + 1int,
            lev(a, b.drop_last()) + 1int,
        ) as nat
    }
}

pub proof fn lemma_lev_bound(a: Seq<char>, b: Seq<char>)
    ensures
        lev(a, b) <= a.len() + b.len(),
    decreases a.len() + b.len(),
{
    if a.len() > 0 && b.len() > 0 {
        lemma_lev_bound(a.drop_last(), b.drop_last());
    }
}

/// The Levenshtein distance between `a` and `b`, row by row.
pub fn distance(a: &Vec<char>, b: &Vec<char>) -> (r: usize)
    requires
        a.len() + b.len() < usize::MAX,
    ensures
        r == lev(a@, b@),
{
    let n = b.len();
    let mut prev: Vec<usize> = Vec::new();
    let mut j: usize = 0;
    while j <= n
        invariant
            n == b.len(),
            n < usize::MAX,
            j <= n + 1,
            prev.len() == j,
            forall|k: int| 0 <= k < j ==> prev@[k] == k,
        decreases n + 1 - j,
    {
        prev.push(j);
        j += 1;
    }
    let mut cur: Vec<usize> = Vec::new();
    j = 0;
    while j <= n
        invariant
            n == b.len(),
            n < usize::MAX,
            j <= n + 1,
            cur.len() == j,
        decreases n + 1 - j,
    {
        cur.push(0);
        j += 1;
    }
    proof {
        assert forall|k: int| 0 <= k <= n implies prev@[k] == lev(a@.take(0), b@.take(k)) by {
            assert(a@.take(0).len() == 0);
        }
    }
    let mut i: usize = 0;
    while i < a.len()
        invariant
            n == b.len(),
            i <= a.len(),
            a.len() + b.len() < usize::MAX,
            prev.len() == n + 1,
            cur.len() == n + 1,
            forall|k: int| 0 <= k <= n ==> prev@[k] == lev(a@.take(i as int), b@.take(k)),
        decreases a.len() - i,
    {
        let ghost ai = a@.take(i + 1);
        proof {
            assert(ai.drop_last() =~= a@.take(i as int));
            assert(ai.last() == a@[i as int]);
            assert(b@.take(0).len() == 0);
        }
        cur.set(0, i + 1);
        let mut k: usize = 0;
        while k < n
            invariant
                n == b.len(),
                i < a.len(),
                k <= n,
                a.len() + b.len() < usize::MAX,
                prev.len() == n + 1,
                cur.len() == n + 1,
                ai == a@.take(i + 1),
                ai.drop_last() == a@.take(i as int),
                ai.last() == a@[i as int],
                forall|x: int| 0 <= x <= n ==> prev@[x] == lev(a@.take(i as int), b@.take(x)),
                forall|x: int| 0 <= x <= k ==> cur@[x] == lev(ai, b@.take(x)),
            decreases n - k,
        {
            let ghost bk = b@.take(k + 1);
            proof {
                assert(bk.drop_last() =~= b@.take(k as int));
                assert(bk.last() == b@[k as int]);
                lemma_lev_bound(a@.take(i as int), b@.take(k as int));
                lemma_lev_bound(a@.take(i as int), bk);
                lemma_lev_bound(ai, b@.take(k as int));
            }
            let cost: usize = if a[i] == b[k] {
                0
            } else {
                1
            };
            let sub = prev[k] + cost;
            let del = prev[k + 1] + 1;
            let ins = cur[k] + 1;
            let best = if sub <= del && sub <= ins {
                sub
            } else if del <= ins {
                del
            } else {
                ins
            };
            cur.set(k + 1, best);
            proof {
                assert(cur@[k + 1] == lev(ai, bk));
            }
            k += 1;
        }
        std::mem::swap(&mut prev, &mut cur);
        i += 1;
    }
    proof {
        assert(a@.take(a.len() as int) =~= a@);
        assert(b@.take(n as int) =~= b@);
    }
    prev[n]
}

/// How many settings the table has.
pub const SETTING_COUNT: usize = 10;

/// Every setting a script may assign, in the order the documentation lists
/// them.
pub open spec fn settings() -> Seq<Seq<char>> {
    seq![
        "modifier"@,
        "gap"@,
        "first_split"@,
        "background"@,
        "wallpaper"@,
        "window_opacity"@,
        "corner_radius"@,
        "float_size"@,
        "gesture_handle"@,
        "keyboard"@,
    ]
}

/// The `i`-th setting name.
pub fn setting_name(i: usize) -> (r: &'static str)
    requires
        i < SETTING_COUNT,
    ensures
        r@ == settings()[i as int],
{
    let r = match i {
        0 => "modifier",
        1 => "gap",
        2 => "first_split",
        3 => "background",
        4 => "wallpaper",
        5 => "window_opacity",
        6 => "corner_radius",
        7 => "float_size",
        8 => "gesture_handle",
        _ => "keyboard",
    };
    proof {
        reveal_strlit("modifier");
        reveal_strlit("gap");
        reveal_strlit("first_split");
        reveal_strlit("background");
        reveal_strlit("wallpaper");
        reveal_strlit("window_opacity");
        reveal_strlit("corner_radius");
        reveal_strlit("float_size");
        reveal_strlit("gesture_handle");
        reveal_strlit("keyboard");
    }
    r
}

/// Among the first `k` settings, the first one nearest to `name`.
pub open spec fn best_upto(name: Seq<char>, k: int) -> int
    decreases k,
{
    if k <= 1 {
        0
    } else {
        let b = best_upto(name, k - 1);
        if lev(settings()[k - 1], name) < lev(settings()[b], name) {
            k - 1
        } else {
            b
        }
    }
}

/// The setting a mistyped name most likely meant: the first one nearest to
/// it, if it is at most three edits away.
pub open spec fn suggestion(name: Seq<char>) -> Option<Seq<char>> {
    let b = best_upto(name, SETTING_COUNT as int);
    if lev(settings()[b], name) <= 3 {
        Some(settings()[b])
    } else {
        None
    }
}

pub proof fn lemma_best_upto(name: Seq<char>, k: int)
    requires
        1 <= k <= SETTING_COUNT,
    ensures
        0 <= best_upto(name, k) < k,
        forall|j: int| 0 <= j < k ==> lev(settings()[best_upto(name, k)], name) <= lev(#[trigger] settings()[j], name),
        forall|j: int| 0 <= j < best_upto(name, k) ==> lev(settings()[best_upto(name, k)], name) < lev(#[trigger] settings()[j], name),
    decreases k,
{
    if k > 1 {
        lemma_best_upto(name, k - 1);
    }
}

proof fn lemma_setting_lengths()
    ensures
        forall|k: int| 0 <= k < SETTING_COUNT ==> (#[trigger] settings()[k]).len() <= 14,
{
    reveal_strlit("modifier");
    reveal_strlit("gap");
    reveal_strlit("first_split");
    reveal_strlit("background");
    reveal_strlit("wallpaper");
    reveal_strlit("window_opacity");
    reveal_strlit("corner_radius");
    reveal_strlit("float_size");
    reveal_strlit("gesture_handle");
    reveal_strlit("keyboard");
    let s = settings();
    assert(s[0] == "modifier"@);
    assert(s[1] == "gap"@);
    assert(s[2] == "first_split"@);
    assert(s[3] == "background"@);
    assert(s[4] == "wallpaper"@);
    assert(s[5] == "window_opacity"@);
    assert(s[6] == "corner_radius"@);
    assert(s[7] == "float_size"@);
    assert(s[8] == "gesture_handle"@);
    assert(s[9] == "keyboard"@);
}

/// For a name the table does not have: the setting it most likely meant, if
/// any is close enough to name.
pub fn unknown_setting(name: &str) -> (r: Option<&'static str>)
    requires
        name@.len() + 20 < usize::MAX,
    ensures
        match r {
            Some(s) => suggestion(name@) == Some(s@),
            None => suggestion(name@) is None,
        },
{
    let n = chars_of(name);
    proof {
        reveal_strlit("modifier");
        reveal_strlit("gap");
        reveal_strlit("first_split");
        reveal_strlit("background");
        reveal_strlit("wallpaper");
        reveal_strlit("window_opacity");
        reveal_strlit("corner_radius");
        reveal_strlit("float_size");
        reveal_strlit("gesture_handle");
        reveal_strlit("keyboard");
    }
    let first = chars_of(setting_name(0));
    let mut best: usize = 0;
    let mut best_d = distance(&first, &n);
    let mut i: usize = 1;
    while i < SETTING_COUNT
        invariant
            1 <= i <= SETTING_COUNT,
            n@ == name@,
            name@.len() + 20 < usize::MAX,
            best == best_upto(name@, i as int),
            best < SETTING_COUNT,
            best_d == lev(settings()[best as int], name@),
        decreases SETTING_COUNT - i,
    {
        let cand = chars_of(setting_name(i));
        proof {
            lemma_setting_lengths();
        }
        let d = distance(&cand, &n);
        if d < best_d {
            best = i;
            best_d = d;
        }
        i += 1;
    }
    if best_d <= 3 {
        Some(setting_name(best))
    } else {
        None
    }
}

/// The settings, as the refusal of an unknown name lists them.
pub open spec fn settings_list() -> Seq<char> {
    "modifier, gap, first_split, background, wallpaper, window_opacity, corner_radius, float_size, gesture_handle, keyboard"@
}

/// The refusal of a name the table does not have, given how `{:?}` prints
/// the name: it names the setting it most likely meant, when one is at most
/// three edits away, and lists every setting otherwise.
pub open spec fn spec_unknown_setting_text(quoted_name: Seq<char>, name: Seq<char>) -> Seq<char> {
    match suggestion(name) {
        Some(near) => "oxin has no setting "@ + quoted_name + " — did you mean "@ + in_quotes(near)
            + "?"@,
        None => "oxin has no setting "@ + quoted_name + ". Settings are: "@ + settings_list()
            + ". (Helpers belong in a `local`, not on oxin.)"@,
    }
}

/// The refusal text for `name`, given its `{:?}` form `quoted_name`.
pub fn unknown_setting_text(quoted_name: &str, name: &str) -> (r: String)
    requires
        name@.len() + 20 < usize::MAX,
    ensures
        r@ == spec_unknown_setting_text(quoted_name@, name@),
{
    let mut out: Vec<char> = Vec::new();
    append_lit(&mut out, "oxin has no setting ");
    append_lit(&mut out, quoted_name);
    match unknown_setting(name) {
        Some(near) => {
            append_lit(&mut out, " — did you mean ");
            out.push('"');
            append_lit(&mut out, near);
            out.push('"');
            append_lit(&mut out, "?");
            proof {
                let q = quoted_name@;
                assert(out@ =~= "oxin has no setting "@ + q + " — did you mean "@ + in_quotes(near@)
                    + "?"@);
            }
        },
        None => {
            append_lit(&mut out, ". Settings are: ");
            append_lit(
                &mut out,
                "modifier, gap, first_split, background, wallpaper, window_opacity, corner_radius, float_size, gesture_handle, keyboard",
            );
            append_lit(&mut out, ". (Helpers belong in a `local`, not on oxin.)");
        },
    }
    string_of(&out)
}

/// What a script author reads when assigning to `name`, which the table
/// does not have.
pub fn unknown_setting_message(name: &str) -> (r: String)
    requires
        name@.len() + 20 < usize::MAX,
    ensures
        r@ == spec_unknown_setting_text(debug_quoted(name@), name@),
        plain(name@) ==> r@ == spec_unknown_setting_text(in_quotes(name@), name@),
{
    let q = quoted(name);
    unknown_setting_text(q.as_str(), name)
}

/// What went wrong with a setting's value.
#[derive(Clone, Copy, PartialEq, Eq, Structural, Debug)]
pub enum Fault {
    WantString,
    WantInteger,
    WantTable,
    /// A table of two whole numbers was wanted.
    WantPair,
    /// A number was wanted.
    WantNumber,
    /// A table of three numbers was wanted.
    WantTriple,
    UnknownModifier,
    /// The primary modifier can only change before a binding has used it.
    ModifierAfterBinding,
    Negative,
    /// Not one of the words the setting takes.
    NotAChoice,
    OutOfRange,
    /// The keyboard table has no member by that name.
    NoSuchMember,
    /// The table has no setting by that name.
    UnknownSetting,
}

impl Fault {
    /// What a script author reads for this fault, after the setting's name.
    pub fn message(self) -> (r: &'static str)
        ensures
            r@ == fault_text(self),
    {
        match self {
            Fault::WantString => "expected a string",
            Fault::WantInteger => "expected a whole number",
            Fault::WantTable => "expected a table",
            Fault::WantPair => "expected two whole numbers, e.g. { 60, 60 }",
            Fault::WantNumber => "expected a number",
            Fault::WantTriple => "expected three numbers, e.g. { 0.0, 0.6, 0.6 }",
            Fault::UnknownModifier => "unknown modifier",
            Fault::ModifierAfterBinding => "must be set before any binding uses MOD",
            Fault::Negative => "must not be negative",
            Fault::NotAChoice => "is not one of the values it takes",
            Fault::OutOfRange => "is out of range",
            Fault::NoSuchMember => "has no such member; it takes show, hide and height",
            Fault::UnknownSetting => "is not a setting",
        }
    }
}

pub open spec fn fault_text(f: Fault) -> Seq<char> {
    match f {
        Fault::WantString => "expected a string"@,
        Fault::WantInteger => "expected a whole number"@,
        Fault::WantTable => "expected a table"@,
        Fault::WantPair => "expected two whole numbers, e.g. { 60, 60 }"@,
        Fault::WantNumber => "expected a number"@,
        Fault::WantTriple => "expected three numbers, e.g. { 0.0, 0.6, 0.6 }"@,
        Fault::UnknownModifier => "unknown modifier"@,
        Fault::ModifierAfterBinding => "must be set before any binding uses MOD"@,
        Fault::Negative => "must not be negative"@,
        Fault::NotAChoice => "is not one of the values it takes"@,
        Fault::OutOfRange => "is out of range"@,
        Fault::NoSuchMember => "has no such member; it takes show, hide and height"@,
        Fault::UnknownSetting => "is not a setting"@,
    }
}

/// What a script author reads for a value outside the range a setting
/// takes, after its name.
pub open spec fn range_text(setting: Seq<char>) -> Seq<char> {
    if setting == "window_opacity"@ {
        "must be between 0.0 and 1.0"@
    } else if setting == "corner_radius"@ {
        "must be between 0 and 200"@
    } else if setting == "float_size"@ {
        "both values are percentages, between 1 and 100"@
    } else if setting == "keyboard.height"@ {
        "must be between 80 and 1000"@
    } else {
        fault_text(Fault::OutOfRange)
    }
}

/// What a script author reads for `fault` in `setting`, after its name.
pub open spec fn fault_detail(setting: Seq<char>, fault: Fault) -> Seq<char> {
    if fault == Fault::OutOfRange {
        range_text(setting)
    } else {
        fault_text(fault)
    }
}

fn detail(setting: &str, fault: Fault) -> (r: &'static str)
    ensures
        r@ == fault_detail(setting@, fault),
{
    if fault != Fault::OutOfRange {
        return fault.message();
    }
    let s = chars_of(setting);
    if eq_lit(&s, "window_opacity") {
        "must be between 0.0 and 1.0"
    } else if eq_lit(&s, "corner_radius") {
        "must be between 0 and 200"
    } else if eq_lit(&s, "float_size") {
        "both values are percentages, between 1 and 100"
    } else if eq_lit(&s, "keyboard.height") {
        "must be between 80 and 1000"
    } else {
        fault.message()
    }
}

/// A refused assignment: the setting as the script spells it (a member of
/// `keyboard` as `keyboard.height`) and what was wrong.
pub struct SettingError {
    pub setting: String,
    pub fault: Fault,
    /// The text the script gave, for the faults whose report quotes it.
    pub given: String,
}

/// The words a setting that takes one of a few words takes.
pub open spec fn choices(setting: Seq<char>) -> Seq<char> {
    if setting == "first_split"@ {
        "\"vertical\" or \"horizontal\""@
    } else if setting == "gesture_handle"@ {
        "\"visible\" or \"hidden\""@
    } else {
        "one of the values it takes"@
    }
}

fn choices_of(setting: &str) -> (r: &'static str)
    ensures
        r@ == choices(setting@),
{
    let s = chars_of(setting);
    if eq_lit(&s, "first_split") {
        "\"vertical\" or \"horizontal\""
    } else if eq_lit(&s, "gesture_handle") {
        "\"visible\" or \"hidden\""
    } else {
        "one of the values it takes"
    }
}

/// The text of a refused assignment, given how `{:?}` prints the
/// setting's name and the text the script gave: the unknown-setting refusal
/// for a name the table does not have; for an unknown modifier, a word the
/// setting does not take or a member `keyboard` does not have, the quoted
/// text; else the setting and what was wrong with its value.
pub open spec fn spec_setting_error_text(
    setting: Seq<char>,
    fault: Fault,
    quoted_setting: Seq<char>,
    quoted_given: Seq<char>,
) -> Seq<char> {
    if fault == Fault::UnknownSetting {
        spec_unknown_setting_text(quoted_setting, setting)
    } else if fault == Fault::UnknownModifier {
        "oxin."@ + setting + ": unknown modifier "@ + quoted_given
    } else if fault == Fault::NotAChoice {
        "oxin."@ + setting + ": expected "@ + choices(setting) + ", got "@ + quoted_given
    } else if fault == Fault::NoSuchMember {
        "oxin."@ + setting + " has no "@ + quoted_given + "; it takes show, hide and height"@
    } else {
        "oxin."@ + setting + ": "@ + fault_detail(setting, fault)
    }
}

impl SettingError {
    /// What a script author reads for this refusal.
    pub fn message(&self) -> (r: String)
        requires
            self.setting@.len() + 20 < usize::MAX,
        ensures
            r@ == spec_setting_error_text(
                self.setting@,
                self.fault,
                debug_quoted(self.setting@),
                debug_quoted(self.given@),
            ),
    {
        if self.fault == Fault::UnknownSetting {
            return unknown_setting_message(self.setting.as_str());
        }
        let mut out: Vec<char> = Vec::new();
        append_lit(&mut out, "oxin.");
        append_lit(&mut out, self.setting.as_str());
        if self.fault == Fault::UnknownModifier {
            append_lit(&mut out, ": unknown modifier ");
            append_lit(&mut out, quoted(self.given.as_str()).as_str());
        } else if self.fault == Fault::NotAChoice {
            append_lit(&mut out, ": expected ");
            append_lit(&mut out, choices_of(self.setting.as_str()));
            append_lit(&mut out, ", got ");
            append_lit(&mut out, quoted(self.given.as_str()).as_str());
        } else if self.fault == Fault::NoSuchMember {
            append_lit(&mut out, " has no ");
            append_lit(&mut out, quoted(self.given.as_str()).as_str());
            append_lit(&mut out, "; it takes show, hide and height");
        } else {
            append_lit(&mut out, ": ");
            append_lit(&mut out, detail(self.setting.as_str(), self.fault));
        }
        string_of(&out)
    }
}

/// How an accepted assignment was taken.
#[derive(Clone, Copy, PartialEq, Eq, Structural, Debug)]
pub enum Applied {
    /// The configuration now holds it.
    Done,
    /// A setting with fractional values (`background`, `window_opacity`),
    /// which the shell reads and applies itself.
    Float,
}

pub open spec fn clamp_i32_spec(v: i64) -> i32 {
    if v < i32::MIN {
        i32::MIN
    } else if v > i32::MAX {
        i32::MAX
    } else {
        v as i32
    }
}

/// `v` clamped into `i32`.
pub fn clamp_i32(v: i64) -> (r: i32)
    ensures
        r == clamp_i32_spec(v),
{
    if v < i32::MIN as i64 {
        i32::MIN
    } else if v > i32::MAX as i64 {
        i32::MAX
    } else {
        v as i32
    }
}

/// A refusal: the setting as the script spells it, what was wrong, and the
/// text the script gave when the report quotes it (empty otherwise).
pub type Refusal = (Seq<char>, Fault, Seq<char>);

pub type SettingResult = Result<(ConfigV, Applied), Refusal>;

/// One member of an `oxin.keyboard` table applied to `c`.
pub open spec fn keyboard_step(c: ConfigV, e: (TableKey, ScriptValue)) -> Result<ConfigV, Refusal> {
    match e.0 {
        TableKey::Name(k) => if k@ == "show"@ {
            match e.1 {
                ScriptValue::Str(s) => Ok(ConfigV { virtual_keyboard_show: Some(s@), ..c }),
                _ => Err(("keyboard.show"@, Fault::WantString, Seq::empty())),
            }
        } else if k@ == "hide"@ {
            match e.1 {
                ScriptValue::Str(s) => Ok(ConfigV { virtual_keyboard_hide: Some(s@), ..c }),
                _ => Err(("keyboard.hide"@, Fault::WantString, Seq::empty())),
            }
        } else if k@ == "height"@ {
            match e.1 {
                ScriptValue::Int(h) => if 80 <= h <= 1000 {
                    Ok(ConfigV { virtual_keyboard_height: h as i32, ..c })
                } else {
                    Err(("keyboard.height"@, Fault::OutOfRange, Seq::empty()))
                },
                _ => Err(("keyboard.height"@, Fault::WantInteger, Seq::empty())),
            }
        } else {
            Err(("keyboard"@, Fault::NoSuchMember, k@))
        },
        _ => Err(("keyboard"@, Fault::WantString, Seq::empty())),
    }
}

/// An `oxin.keyboard` table applied member by member; the first bad member
/// refuses the whole table.
pub open spec fn keyboard_fold(c: ConfigV, t: Seq<(TableKey, ScriptValue)>) -> Result<ConfigV, Refusal>
    decreases t.len(),
{
    if t.len() == 0 {
        Ok(c)
    } else {
        match keyboard_fold(c, t.drop_last()) {
            Err(e) => Err(e),
            Ok(c1) => keyboard_step(c1, t.last()),
        }
    }
}

pub open spec fn spec_set_modifier(c: ConfigV, mod_resolved: bool, v: ScriptValue) -> SettingResult {
    match v {
        ScriptValue::Str(s) => if mod_resolved {
            Err(("modifier"@, Fault::ModifierAfterBinding, Seq::empty()))
        } else {
            match spec_parse_mods(s@, MOD_LOGO) {
                Some(m) => Ok((ConfigV { modifier: m, ..c }, Applied::Done)),
                None => Err(("modifier"@, Fault::UnknownModifier, s@)),
            }
        },
        _ => Err(("modifier"@, Fault::WantString, Seq::empty())),
    }
}

pub open spec fn spec_set_gap(c: ConfigV, v: ScriptValue) -> SettingResult {
    match v {
        ScriptValue::Int(g) => if g < 0 {
            Err(("gap"@, Fault::Negative, Seq::empty()))
        } else {
            Ok((ConfigV { gap: clamp_i32_spec(g), ..c }, Applied::Done))
        },
        _ => Err(("gap"@, Fault::WantInteger, Seq::empty())),
    }
}

pub open spec fn spec_set_first_split(c: ConfigV, v: ScriptValue) -> SettingResult {
    match v {
        ScriptValue::Str(s) => if s@ == "vertical"@ {
            Ok((ConfigV { first_split_vertical: true, ..c }, Applied::Done))
        } else if s@ == "horizontal"@ {
            Ok((ConfigV { first_split_vertical: false, ..c }, Applied::Done))
        } else {
            Err(("first_split"@, Fault::NotAChoice, s@))
        },
        _ => Err(("first_split"@, Fault::WantString, Seq::empty())),
    }
}

pub open spec fn spec_set_wallpaper(c: ConfigV, v: ScriptValue) -> SettingResult {
    match v {
        ScriptValue::Nil => Ok((ConfigV { wallpaper: None, ..c }, Applied::Done)),
        ScriptValue::Str(s) => Ok((ConfigV { wallpaper: Some(s@), ..c }, Applied::Done)),
        _ => Err(("wallpaper"@, Fault::WantString, Seq::empty())),
    }
}

pub open spec fn spec_set_corner_radius(c: ConfigV, v: ScriptValue) -> SettingResult {
    match v {
        ScriptValue::Int(r) => if 0 <= r <= 200 {
            Ok((ConfigV { corner_radius: r as i32, ..c }, Applied::Done))
        } else {
            Err(("corner_radius"@, Fault::OutOfRange, Seq::empty()))
        },
        _ => Err(("corner_radius"@, Fault::WantInteger, Seq::empty())),
    }
}

pub open spec fn spec_set_float_size(c: ConfigV, v: ScriptValue) -> SettingResult {
    match v {
        ScriptValue::Table(t) => match (field_at(t@, 1), field_at(t@, 2)) {
            (ScriptValue::Int(w), ScriptValue::Int(h)) => if 1 <= w <= 100 && 1 <= h <= 100 {
                Ok((ConfigV { float_size: (w as i32, h as i32), ..c }, Applied::Done))
            } else {
                Err(("float_size"@, Fault::OutOfRange, Seq::empty()))
            },
            _ => Err(("float_size"@, Fault::WantPair, Seq::empty())),
        },
        _ => Err(("float_size"@, Fault::WantTable, Seq::empty())),
    }
}

pub open spec fn spec_set_gesture_handle(c: ConfigV, v: ScriptValue) -> SettingResult {
    match v {
        ScriptValue::Str(s) => if s@ == "visible"@ {
            Ok((ConfigV { gesture_handle_visible: true, ..c }, Applied::Done))
        } else if s@ == "hidden"@ {
            Ok((ConfigV { gesture_handle_visible: false, ..c }, Applied::Done))
        } else {
            Err(("gesture_handle"@, Fault::NotAChoice, s@))
        },
        _ => Err(("gesture_handle"@, Fault::WantString, Seq::empty())),
    }
}

pub open spec fn spec_set_keyboard(c: ConfigV, v: ScriptValue) -> SettingResult {
    match v {
        ScriptValue::Table(t) => match keyboard_fold(c, t@) {
            Ok(c1) => Ok((c1, Applied::Done)),
            Err(e) => Err(e),
        },
        _ => Err(("keyboard"@, Fault::WantTable, Seq::empty())),
    }
}

/// A number: a whole one or one with a fractional part.
pub open spec fn is_number(v: ScriptValue) -> bool {
    v is Int || v is Number
}

/// `background`: a table of three numbers (red, green and blue), whose
/// values the shell reads.
pub open spec fn spec_check_background(c: ConfigV, v: ScriptValue) -> SettingResult {
    match v {
        ScriptValue::Table(t) => if is_number(field_at(t@, 1)) && is_number(field_at(t@, 2)) && is_number(
            field_at(t@, 3),
        ) {
            Ok((c, Applied::Float))
        } else {
            Err(("background"@, Fault::WantTriple, Seq::empty()))
        },
        _ => Err(("background"@, Fault::WantTable, Seq::empty())),
    }
}

/// `window_opacity`: a number from 0 to 1. A whole number is checked here;
/// the shell reads, and checks, one with a fractional part.
pub open spec fn spec_check_window_opacity(c: ConfigV, v: ScriptValue) -> SettingResult {
    match v {
        ScriptValue::Int(o) => if 0 <= o <= 1 {
            Ok((c, Applied::Float))
        } else {
            Err(("window_opacity"@, Fault::OutOfRange, Seq::empty()))
        },
        ScriptValue::Number => Ok((c, Applied::Float)),
        _ => Err(("window_opacity"@, Fault::WantNumber, Seq::empty())),
    }
}

/// What assigning `v` to the setting `name` makes of `c`, or why it is
/// refused. `mod_resolved` says whether a binding has already used `MOD`.
pub open spec fn spec_apply(c: ConfigV, mod_resolved: bool, name: Seq<char>, v: ScriptValue) -> SettingResult {
    if name == "modifier"@ {
        spec_set_modifier(c, mod_resolved, v)
    } else if name == "gap"@ {
        spec_set_gap(c, v)
    } else if name == "first_split"@ {
        spec_set_first_split(c, v)
    } else if name == "background"@ {
        spec_check_background(c, v)
    } else if name == "window_opacity"@ {
        spec_check_window_opacity(c, v)
    } else if name == "wallpaper"@ {
        spec_set_wallpaper(c, v)
    } else if name == "corner_radius"@ {
        spec_set_corner_radius(c, v)
    } else if name == "float_size"@ {
        spec_set_float_size(c, v)
    } else if name == "gesture_handle"@ {
        spec_set_gesture_handle(c, v)
    } else if name == "keyboard"@ {
        spec_set_keyboard(c, v)
    } else {
        Err((name, Fault::UnknownSetting, Seq::empty()))
    }
}

/// Whether `r` and the state after it are what `expected` says: on a
/// refusal, the configuration is left as it was.
pub open spec fn outcome_is(expected: SettingResult, r: Result<Applied, SettingError>, before: ConfigV, after: ConfigV) -> bool {
    match expected {
        Ok((c, a)) => r matches Ok(x) && x == a && after == c,
        Err((what, f, g)) => r matches Err(e) && e.setting@ == what && e.fault == f && e.given@ == g && after == before,
    }
}

/// The value a table holds at position `i`, or `nil`.
pub open spec fn field_at(t: Seq<(TableKey, ScriptValue)>, i: i64) -> ScriptValue
    decreases t.len(),
{
    if t.len() == 0 {
        ScriptValue::Nil
    } else if t[0].0 matches TableKey::Index(k) && k == i {
        t[0].1
    } else {
        field_at(t.skip(1), i)
    }
}

/// The value a table holds at position `i`, by reference; `None` for `nil`.
fn find_index<'a>(t: &'a Vec<(TableKey, ScriptValue)>, i: i64) -> (r: Option<&'a ScriptValue>)
    ensures
        match r {
            Some(v) => *v == field_at(t@, i),
            None => field_at(t@, i) is Nil,
        },
{
    let mut k: usize = 0;
    assert(t@.skip(0) =~= t@);
    while k < t.len()
        invariant
            k <= t.len(),
            field_at(t@, i) == field_at(t@.skip(k as int), i),
        decreases t.len() - k,
    {
        proof {
            assert(t@.skip(k as int)[0] == t@[k as int]);
            assert(t@.skip(k as int).skip(1) =~= t@.skip(k + 1));
        }
        let entry = &t[k];
        let hit = match &entry.0 {
            TableKey::Index(n) => *n == i,
            _ => false,
        };
        if hit {
            return Some(&entry.1);
        }
        k += 1;
    }
    None
}

fn refuse(setting: &str, fault: Fault) -> (e: SettingError)
    ensures
        e.setting@ == setting@,
        e.fault == fault,
        e.given@ == Seq::<char>::empty(),
{
    SettingError { setting: setting.to_owned(), fault, given: String::new() }
}

fn refuse_given(setting: &str, fault: Fault, given: &str) -> (e: SettingError)
    ensures
        e.setting@ == setting@,
        e.fault == fault,
        e.given@ == given@,
{
    SettingError { setting: setting.to_owned(), fault, given: given.to_owned() }
}

/// `c` with the keyboard members a table set so far: `None` leaves one as
/// it was.
pub open spec fn keyboard_with(c: ConfigV, show_cmd: Option<Seq<char>>, hide_cmd: Option<Seq<char>>, height: Option<i32>) -> ConfigV {
    ConfigV {
        virtual_keyboard_show: if show_cmd.is_some() { show_cmd } else { c.virtual_keyboard_show },
        virtual_keyboard_hide: if hide_cmd.is_some() { hide_cmd } else { c.virtual_keyboard_hide },
        virtual_keyboard_height: match height { Some(h) => h, None => c.virtual_keyboard_height },
        ..c
    }
}

fn apply_keyboard(cfg: &mut Config, t: &Vec<(TableKey, ScriptValue)>) -> (r: Result<(), SettingError>)
    ensures
        match keyboard_fold(old(cfg)@, t@) {
            Ok(c) => r is Ok && final(cfg)@ == c,
            Err((what, f, g)) => r matches Err(e) && e.setting@ == what && e.fault == f && e.given@ == g && final(cfg)@ == old(cfg)@,
        },
{
    let ghost c0 = cfg@;
    let mut show_cmd: Option<String> = None;
    let mut hide_cmd: Option<String> = None;
    let mut height: Option<i32> = None;
    let mut i: usize = 0;
    proof {
        reveal_strlit("show");
        reveal_strlit("hide");
        reveal_strlit("height");
        assert(t@.take(0) =~= Seq::<(TableKey, ScriptValue)>::empty());
        assert(keyboard_with(c0, None, None, None) =~= c0);
    }
    while i < t.len()
        invariant
            i <= t.len(),
            cfg@ == c0,
            keyboard_fold(c0, t@.take(i as int)) == Ok::<ConfigV, Refusal>(
                keyboard_with(c0, crate::config::opt_string_view(show_cmd), crate::config::opt_string_view(hide_cmd), height),
            ),
        decreases t.len() - i,
    {
        proof {
            assert(t@.take(i + 1).drop_last() =~= t@.take(i as int));
            assert(t@.take(i + 1).last() == t@[i as int]);
        }
        let entry = &t[i];
        match &entry.0 {
            TableKey::Name(k) => {
                let kc = chars_of(k.as_str());
                if eq_lit(&kc, "show") {
                    match &entry.1 {
                        ScriptValue::Str(s) => {
                            show_cmd = Some(s.clone());
                        },
                        _ => {
                            proof {
                                lemma_fold_stops(c0, t@, i as int);
                            }
                            return Err(refuse("keyboard.show", Fault::WantString));
                        },
                    }
                } else if eq_lit(&kc, "hide") {
                    match &entry.1 {
                        ScriptValue::Str(s) => {
                            hide_cmd = Some(s.clone());
                        },
                        _ => {
                            proof {
                                lemma_fold_stops(c0, t@, i as int);
                            }
                            return Err(refuse("keyboard.hide", Fault::WantString));
                        },
                    }
                } else if eq_lit(&kc, "height") {
                    match &entry.1 {
                        ScriptValue::Int(h) => {
                            if *h < 80 || *h > 1000 {
                                proof {
                                    lemma_fold_stops(c0, t@, i as int);
                                }
                                return Err(refuse("keyboard.height", Fault::OutOfRange));
                            }
                            height = Some(*h as i32);
                        },
                        _ => {
                            proof {
                                lemma_fold_stops(c0, t@, i as int);
                            }
                            return Err(refuse("keyboard.height", Fault::WantInteger));
                        },
                    }
                } else {
                    proof {
                        lemma_fold_stops(c0, t@, i as int);
                    }
                    return Err(refuse_given("keyboard", Fault::NoSuchMember, k.as_str()));
                }
            },
            _ => {
                proof {
                    lemma_fold_stops(c0, t@, i as int);
                }
                return Err(refuse("keyboard", Fault::WantString));
            },
        }
        i += 1;
    }
    proof {
        assert(t@.take(t.len() as int) =~= t@);
    }
    if let Some(s) = show_cmd {
        cfg.virtual_keyboard_show = Some(s);
    }
    if let Some(h) = hide_cmd {
        cfg.virtual_keyboard_hide = Some(h);
    }
    if let Some(h) = height {
        cfg.virtual_keyboard_height = h;
    }
    proof {
        assert(cfg@ =~= keyboard_with(c0, crate::config::opt_string_view(show_cmd), crate::config::opt_string_view(hide_cmd), height));
    }
    Ok(())
}

/// Once a member is refused, the whole table is refused for that member.
proof fn lemma_fold_stops(c: ConfigV, t: Seq<(TableKey, ScriptValue)>, i: int)
    requires
        0 <= i < t.len(),
        keyboard_fold(c, t.take(i)) is Ok,
        keyboard_step(keyboard_fold(c, t.take(i))->Ok_0, t[i]) is Err,
    ensures
        keyboard_fold(c, t) == keyboard_step(keyboard_fold(c, t.take(i))->Ok_0, t[i]),
    decreases t.len() - i,
{
    assert(t.take(i + 1).drop_last() =~= t.take(i));
    if i + 1 == t.len() {
        assert(t.take(i + 1) =~= t);
    } else {
        lemma_fold_err_persists(c, t, i + 1);
    }
}

proof fn lemma_fold_err_persists(c: ConfigV, t: Seq<(TableKey, ScriptValue)>, j: int)
    requires
        1 <= j <= t.len(),
        keyboard_fold(c, t.take(j)) is Err,
    ensures
        keyboard_fold(c, t) == keyboard_fold(c, t.take(j)),
    decreases t.len() - j,
{
    if j == t.len() {
        assert(t.take(j) =~= t);
    } else {
        assert(t.take(j + 1).drop_last() =~= t.take(j));
        lemma_fold_err_persists(c, t, j + 1);
    }
}

fn set_modifier(cfg: &mut Config, mod_resolved: bool, v: &ScriptValue) -> (r: Result<Applied, SettingError>)
    ensures
        outcome_is(spec_set_modifier(old(cfg)@, mod_resolved, *v), r, old(cfg)@, final(cfg)@),
{
    match v {
        ScriptValue::Str(s) => {
            if mod_resolved {
                return Err(refuse("modifier", Fault::ModifierAfterBinding));
            }
            match parse_mods(&chars_of(s.as_str()), MOD_LOGO) {
                Some(m) => {
                    cfg.modifier = m;
                    Ok(Applied::Done)
                },
                None => Err(refuse_given("modifier", Fault::UnknownModifier, s.as_str())),
            }
        },
        _ => Err(refuse("modifier", Fault::WantString)),
    }
}

fn set_gap(cfg: &mut Config, v: &ScriptValue) -> (r: Result<Applied, SettingError>)
    ensures
        outcome_is(spec_set_gap(old(cfg)@, *v), r, old(cfg)@, final(cfg)@),
{
    match v {
        ScriptValue::Int(g) => {
            if *g < 0 {
                return Err(refuse("gap", Fault::Negative));
            }
            cfg.gap = clamp_i32(*g);
            Ok(Applied::Done)
        },
        _ => Err(refuse("gap", Fault::WantInteger)),
    }
}

fn set_first_split(cfg: &mut Config, v: &ScriptValue) -> (r: Result<Applied, SettingError>)
    ensures
        outcome_is(spec_set_first_split(old(cfg)@, *v), r, old(cfg)@, final(cfg)@),
{
    match v {
        ScriptValue::Str(s) => {
            let w = chars_of(s.as_str());
            if eq_lit(&w, "vertical") {
                cfg.first_split_vertical = true;
                Ok(Applied::Done)
            } else if eq_lit(&w, "horizontal") {
                cfg.first_split_vertical = false;
                Ok(Applied::Done)
            } else {
                Err(refuse_given("first_split", Fault::NotAChoice, s.as_str()))
            }
        },
        _ => Err(refuse("first_split", Fault::WantString)),
    }
}

fn set_wallpaper(cfg: &mut Config, v: &ScriptValue) -> (r: Result<Applied, SettingError>)
    ensures
        outcome_is(spec_set_wallpaper(old(cfg)@, *v), r, old(cfg)@, final(cfg)@),
{
    match v {
        ScriptValue::Nil => {
            cfg.wallpaper = None;
            Ok(Applied::Done)
        },
        ScriptValue::Str(s) => {
            cfg.wallpaper = Some(s.clone());
            Ok(Applied::Done)
        },
        _ => Err(refuse("wallpaper", Fault::WantString)),
    }
}

fn set_corner_radius(cfg: &mut Config, v: &ScriptValue) -> (r: Result<Applied, SettingError>)
    ensures
        outcome_is(spec_set_corner_radius(old(cfg)@, *v), r, old(cfg)@, final(cfg)@),
{
    match v {
        ScriptValue::Int(r) => {
            if *r < 0 || *r > 200 {
                return Err(refuse("corner_radius", Fault::OutOfRange));
            }
            cfg.corner_radius = *r as i32;
            Ok(Applied::Done)
        },
        _ => Err(refuse("corner_radius", Fault::WantInteger)),
    }
}

fn set_float_size(cfg: &mut Config, v: &ScriptValue) -> (r: Result<Applied, SettingError>)
    ensures
        outcome_is(spec_set_float_size(old(cfg)@, *v), r, old(cfg)@, final(cfg)@),
{
    match v {
        ScriptValue::Table(t) => {
            let w = match find_index(t, 1) {
                Some(ScriptValue::Int(w)) => *w,
                _ => return Err(refuse("float_size", Fault::WantPair)),
            };
            let h = match find_index(t, 2) {
                Some(ScriptValue::Int(h)) => *h,
                _ => return Err(refuse("float_size", Fault::WantPair)),
            };
            if w < 1 || w > 100 || h < 1 || h > 100 {
                return Err(refuse("float_size", Fault::OutOfRange));
            }
            cfg.float_size = (w as i32, h as i32);
            Ok(Applied::Done)
        },
        _ => Err(refuse("float_size", Fault::WantTable)),
    }
}

fn set_gesture_handle(cfg: &mut Config, v: &ScriptValue) -> (r: Result<Applied, SettingError>)
    ensures
        outcome_is(spec_set_gesture_handle(old(cfg)@, *v), r, old(cfg)@, final(cfg)@),
{
    match v {
        ScriptValue::Str(s) => {
            let w = chars_of(s.as_str());
            if eq_lit(&w, "visible") {
                cfg.gesture_handle_visible = true;
                Ok(Applied::Done)
            } else if eq_lit(&w, "hidden") {
                cfg.gesture_handle_visible = false;
                Ok(Applied::Done)
            } else {
                Err(refuse_given("gesture_handle", Fault::NotAChoice, s.as_str()))
            }
        },
        _ => Err(refuse("gesture_handle", Fault::WantString)),
    }
}

fn set_keyboard(cfg: &mut Config, v: &ScriptValue) -> (r: Result<Applied, SettingError>)
    ensures
        outcome_is(spec_set_keyboard(old(cfg)@, *v), r, old(cfg)@, final(cfg)@),
{
    match v {
        ScriptValue::Table(t) => match apply_keyboard(cfg, t) {
            Ok(()) => Ok(Applied::Done),
            Err(e) => Err(e),
        },
        _ => Err(refuse("keyboard", Fault::WantTable)),
    }
}

fn number_at(t: &Vec<(TableKey, ScriptValue)>, i: i64) -> (r: bool)
    ensures
        r == is_number(field_at(t@, i)),
{
    match find_index(t, i) {
        Some(ScriptValue::Int(_)) | Some(ScriptValue::Number) => true,
        _ => false,
    }
}

fn check_background(cfg: &mut Config, v: &ScriptValue) -> (r: Result<Applied, SettingError>)
    ensures
        outcome_is(spec_check_background(old(cfg)@, *v), r, old(cfg)@, final(cfg)@),
{
    match v {
        ScriptValue::Table(t) => if number_at(t, 1) && number_at(t, 2) && number_at(t, 3) {
            Ok(Applied::Float)
        } else {
            Err(refuse("background", Fault::WantTriple))
        },
        _ => Err(refuse("background", Fault::WantTable)),
    }
}

fn check_window_opacity(cfg: &mut Config, v: &ScriptValue) -> (r: Result<Applied, SettingError>)
    ensures
        outcome_is(spec_check_window_opacity(old(cfg)@, *v), r, old(cfg)@, final(cfg)@),
{
    match v {
        ScriptValue::Int(o) => if 0 <= *o && *o <= 1 {
            Ok(Applied::Float)
        } else {
            Err(refuse("window_opacity", Fault::OutOfRange))
        },
        ScriptValue::Number => Ok(Applied::Float),
        _ => Err(refuse("window_opacity", Fault::WantNumber)),
    }
}

/// `oxin.<name> = v`: apply the assignment to `cfg`, or refuse it and leave
/// `cfg` as it was. `mod_resolved` says whether a binding has already used
/// `MOD`; after that the primary modifier can no longer change.
pub fn apply(cfg: &mut Config, mod_resolved: bool, name: &str, v: &ScriptValue) -> (r: Result<Applied, SettingError>)
    ensures
        outcome_is(spec_apply(old(cfg)@, mod_resolved, name@, *v), r, old(cfg)@, final(cfg)@),
{
    let n = chars_of(name);
    if eq_lit(&n, "modifier") {
        set_modifier(cfg, mod_resolved, v)
    } else if eq_lit(&n, "gap") {
        set_gap(cfg, v)
    } else if eq_lit(&n, "first_split") {
        set_first_split(cfg, v)
    } else if eq_lit(&n, "background") {
        check_background(cfg, v)
    } else if eq_lit(&n, "window_opacity") {
        check_window_opacity(cfg, v)
    } else if eq_lit(&n, "wallpaper") {
        set_wallpaper(cfg, v)
    } else if eq_lit(&n, "corner_radius") {
        set_corner_radius(cfg, v)
    } else if eq_lit(&n, "float_size") {
        set_float_size(cfg, v)
    } else if eq_lit(&n, "gesture_handle") {
        set_gesture_handle(cfg, v)
    } else if eq_lit(&n, "keyboard") {
        set_keyboard(cfg, v)
    } else {
        Err(refuse(name, Fault::UnknownSetting))
    }
}

/// The name a script reads back for a modifier.
pub fn modifier_name(m: u32) -> (r: &'static str)
    ensures
        r@ == crate::names::spec_mod_name(m),
{
    mod_name(m)
}

/// The setting suggested for a mistyped name is a nearest one: no setting
/// is fewer edits away, and it is at most three edits away.
pub proof fn law_suggestion_is_nearest(name: Seq<char>)
    ensures
        suggestion(name) matches Some(s) ==> lev(s, name) <= 3 && exists|i: int|
            0 <= i < SETTING_COUNT && #[trigger] settings()[i] == s && forall|k: int|
                0 <= k < SETTING_COUNT ==> lev(s, name) <= lev(#[trigger] settings()[k], name),
        suggestion(name) is None ==> forall|k: int| 0 <= k < SETTING_COUNT ==> lev(#[trigger] settings()[k], name) > 3,
{
    lemma_best_upto(name, SETTING_COUNT as int);
    let b = best_upto(name, SETTING_COUNT as int);
    assert(settings()[b] == settings()[b]);
}

proof fn lemma_keyboard_keeps_bindings(c: ConfigV, t: Seq<(TableKey, ScriptValue)>)
    ensures
        keyboard_fold(c, t) matches Ok(c1) ==> c1 == (ConfigV {
            virtual_keyboard_show: c1.virtual_keyboard_show,
            virtual_keyboard_hide: c1.virtual_keyboard_hide,
            virtual_keyboard_height: c1.virtual_keyboard_height,
            ..c
        }),
    decreases t.len(),
{
    if t.len() > 0 {
        lemma_keyboard_keeps_bindings(c, t.drop_last());
    }
}

/// Settings never touch bindings: an accepted assignment leaves the key,
/// hold and gesture bindings as they were.
pub proof fn law_settings_leave_bindings_alone(c: ConfigV, mod_resolved: bool, name: Seq<char>, v: ScriptValue)
    ensures
        spec_apply(c, mod_resolved, name, v) matches Ok((c1, _)) ==> c1.binds == c.binds && c1.hold_binds
            == c.hold_binds && c1.gestures == c.gestures,
{
    if let ScriptValue::Table(t) = v {
        lemma_keyboard_keeps_bindings(c, t@);
    }
}

/// `c1` differs from `c` at most in the setting `name`.
pub open spec fn only_setting_changed(c: ConfigV, c1: ConfigV, name: Seq<char>) -> bool {
    &&& (name != "modifier"@ ==> c1.modifier == c.modifier)
    &&& (name != "gap"@ ==> c1.gap == c.gap)
    &&& (name != "first_split"@ ==> c1.first_split_vertical == c.first_split_vertical)
    &&& (name != "wallpaper"@ ==> c1.wallpaper == c.wallpaper)
    &&& (name != "corner_radius"@ ==> c1.corner_radius == c.corner_radius)
    &&& (name != "float_size"@ ==> c1.float_size == c.float_size)
    &&& (name != "gesture_handle"@ ==> c1.gesture_handle_visible == c.gesture_handle_visible)
    &&& (name != "keyboard"@ ==> c1.virtual_keyboard_show == c.virtual_keyboard_show
        && c1.virtual_keyboard_hide == c.virtual_keyboard_hide && c1.virtual_keyboard_height
        == c.virtual_keyboard_height)
    &&& c1.binds == c.binds
    &&& c1.hold_binds == c.hold_binds
    &&& c1.gestures == c.gestures
    &&& c1.exec_once == c.exec_once
    &&& c1.float_rules == c.float_rules
    &&& c1.monitors == c.monitors
}

/// An accepted assignment changes only the setting it names; every other
/// setting keeps its value, so a setting a script never mentions keeps its
/// default.
pub proof fn law_an_assignment_changes_only_its_setting(c: ConfigV, mod_resolved: bool, name: Seq<char>, v: ScriptValue)
    ensures
        spec_apply(c, mod_resolved, name, v) matches Ok((c1, _)) ==> only_setting_changed(c, c1, name),
{
    lemma_setting_words();
    if let ScriptValue::Table(t) = v {
        lemma_keyboard_keeps_bindings(c, t@);
    }
}

/// A name that is not a setting is refused, the configuration is left as
/// it was, and the refusal reads as the unknown-setting message: the
/// nearest setting when one is close enough, else the list of settings.
pub proof fn law_an_unknown_name_is_refused_with_its_message(
    c: ConfigV,
    mod_resolved: bool,
    name: Seq<char>,
    v: ScriptValue,
    quoted_name: Seq<char>,
)
    requires
        forall|i: int| 0 <= i < SETTING_COUNT ==> #[trigger] settings()[i] != name,
    ensures
        spec_apply(c, mod_resolved, name, v) == Err::<(ConfigV, Applied), Refusal>(
            (name, Fault::UnknownSetting, Seq::empty()),
        ),
        spec_setting_error_text(name, Fault::UnknownSetting, quoted_name, Seq::empty()) == spec_unknown_setting_text(
            quoted_name,
            name,
        ),
{
    let s = settings();
    assert(s[0] != name && s[1] != name && s[2] != name && s[3] != name && s[4] != name);
    assert(s[5] != name && s[6] != name && s[7] != name && s[8] != name && s[9] != name);
}

/// Once a chord has used `MOD`, the primary modifier can no longer be
/// assigned: whatever the value, the assignment is refused, so no binding
/// is silently moved to another modifier.
pub proof fn law_modifier_fixed_after_mod_chord(s: StagedV, spec: Seq<char>, v: ScriptValue)
    requires
        resolves_mod(spec, s.config.modifier),
    ensures
        spec_apply(after_chord(s, spec).config, after_chord(s, spec).mod_resolved, "modifier"@, v) is Err,
{
}

/// The text a script reads for `first_split`.
pub open spec fn split_word(vertical: bool) -> Seq<char> {
    if vertical {
        "vertical"@
    } else {
        "horizontal"@
    }
}

/// The text a script reads for `gesture_handle`.
pub open spec fn handle_word(visible: bool) -> Seq<char> {
    if visible {
        "visible"@
    } else {
        "hidden"@
    }
}

/// The setting names and the words they take, told apart by length and
/// first letter.
proof fn lemma_setting_words()
    ensures
        "modifier"@.len() == 8 && "modifier"@[0] == 'm',
        "gap"@.len() == 3,
        "first_split"@.len() == 11,
        "background"@.len() == 10 && "background"@[0] == 'b',
        "wallpaper"@.len() == 9,
        "window_opacity"@.len() == 14 && "window_opacity"@[0] == 'w',
        "corner_radius"@.len() == 13,
        "float_size"@.len() == 10 && "float_size"@[0] == 'f',
        "gesture_handle"@.len() == 14 && "gesture_handle"@[0] == 'g',
        "keyboard"@.len() == 8 && "keyboard"@[0] == 'k',
        "vertical"@.len() == 8,
        "horizontal"@.len() == 10,
        "visible"@.len() == 7,
        "hidden"@.len() == 6,
{
    reveal_strlit("modifier");
    reveal_strlit("gap");
    reveal_strlit("first_split");
    reveal_strlit("background");
    reveal_strlit("wallpaper");
    reveal_strlit("window_opacity");
    reveal_strlit("corner_radius");
    reveal_strlit("float_size");
    reveal_strlit("gesture_handle");
    reveal_strlit("keyboard");
    reveal_strlit("vertical");
    reveal_strlit("horizontal");
    reveal_strlit("visible");
    reveal_strlit("hidden");
}

/// What a script reads for the setting `name` before writing it, so that
/// `oxin.gap = oxin.gap + 10` works. `None` for the settings with
/// fractional values, which the shell seeds, and for names that are not
/// settings.
pub fn seed_value(cfg: &Config, name: &str) -> (r: Option<ScriptValue>)
    ensures
        name@ == "modifier"@ ==> (r matches Some(ScriptValue::Str(x)) && x@ == (if cfg.modifier == crate::config::MOD_ALT {
            "Alt"@
        } else if cfg.modifier == MOD_LOGO {
            "Super"@
        } else {
            "custom"@
        })),
        name@ == "gap"@ ==> r == Some(ScriptValue::Int(cfg.gap as i64)),
        name@ == "first_split"@ ==> (r matches Some(ScriptValue::Str(x)) && x@ == split_word(cfg.first_split_vertical)),
        name@ == "wallpaper"@ ==> (match cfg.wallpaper {
            Some(w) => r matches Some(ScriptValue::Str(x)) && x@ == w@,
            None => r == Some(ScriptValue::Nil),
        }),
        name@ == "corner_radius"@ ==> r == Some(ScriptValue::Int(cfg.corner_radius as i64)),
        name@ == "float_size"@ ==> (r matches Some(ScriptValue::Table(t)) && field_at(t@, 1) == ScriptValue::Int(
            cfg.float_size.0 as i64,
        ) && field_at(t@, 2) == ScriptValue::Int(cfg.float_size.1 as i64) && t@.len() == 2),
        name@ == "gesture_handle"@ ==> (r matches Some(ScriptValue::Str(x)) && x@ == handle_word(cfg.gesture_handle_visible)),
        name@ == "keyboard"@ ==> (r matches Some(ScriptValue::Table(t)) && field(t@, "height"@) == ScriptValue::Int(
            cfg.virtual_keyboard_height as i64,
        )),
        !(name@ == "modifier"@ || name@ == "gap"@ || name@ == "first_split"@ || name@ == "wallpaper"@ || name@
            == "corner_radius"@ || name@ == "float_size"@ || name@ == "gesture_handle"@ || name@ == "keyboard"@)
            ==> r is None,
{
    proof {
        reveal_strlit("vertical");
        reveal_strlit("horizontal");
        reveal_strlit("visible");
        reveal_strlit("hidden");
        reveal_strlit("height");
        reveal_strlit("show");
        reveal_strlit("hide");
    }
    proof {
        lemma_setting_words();
    }
    let n = chars_of(name);
    if eq_lit(&n, "modifier") {
        Some(ScriptValue::Str(modifier_name(cfg.modifier).to_owned()))
    } else if eq_lit(&n, "gap") {
        Some(ScriptValue::Int(cfg.gap as i64))
    } else if eq_lit(&n, "first_split") {
        let w = if cfg.first_split_vertical {
            "vertical"
        } else {
            "horizontal"
        };
        Some(ScriptValue::Str(w.to_owned()))
    } else if eq_lit(&n, "wallpaper") {
        match &cfg.wallpaper {
            Some(w) => Some(ScriptValue::Str(w.clone())),
            None => Some(ScriptValue::Nil),
        }
    } else if eq_lit(&n, "corner_radius") {
        Some(ScriptValue::Int(cfg.corner_radius as i64))
    } else if eq_lit(&n, "float_size") {
        let mut t: Vec<(TableKey, ScriptValue)> = Vec::new();
        t.push((TableKey::Index(1), ScriptValue::Int(cfg.float_size.0 as i64)));
        t.push((TableKey::Index(2), ScriptValue::Int(cfg.float_size.1 as i64)));
        proof {
            assert(t@[0].0 matches TableKey::Index(k) && k == 1);
            assert(field_at(t@, 1) == t@[0].1);
            assert(t@.skip(1)[0] == t@[1]);
            assert(field_at(t@.skip(1), 2) == t@[1].1);
            assert(field_at(t@, 2) == field_at(t@.skip(1), 2));
        }
        Some(ScriptValue::Table(t))
    } else if eq_lit(&n, "gesture_handle") {
        let w = if cfg.gesture_handle_visible {
            "visible"
        } else {
            "hidden"
        };
        Some(ScriptValue::Str(w.to_owned()))
    } else if eq_lit(&n, "keyboard") {
        let mut t: Vec<(TableKey, ScriptValue)> = Vec::new();
        t.push((TableKey::Name("height".to_owned()), ScriptValue::Int(cfg.virtual_keyboard_height as i64)));
        match &cfg.virtual_keyboard_show {
            Some(x) => t.push((TableKey::Name("show".to_owned()), ScriptValue::Str(x.clone()))),
            None => {},
        }
        match &cfg.virtual_keyboard_hide {
            Some(x) => t.push((TableKey::Name("hide".to_owned()), ScriptValue::Str(x.clone()))),
            None => {},
        }
        proof {
            assert(t@[0].0 matches TableKey::Name(k) && k@ == "height"@);
        }
        Some(ScriptValue::Table(t))
    } else {
        None
    }
}

/// Reading a setting and writing the value back changes nothing, for the
/// settings a script reads as a word or a whole number within range.
pub proof fn law_seed_roundtrip(c: ConfigV, mod_resolved: bool, x: String, n: i64)
    ensures
        x@ == split_word(c.first_split_vertical) ==> spec_apply(c, mod_resolved, "first_split"@, ScriptValue::Str(x))
            == Ok::<(ConfigV, Applied), Refusal>((c, Applied::Done)),
        x@ == handle_word(c.gesture_handle_visible) ==> spec_apply(c, mod_resolved, "gesture_handle"@, ScriptValue::Str(x))
            == Ok::<(ConfigV, Applied), Refusal>((c, Applied::Done)),
        n == c.gap && n >= 0 ==> spec_apply(c, mod_resolved, "gap"@, ScriptValue::Int(n)) == Ok::<
            (ConfigV, Applied),
            Refusal,
        >((c, Applied::Done)),
        n == c.corner_radius && 0 <= n <= 200 ==> spec_apply(c, mod_resolved, "corner_radius"@, ScriptValue::Int(n))
            == Ok::<(ConfigV, Applied), Refusal>((c, Applied::Done)),
        c.wallpaper == Some(x@) ==> spec_apply(c, mod_resolved, "wallpaper"@, ScriptValue::Str(x)) == Ok::<
            (ConfigV, Applied),
            Refusal,
        >((c, Applied::Done)),
{
    reveal_strlit("vertical");
    reveal_strlit("horizontal");
    reveal_strlit("visible");
    reveal_strlit("hidden");
    reveal_strlit("first_split");
    reveal_strlit("gesture_handle");
    reveal_strlit("gap");
    reveal_strlit("corner_radius");
    reveal_strlit("wallpaper");
    reveal_strlit("modifier");
    reveal_strlit("background");
    reveal_strlit("window_opacity");
    reveal_strlit("float_size");
    reveal_strlit("keyboard");
    lemma_setting_words();
    if x@ == split_word(c.first_split_vertical) {
        assert(ConfigV { first_split_vertical: c.first_split_vertical, ..c } == c);
    }
    if x@ == handle_word(c.gesture_handle_visible) {
        assert(ConfigV { gesture_handle_visible: c.gesture_handle_visible, ..c } == c);
    }
    if n == c.gap && n >= 0 {
        assert(ConfigV { gap: clamp_i32_spec(n), ..c } == c);
    }
    if n == c.corner_radius && 0 <= n <= 200 {
        assert(ConfigV { corner_radius: n as i32, ..c } == c);
    }
    if c.wallpaper == Some(x@) {
        assert(ConfigV { wallpaper: Some(x@), ..c } == c);
    }
}

} // verus!
