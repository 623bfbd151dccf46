//! Line-level parsing shared by the configuration passes: lines, `key =
//! value` pairs, actions, directions, workspace numbers, sizes, positions and
//! gesture triggers.

use vstd::prelude::*;
use crate::config::{
    Action, ActionV, Direction, GestureBind, GestureBindV, GestureTrigger, MonitorPlace, MonitorPlaceV,
    MonitorScale,
};
use crate::text::{
    all_digits, eq_lit, is_digit, lower, lower_exec, parse_i32, parse_i32_exec, parse_uint,
    parse_uint_within, slice,
    split_once, split_once_exec, string_of, trim, trim_exec,
};

verus! {

/// `str::split('\n')`: every field, the empty ones included.
pub open spec fn nl_fields(s: Seq<char>) -> Seq<Seq<char>>
    decreases s.len(),
{
    if s.len() == 0 {
        seq![Seq::empty()]
    } else {
        let f = nl_fields(s.drop_last());
        if s.last() == '\n' {
            f.push(Seq::empty())
        } else {
            f.update(f.len() - 1, f.last().push(s.last()))
        }
    }
}

proof fn lemma_nl_fields_nonempty(s: Seq<char>)
    ensures
        nl_fields(s).len() >= 1,
    decreases s.len(),
{
    if s.len() > 0 {
        lemma_nl_fields_nonempty(s.drop_last());
    }
}

/// The lines of `text` as `str::lines` yields them, before trimming: a final
/// empty field (after a trailing newline, or of empty text) is no line. A
/// `\r` ending a line stays, which the trimming every caller does removes.
pub open spec fn text_lines(text: Seq<char>) -> Seq<Seq<char>> {
    let f = nl_fields(text);
    if f.last().len() == 0 {
        f.drop_last()
    } else {
        f
    }
}

/// A trimmed line the passes look at: neither empty nor a `#` comment.
pub open spec fn is_content(l: Seq<char>) -> bool {
    l.len() > 0 && l[0] != '#'
}

/// The lines of `text`.
pub fn split_lines(text: &Vec<char>) -> (r: Vec<Vec<char>>)
    ensures
        r@.map_values(|l: Vec<char>| l@) == text_lines(text@),
{
    let mut out: Vec<Vec<char>> = Vec::new();
    let mut cur: Vec<char> = Vec::new();
    let mut i: usize = 0;
    proof {
        assert(text@.take(0) =~= Seq::<char>::empty());
        assert(out@.map_values(|l: Vec<char>| l@) =~= nl_fields(text@.take(0)).drop_last());
    }
    while i < text.len()
        invariant
            i <= text.len(),
            nl_fields(text@.take(i as int)).len() >= 1,
            cur@ == nl_fields(text@.take(i as int)).last(),
            out@.map_values(|l: Vec<char>| l@) == nl_fields(text@.take(i as int)).drop_last(),
        decreases text.len() - i,
    {
        let c = text[i];
        let ghost f = nl_fields(text@.take(i as int));
        proof {
            assert(text@.take(i + 1).drop_last() =~= text@.take(i as int));
            assert(text@.take(i + 1).last() == c);
        }
        if c == '\n' {
            let ghost before = out@.map_values(|l: Vec<char>| l@);
            let done = cur;
            let ghost d = done@;
            out.push(done);
            cur = Vec::new();
            proof {
                let f2 = nl_fields(text@.take(i + 1));
                assert(f2 == f.push(Seq::<char>::empty()));
                assert(out@.map_values(|l: Vec<char>| l@) =~= before.push(d));
                assert(f.drop_last().push(f.last()) =~= f);
                assert(out@.map_values(|l: Vec<char>| l@) =~= f2.drop_last());
            }
        } else {
            cur.push(c);
            proof {
                let f2 = nl_fields(text@.take(i + 1));
                assert(f2.drop_last() =~= f.drop_last());
            }
        }
        i += 1;
    }
    proof {
        assert(text@.take(text.len() as int) =~= text@);
    }
    if cur.len() > 0 {
        let ghost before = out@.map_values(|l: Vec<char>| l@);
        out.push(cur);
        proof {
            let f = nl_fields(text@);
            assert(out@.map_values(|l: Vec<char>| l@) =~= before.push(f.last()));
            assert(f.drop_last().push(f.last()) =~= f);
        }
    }
    out
}

/// A `key = value` line: both sides of the first `=`, trimmed, and the key
/// in lower case, so `Gap = 4` sets `gap`.
pub open spec fn spec_split_kv(line: Seq<char>) -> Option<(Seq<char>, Seq<char>)> {
    match split_once(line, '=') {
        Some((k, v)) => Some((lower(trim(k)), trim(v))),
        None => None,
    }
}

/// Split a `key = value` line into its lowercased, trimmed key and its
/// trimmed value.
pub fn split_kv(line: &Vec<char>) -> (r: Option<(Vec<char>, Vec<char>)>)
    ensures
        match spec_split_kv(line@) {
            Some((k, v)) => r matches Some((x, y)) && x@ == k && y@ == v,
            None => r is None,
        },
{
    match split_once_exec(line, '=') {
        Some((k, v)) => Some((lower_exec(&trim_exec(&k)), trim_exec(&v))),
        None => None,
    }
}

/// A direction argument: `l`/`r`/`u`/`d` or the full words, any case.
pub open spec fn spec_direction(arg: Seq<char>) -> Option<Direction> {
    let a = lower(trim(arg));
    if a == "l"@ || a == "left"@ {
        Some(Direction::Left)
    } else if a == "r"@ || a == "right"@ {
        Some(Direction::Right)
    } else if a == "u"@ || a == "up"@ {
        Some(Direction::Up)
    } else if a == "d"@ || a == "down"@ {
        Some(Direction::Down)
    } else {
        None
    }
}

/// Parse a direction argument for directional focus, moves and resizes.
pub fn direction_from_arg(arg: &Vec<char>) -> (r: Option<Direction>)
    ensures
        r == spec_direction(arg@),
{
    let a = lower_exec(&trim_exec(arg));
    if eq_lit(&a, "l") || eq_lit(&a, "left") {
        Some(Direction::Left)
    } else if eq_lit(&a, "r") || eq_lit(&a, "right") {
        Some(Direction::Right)
    } else if eq_lit(&a, "u") || eq_lit(&a, "up") {
        Some(Direction::Up)
    } else if eq_lit(&a, "d") || eq_lit(&a, "down") {
        Some(Direction::Down)
    } else {
        None
    }
}

/// A 1-based workspace number (`1` to `9`) as a 0-based index.
pub open spec fn spec_workspace_index(arg: Seq<char>) -> Option<usize> {
    match parse_uint(trim(arg)) {
        Some(n) => if 1 <= n <= 9 {
            Some((n - 1) as usize)
        } else {
            None
        },
        None => None,
    }
}

/// Parse a 1-based workspace number to a 0-based index.
pub fn workspace_index(arg: &Vec<char>) -> (r: Option<usize>)
    ensures
        r == spec_workspace_index(arg@),
{
    let t = trim_exec(arg);
    let parsed = parse_uint_within(&t, 1000);
    match parsed {
        Some(n) => {
            assert(parse_uint(t@) == Some(n as int));
            if 1 <= n && n <= 9 {
                let w = (n - 1) as usize;
                assert(w == n - 1);
                Some(w)
            } else {
                None
            }
        },
        None => None,
    }
}

/// What an action name (any case) and its optional argument stand for.
pub open spec fn spec_parse_action(name: Seq<char>, arg: Option<Seq<char>>) -> Option<ActionV> {
    let n = lower(name);
    if n == "spawn"@ || n == "exec"@ {
        match arg {
            Some(a) => Some(ActionV::Spawn(a)),
            None => None,
        }
    } else if n == "close"@ || n == "killactive"@ {
        Some(ActionV::Close)
    } else if n == "quit"@ || n == "exit"@ {
        Some(ActionV::Quit)
    } else if n == "focusnext"@ {
        Some(ActionV::FocusNext)
    } else if n == "focusprev"@ {
        Some(ActionV::FocusPrev)
    } else if n == "movefocus"@ || n == "movewindow"@ || n == "resizewindow"@ {
        match arg {
            Some(a) => match spec_direction(a) {
                Some(d) => if n == "movefocus"@ {
                    Some(ActionV::MoveFocus(d))
                } else if n == "movewindow"@ {
                    Some(ActionV::MoveWindow(d))
                } else {
                    Some(ActionV::ResizeWindow(d))
                },
                None => None,
            },
            None => None,
        }
    } else if n == "fullscreen"@ || n == "togglefullscreen"@ {
        Some(ActionV::Fullscreen)
    } else if n == "solo"@ || n == "togglesolo"@ {
        Some(ActionV::ToggleSolo)
    } else if n == "float"@ || n == "togglefloating"@ {
        Some(ActionV::ToggleFloating)
    } else if n == "workspace"@ || n == "movetoworkspace"@ {
        match arg {
            Some(a) => match spec_workspace_index(a) {
                Some(w) => if n == "workspace"@ {
                    Some(ActionV::Workspace(w))
                } else {
                    Some(ActionV::MoveToWorkspace(w))
                },
                None => None,
            },
            None => None,
        }
    } else if n == "movetoworkspacenext"@ {
        Some(ActionV::MoveToWorkspaceNext)
    } else if n == "movetoworkspaceprev"@ || n == "movetoworkspaceprevious"@ {
        Some(ActionV::MoveToWorkspacePrevious)
    } else if n == "workspacenext"@ {
        Some(ActionV::WorkspaceNext)
    } else if n == "workspaceprev"@ || n == "workspaceprevious"@ {
        Some(ActionV::WorkspacePrevious)
    } else if n == "keyboardshow"@ {
        Some(ActionV::KeyboardShow)
    } else if n == "keyboardhide"@ {
        Some(ActionV::KeyboardHide)
    } else if n == "keyboardtoggle"@ {
        Some(ActionV::KeyboardToggle)
    } else {
        None
    }
}

/// The characters of an optional argument.
pub open spec fn opt_chars(o: Option<Vec<char>>) -> Option<Seq<char>> {
    match o {
        Some(v) => Some(v@),
        None => None,
    }
}

/// The meaning of an optional action.
pub open spec fn opt_action(o: Option<Action>) -> Option<ActionV> {
    match o {
        Some(a) => Some(a@),
        None => None,
    }
}

/// Parse an action name and its optional (already trimmed) argument.
pub fn parse_action(name: &Vec<char>, arg: &Option<Vec<char>>) -> (r: Option<Action>)
    ensures
        opt_action(r) == spec_parse_action(name@, opt_chars(*arg)),
{
    let n = lower_exec(name);
    if eq_lit(&n, "spawn") || eq_lit(&n, "exec") {
        match arg {
            Some(a) => Some(Action::Spawn(string_of(a))),
            None => None,
        }
    } else if eq_lit(&n, "close") || eq_lit(&n, "killactive") {
        Some(Action::Close)
    } else if eq_lit(&n, "quit") || eq_lit(&n, "exit") {
        Some(Action::Quit)
    } else if eq_lit(&n, "focusnext") {
        Some(Action::FocusNext)
    } else if eq_lit(&n, "focusprev") {
        Some(Action::FocusPrev)
    } else if eq_lit(&n, "movefocus") || eq_lit(&n, "movewindow") || eq_lit(&n, "resizewindow") {
        match arg {
            Some(a) => match direction_from_arg(a) {
                Some(d) => if eq_lit(&n, "movefocus") {
                    Some(Action::MoveFocus(d))
                } else if eq_lit(&n, "movewindow") {
                    Some(Action::MoveWindow(d))
                } else {
                    Some(Action::ResizeWindow(d))
                },
                None => None,
            },
            None => None,
        }
    } else if eq_lit(&n, "fullscreen") || eq_lit(&n, "togglefullscreen") {
        Some(Action::Fullscreen)
    } else if eq_lit(&n, "solo") || eq_lit(&n, "togglesolo") {
        Some(Action::ToggleSolo)
    } else if eq_lit(&n, "float") || eq_lit(&n, "togglefloating") {
        Some(Action::ToggleFloating)
    } else if eq_lit(&n, "workspace") || eq_lit(&n, "movetoworkspace") {
        match arg {
            Some(a) => match workspace_index(a) {
                Some(w) => if eq_lit(&n, "workspace") {
                    Some(Action::Workspace(w))
                } else {
                    Some(Action::MoveToWorkspace(w))
                },
                None => None,
            },
            None => None,
        }
    } else if eq_lit(&n, "movetoworkspacenext") {
        Some(Action::MoveToWorkspaceNext)
    } else if eq_lit(&n, "movetoworkspaceprev") || eq_lit(&n, "movetoworkspaceprevious") {
        Some(Action::MoveToWorkspacePrevious)
    } else if eq_lit(&n, "workspacenext") {
        Some(Action::WorkspaceNext)
    } else if eq_lit(&n, "workspaceprev") || eq_lit(&n, "workspaceprevious") {
        Some(Action::WorkspacePrevious)
    } else if eq_lit(&n, "keyboardshow") {
        Some(Action::KeyboardShow)
    } else if eq_lit(&n, "keyboardhide") {
        Some(Action::KeyboardHide)
    } else if eq_lit(&n, "keyboardtoggle") {
        Some(Action::KeyboardToggle)
    } else {
        None
    }
}

/// `str::trim_end_matches('%')`: every trailing `%` removed.
pub open spec fn trim_end_pct(s: Seq<char>) -> Seq<char>
    decreases s.len(),
{
    if s.len() > 0 && s.last() == '%' {
        trim_end_pct(s.drop_last())
    } else {
        s
    }
}

/// One side of a `float_size`: a percentage from 1 to 100, `%` optional.
pub open spec fn spec_percent(s: Seq<char>) -> Option<i32> {
    match parse_i32(trim(trim_end_pct(trim(s)))) {
        Some(n) => if 1 <= n <= 100 {
            Some(n)
        } else {
            None
        },
        None => None,
    }
}

fn percent(s: &Vec<char>) -> (r: Option<i32>)
    ensures
        r == spec_percent(s@),
{
    let t = trim_exec(s);
    let mut k = t.len();
    assert(t@.take(k as int) =~= t@);
    while k > 0 && t[k - 1] == '%'
        invariant
            k <= t.len(),
            trim_end_pct(t@) == trim_end_pct(t@.take(k as int)),
        decreases k,
    {
        proof {
            assert(t@.take(k as int).drop_last() =~= t@.take(k - 1));
        }
        k -= 1;
    }
    let u = slice(&t, 0, k);
    proof {
        assert(u@ =~= t@.take(k as int));
    }
    match parse_i32_exec(&trim_exec(&u)) {
        Some(n) => if 1 <= n && n <= 100 {
            Some(n)
        } else {
            None
        },
        None => None,
    }
}

/// `W x H` for `float_size`: two percentages from 1 to 100, each with an
/// optional `%`, split at the first `x`.
pub open spec fn spec_parse_float_size(spec: Seq<char>) -> Option<(i32, i32)> {
    match split_once(spec, 'x') {
        Some((ws, hs)) => match (spec_percent(ws), spec_percent(hs)) {
            (Some(w), Some(h)) => Some((w, h)),
            _ => None,
        },
        None => None,
    }
}

/// Parse `W x H` percentages for `float_size`.
pub fn parse_float_size(spec: &Vec<char>) -> (r: Option<(i32, i32)>)
    ensures
        r == spec_parse_float_size(spec@),
{
    match split_once_exec(spec, 'x') {
        Some((ws, hs)) => match (percent(&ws), percent(&hs)) {
            (Some(w), Some(h)) => Some((w, h)),
            _ => None,
        },
        None => None,
    }
}

/// `XxY` layout coordinates (e.g. `0x0`, `1920x-1080`), split at the first
/// `x`.
pub open spec fn spec_parse_xy(spec: Seq<char>) -> Option<(i32, i32)> {
    match split_once(spec, 'x') {
        Some((xs, ys)) => match (parse_i32(trim(xs)), parse_i32(trim(ys))) {
            (Some(x), Some(y)) => Some((x, y)),
            _ => None,
        },
        None => None,
    }
}

/// Parse `XxY` into layout coordinates.
pub fn parse_xy(spec: &Vec<char>) -> (r: Option<(i32, i32)>)
    ensures
        r == spec_parse_xy(spec@),
{
    match split_once_exec(spec, 'x') {
        Some((xs, ys)) => match (parse_i32_exec(&trim_exec(&xs)), parse_i32_exec(&trim_exec(&ys))) {
            (Some(x), Some(y)) => Some((x, y)),
            _ => None,
        },
        None => None,
    }
}

/// The largest number the digits of a decimal scale may make together (a
/// twentieth of `u64::MAX`).
pub const SCALE_DIGITS_MAX: u64 = 922337203685477580;

/// A decimal written as digits with at most one `.` (and an optional `+`):
/// its digits read as one whole number, and how many of them follow the
/// point. `2` is `(2, 0)`, `1.50` is `(150, 2)`.
pub open spec fn spec_decimal(s: Seq<char>) -> Option<(int, int)> {
    match split_once(s, '.') {
        None => match parse_uint(s) {
            Some(n) => Some((n, 0)),
            None => None,
        },
        Some((a, b)) => if parse_uint(a) is Some && b.len() > 0 && all_digits(b) {
            match parse_uint(a + b) {
                Some(n) => Some((n, b.len() as int)),
                None => None,
            }
        } else {
            None
        },
    }
}

/// The scale a `monitor =` line gives: 1 when it gives none; otherwise a
/// positive decimal.
pub open spec fn spec_monitor_scale(s: Option<Seq<char>>) -> Option<MonitorScale> {
    match s {
        None => Some(MonitorScale::Unset),
        Some(t) => match spec_decimal(trim(t)) {
            Some((m, p)) => if 0 < m <= SCALE_DIGITS_MAX && p <= u32::MAX {
                Some(MonitorScale::Decimal(m as u64, p as u32))
            } else {
                None
            },
            None => None,
        },
    }
}

/// A `monitor = NAME, XxY[, SCALE]` value: a non-empty connector name, the
/// output's position in the layout, and its scale.
pub open spec fn spec_parse_monitor(spec: Seq<char>) -> Option<MonitorPlaceV> {
    let (name, rest) = head_rest(spec, ',');
    match rest {
        None => None,
        Some(r) => {
            let (xy, scale) = head_rest(r, ',');
            match (spec_parse_xy(trim(xy)), spec_monitor_scale(scale)) {
                (Some((x, y)), Some(sc)) => if trim(name).len() > 0 {
                    Some(MonitorPlaceV { name: trim(name), x, y, scale: sc })
                } else {
                    None
                },
                _ => None,
            }
        },
    }
}

fn digits_only(b: &Vec<char>) -> (r: bool)
    ensures
        r == all_digits(b@),
{
    let mut k: usize = 0;
    while k < b.len()
        invariant
            k <= b.len(),
            forall|j: int| 0 <= j < k ==> is_digit(#[trigger] b@[j]),
        decreases b.len() - k,
    {
        let c = b[k];
        if !((c as u32) >= 48 && (c as u32) <= 57) {
            assert(!is_digit(b@[k as int]));
            return false;
        }
        k += 1;
    }
    true
}

fn parse_scale(s: &Option<Vec<char>>) -> (r: Option<MonitorScale>)
    ensures
        r == spec_monitor_scale(opt_chars(*s)),
{
    let t = match s {
        None => return Some(MonitorScale::Unset),
        Some(t) => trim_exec(t),
    };
    let (m, places) = match split_once_exec(&t, '.') {
        None => match parse_uint_within(&t, SCALE_DIGITS_MAX) {
            Some(n) => (n, 0usize),
            None => return None,
        },
        Some((a, b)) => {
            if a.len() == 0 || b.len() == 0 {
                return None;
            }
            if !digits_only(&b) {
                return None;
            }
            // `a` must read as a number on its own: `+` alone does not.
            if a.len() == 1 && a[0] == '+' {
                return None;
            }
            let mut ab = a.clone();
            let mut rest = b.clone();
            ab.append(&mut rest);
            proof {
                assert(all_digits(b@));
                assert(ab@ == a@ + b@);
                lemma_scale_head(a@, b@);
            }
            match parse_uint_within(&ab, SCALE_DIGITS_MAX) {
                Some(n) => (n, b.len()),
                None => return None,
            }
        },
    };
    if m == 0 || places > u32::MAX as usize {
        return None;
    }
    Some(MonitorScale::Decimal(m, places as u32))
}

/// With digits after the point, the part before it reads as a number
/// exactly when the two read together do.
proof fn lemma_scale_head(a: Seq<char>, b: Seq<char>)
    requires
        a.len() > 0,
        b.len() > 0,
        all_digits(b),
        !(a.len() == 1 && a[0] == '+'),
    ensures
        (parse_uint(a) is Some) == (parse_uint(a + b) is Some),
{
    let ab = a + b;
    if a[0] == '+' {
        assert(ab[0] == '+');
        assert(ab.drop_first() =~= a.drop_first() + b);
        assert(all_digits(a.drop_first()) ==> all_digits(ab.drop_first()));
        assert(all_digits(ab.drop_first()) ==> all_digits(a.drop_first())) by {
            if all_digits(ab.drop_first()) {
                assert forall|i: int| 0 <= i < a.drop_first().len() implies is_digit(#[trigger] a.drop_first()[i]) by {
                    assert(a.drop_first()[i] == ab.drop_first()[i]);
                }
            }
        }
    } else {
        assert(all_digits(a) ==> all_digits(ab));
        assert(all_digits(ab) ==> all_digits(a)) by {
            if all_digits(ab) {
                assert forall|i: int| 0 <= i < a.len() implies is_digit(#[trigger] a[i]) by {
                    assert(a[i] == ab[i]);
                }
            }
        }
        if all_digits(ab) {
            assert(is_digit(ab[0]));
        }
    }
}

/// Parse a `monitor =` value.
pub fn parse_monitor(spec: &Vec<char>) -> (r: Option<MonitorPlace>)
    ensures
        match spec_parse_monitor(spec@) {
            Some(m) => r matches Some(p) && p@ == m,
            None => r is None,
        },
{
    let (name, rest) = head_rest_exec(spec, ',');
    let rest = match rest {
        None => return None,
        Some(r) => r,
    };
    let (xy, scale) = head_rest_exec(&rest, ',');
    let (x, y) = match parse_xy(&trim_exec(&xy)) {
        Some(p) => p,
        None => return None,
    };
    let sc = match parse_scale(&scale) {
        Some(sc) => sc,
        None => return None,
    };
    let name = trim_exec(&name);
    if name.len() == 0 {
        return None;
    }
    Some(MonitorPlace { name: string_of(&name), x, y, scale: sc })
}

/// The trigger a gesture name (lower-cased) stands for, touchpad ones
/// included.
pub open spec fn trigger_named(n: Seq<char>) -> Option<GestureTrigger> {
    if n == "bottom-up"@ {
        Some(GestureTrigger::BottomUp)
    } else if n == "bottom-down"@ {
        Some(GestureTrigger::BottomDown)
    } else if n == "edge-left-in"@ {
        Some(GestureTrigger::EdgeLeftIn)
    } else if n == "edge-right-in"@ {
        Some(GestureTrigger::EdgeRightIn)
    } else if n == "edge-left-up"@ {
        Some(GestureTrigger::EdgeLeftUp)
    } else if n == "edge-left-down"@ {
        Some(GestureTrigger::EdgeLeftDown)
    } else if n == "edge-right-up"@ {
        Some(GestureTrigger::EdgeRightUp)
    } else if n == "edge-right-down"@ {
        Some(GestureTrigger::EdgeRightDown)
    } else if n == "top-right"@ {
        Some(GestureTrigger::TopRight)
    } else if n == "top-left"@ {
        Some(GestureTrigger::TopLeft)
    } else if n == "top-down"@ {
        Some(GestureTrigger::TopDown)
    } else if n == "to-top"@ {
        Some(GestureTrigger::ToTop)
    } else if n == "to-left"@ {
        Some(GestureTrigger::ToLeft)
    } else if n == "to-right"@ {
        Some(GestureTrigger::ToRight)
    } else if n == "two-up"@ {
        Some(GestureTrigger::TwoUp)
    } else if n == "two-down"@ {
        Some(GestureTrigger::TwoDown)
    } else if n == "two-left"@ {
        Some(GestureTrigger::TwoLeft)
    } else if n == "two-right"@ {
        Some(GestureTrigger::TwoRight)
    } else if n == "three-up"@ {
        Some(GestureTrigger::ThreeUp)
    } else if n == "three-down"@ {
        Some(GestureTrigger::ThreeDown)
    } else if n == "three-left"@ {
        Some(GestureTrigger::ThreeLeft)
    } else if n == "three-right"@ {
        Some(GestureTrigger::ThreeRight)
    } else if n == "double-tap"@ {
        Some(GestureTrigger::DoubleTap)
    } else if n == "pad-three-left"@ {
        Some(GestureTrigger::PadThreeLeft)
    } else if n == "pad-three-right"@ {
        Some(GestureTrigger::PadThreeRight)
    } else if n == "pad-three-up"@ {
        Some(GestureTrigger::PadThreeUp)
    } else if n == "pad-three-down"@ {
        Some(GestureTrigger::PadThreeDown)
    } else if n == "pad-pinch-in"@ {
        Some(GestureTrigger::PadPinchIn)
    } else if n == "pad-pinch-out"@ {
        Some(GestureTrigger::PadPinchOut)
    } else {
        None
    }
}

/// The touchpad triggers, which the touchscreen recognizer never reports.
pub open spec fn is_pad_trigger(t: GestureTrigger) -> bool {
    t == GestureTrigger::PadThreeLeft || t == GestureTrigger::PadThreeRight || t
        == GestureTrigger::PadThreeUp || t == GestureTrigger::PadThreeDown || t
        == GestureTrigger::PadPinchIn || t == GestureTrigger::PadPinchOut
}

/// The trigger a (lower-cased) gesture name stands for.
pub fn trigger_by_name(n: &Vec<char>) -> (r: Option<GestureTrigger>)
    ensures
        r == trigger_named(n@),
{
    if eq_lit(n, "bottom-up") {
        Some(GestureTrigger::BottomUp)
    } else if eq_lit(n, "bottom-down") {
        Some(GestureTrigger::BottomDown)
    } else if eq_lit(n, "edge-left-in") {
        Some(GestureTrigger::EdgeLeftIn)
    } else if eq_lit(n, "edge-right-in") {
        Some(GestureTrigger::EdgeRightIn)
    } else if eq_lit(n, "edge-left-up") {
        Some(GestureTrigger::EdgeLeftUp)
    } else if eq_lit(n, "edge-left-down") {
        Some(GestureTrigger::EdgeLeftDown)
    } else if eq_lit(n, "edge-right-up") {
        Some(GestureTrigger::EdgeRightUp)
    } else if eq_lit(n, "edge-right-down") {
        Some(GestureTrigger::EdgeRightDown)
    } else if eq_lit(n, "top-right") {
        Some(GestureTrigger::TopRight)
    } else if eq_lit(n, "top-left") {
        Some(GestureTrigger::TopLeft)
    } else if eq_lit(n, "top-down") {
        Some(GestureTrigger::TopDown)
    } else if eq_lit(n, "to-top") {
        Some(GestureTrigger::ToTop)
    } else if eq_lit(n, "to-left") {
        Some(GestureTrigger::ToLeft)
    } else if eq_lit(n, "to-right") {
        Some(GestureTrigger::ToRight)
    } else if eq_lit(n, "two-up") {
        Some(GestureTrigger::TwoUp)
    } else if eq_lit(n, "two-down") {
        Some(GestureTrigger::TwoDown)
    } else if eq_lit(n, "two-left") {
        Some(GestureTrigger::TwoLeft)
    } else if eq_lit(n, "two-right") {
        Some(GestureTrigger::TwoRight)
    } else if eq_lit(n, "three-up") {
        Some(GestureTrigger::ThreeUp)
    } else if eq_lit(n, "three-down") {
        Some(GestureTrigger::ThreeDown)
    } else if eq_lit(n, "three-left") {
        Some(GestureTrigger::ThreeLeft)
    } else if eq_lit(n, "three-right") {
        Some(GestureTrigger::ThreeRight)
    } else if eq_lit(n, "double-tap") {
        Some(GestureTrigger::DoubleTap)
    } else if eq_lit(n, "pad-three-left") {
        Some(GestureTrigger::PadThreeLeft)
    } else if eq_lit(n, "pad-three-right") {
        Some(GestureTrigger::PadThreeRight)
    } else if eq_lit(n, "pad-three-up") {
        Some(GestureTrigger::PadThreeUp)
    } else if eq_lit(n, "pad-three-down") {
        Some(GestureTrigger::PadThreeDown)
    } else if eq_lit(n, "pad-pinch-in") {
        Some(GestureTrigger::PadPinchIn)
    } else if eq_lit(n, "pad-pinch-out") {
        Some(GestureTrigger::PadPinchOut)
    } else {
        None
    }
}

/// `s.splitn(n, c)`'s first field and the rest, or the whole of `s` and
/// nothing when there is no `c`.
pub open spec fn head_rest(s: Seq<char>, c: char) -> (Seq<char>, Option<Seq<char>>) {
    match split_once(s, c) {
        Some((a, b)) => (a, Some(b)),
        None => (s, None),
    }
}

pub fn head_rest_exec(s: &Vec<char>, c: char) -> (r: (Vec<char>, Option<Vec<char>>))
    ensures
        r.0@ == head_rest(s@, c).0,
        opt_chars(r.1) == head_rest(s@, c).1,
{
    match split_once_exec(s, c) {
        Some((a, b)) => (a, Some(b)),
        None => (slice(s, 0, s.len()), None),
    }
}

/// A config `gesture = TRIGGER, ACTION[, ARG]` value: a touchscreen trigger
/// name (any case), then the action and the rest as its argument.
pub open spec fn spec_parse_gesture(val: Seq<char>) -> Option<GestureBindV> {
    let (t, rest) = head_rest(val, ',');
    match trigger_named(lower(trim(t))) {
        Some(trigger) => if is_pad_trigger(trigger) {
            None
        } else {
            match rest {
                Some(r) => {
                    let (name, arg) = head_rest(r, ',');
                    let arg = match arg {
                        Some(a) => Some(trim(a)),
                        None => None,
                    };
                    match spec_parse_action(trim(name), arg) {
                        Some(action) => Some(GestureBindV { trigger, action }),
                        None => None,
                    }
                },
                None => None,
            }
        },
        None => None,
    }
}

/// The meaning of an optional gesture binding.
pub open spec fn opt_gesture(o: Option<GestureBind>) -> Option<GestureBindV> {
    match o {
        Some(g) => Some(g@),
        None => None,
    }
}

/// A trimmed optional argument.
fn trim_opt(o: &Option<Vec<char>>) -> (r: Option<Vec<char>>)
    ensures
        opt_chars(r) == (match opt_chars(*o) {
            Some(a) => Some(trim(a)),
            None => None,
        }),
{
    match o {
        Some(a) => Some(trim_exec(a)),
        None => None,
    }
}

/// Parse a `gesture =` value.
pub fn parse_gesture(val: &Vec<char>) -> (r: Option<GestureBind>)
    ensures
        opt_gesture(r) == spec_parse_gesture(val@),
{
    let (t, rest) = head_rest_exec(val, ',');
    let name = lower_exec(&trim_exec(&t));
    let trigger = match trigger_by_name(&name) {
        Some(tr) => tr,
        None => return None,
    };
    match trigger {
        GestureTrigger::PadThreeLeft | GestureTrigger::PadThreeRight | GestureTrigger::PadThreeUp
        | GestureTrigger::PadThreeDown | GestureTrigger::PadPinchIn | GestureTrigger::PadPinchOut => {
            return None;
        },
        _ => {},
    }
    let r = match rest {
        Some(r) => r,
        None => return None,
    };
    let (action_name, arg) = head_rest_exec(&r, ',');
    let arg = trim_opt(&arg);
    match parse_action(&trim_exec(&action_name), &arg) {
        Some(action) => Some(GestureBind { trigger, action }),
        None => None,
    }
}

/// The lines the passes look at, each with its 1-based number: trimmed,
/// and neither empty nor a `#` comment.
pub open spec fn content_lines(ls: Seq<Seq<char>>) -> Seq<(int, Seq<char>)>
    decreases ls.len(),
{
    if ls.len() == 0 {
        Seq::empty()
    } else {
        content_lines(ls.drop_last()) + if is_content(trim(ls.last())) {
            seq![(ls.len() as int, trim(ls.last()))]
        } else {
            Seq::<(int, Seq<char>)>::empty()
        }
    }
}

/// The numbered content lines of `text`.
pub fn lines(text: &str) -> (r: Vec<(usize, String)>)
    ensures
        r@.map_values(|e: (usize, String)| (e.0 as int, e.1@)) == content_lines(text_lines(text@)),
{
    let all = split_lines(&crate::text::chars_of(text));
    let ghost ls = text_lines(text@);
    let mut out: Vec<(usize, String)> = Vec::new();
    let mut k: usize = 0;
    proof {
        assert(ls.take(0) =~= Seq::<Seq<char>>::empty());
        assert(out@.map_values(|e: (usize, String)| (e.0 as int, e.1@)) =~= Seq::<(int, Seq<char>)>::empty());
    }
    while k < all.len()
        invariant
            k <= all.len(),
            ls == text_lines(text@),
            all@.map_values(|l: Vec<char>| l@) == ls,
            out@.map_values(|e: (usize, String)| (e.0 as int, e.1@)) == content_lines(ls.take(k as int)),
        decreases all.len() - k,
    {
        let l = trim_exec(&all[k]);
        proof {
            assert(ls[k as int] == all@[k as int]@);
            assert(ls.take(k + 1).drop_last() =~= ls.take(k as int));
            assert(ls.take(k + 1).last() == ls[k as int]);
        }
        let ghost before = out@.map_values(|e: (usize, String)| (e.0 as int, e.1@));
        if l.len() > 0 && l[0] != '#' {
            let ghost lv = l@;
            out.push((k + 1, string_of(&l)));
            assert(out@.map_values(|e: (usize, String)| (e.0 as int, e.1@)) =~= before.push(((k + 1) as int, lv)));
        }
        proof {
            assert(out@.map_values(|e: (usize, String)| (e.0 as int, e.1@)) =~= content_lines(ls.take(k + 1)));
        }
        k += 1;
    }
    proof {
        assert(ls.take(all.len() as int) =~= ls);
    }
    out
}

} // verus!
