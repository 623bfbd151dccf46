//! The built-in keymap: always the starting point for a configuration's
//! binds, which override it chord by chord rather than replacing it.

use vstd::prelude::*;
use crate::config::{Action, ActionV, Bind, BindV, Direction, MOD_CTRL, MOD_SHIFT};
use crate::names::{key, Keysyms};
use crate::text::{chars_of, string_of};

verus! {

/// The views of a list of binds.
pub open spec fn binds_view(v: Seq<Bind>) -> Seq<BindV> {
    v.map_values(|b: Bind| b@)
}

/// The key name of workspace `i` (0-based): the digit `i + 1`.
pub open spec fn digit_name(i: int) -> Seq<char> {
    seq![(49 + i) as char]
}

/// The table knows every key name the built-in keymap uses.
pub open spec fn builtin_keys_known(keys: Map<Seq<char>, u32>) -> bool {
    &&& keys.contains_key("Return"@)
    &&& keys.contains_key("Q"@)
    &&& keys.contains_key("H"@)
    &&& keys.contains_key("J"@)
    &&& keys.contains_key("K"@)
    &&& keys.contains_key("L"@)
    &&& keys.contains_key("F"@)
    &&& keys.contains_key("V"@)
    &&& forall|i: int| 0 <= i < 9 ==> keys.contains_key(#[trigger] digit_name(i))
}

pub open spec fn bv(keys: Map<Seq<char>, u32>, mods: u32, name: Seq<char>, action: ActionV) -> BindV {
    BindV { mods, keysym: keys[name], action }
}

/// The fixed part of the keymap: launch, close, quit, and the directional
/// focus, move and resize chords, fullscreen and floating.
pub open spec fn fixed_binds(keys: Map<Seq<char>, u32>, m: u32) -> Seq<BindV> {
    let ms = m | MOD_SHIFT;
    let mc = m | MOD_CTRL;
    seq![
        bv(keys, m, "Return"@, ActionV::Spawn("kitty"@)),
        bv(keys, m, "Q"@, ActionV::Close),
        bv(keys, ms, "Q"@, ActionV::Quit),
        bv(keys, m, "H"@, ActionV::MoveFocus(Direction::Left)),
        bv(keys, m, "J"@, ActionV::MoveFocus(Direction::Down)),
        bv(keys, m, "K"@, ActionV::MoveFocus(Direction::Up)),
        bv(keys, m, "L"@, ActionV::MoveFocus(Direction::Right)),
        bv(keys, ms, "H"@, ActionV::MoveWindow(Direction::Left)),
        bv(keys, ms, "J"@, ActionV::MoveWindow(Direction::Down)),
        bv(keys, ms, "K"@, ActionV::MoveWindow(Direction::Up)),
        bv(keys, ms, "L"@, ActionV::MoveWindow(Direction::Right)),
        bv(keys, mc, "H"@, ActionV::ResizeWindow(Direction::Left)),
        bv(keys, mc, "J"@, ActionV::ResizeWindow(Direction::Down)),
        bv(keys, mc, "K"@, ActionV::ResizeWindow(Direction::Up)),
        bv(keys, mc, "L"@, ActionV::ResizeWindow(Direction::Right)),
        bv(keys, m, "F"@, ActionV::Fullscreen),
        bv(keys, m, "V"@, ActionV::ToggleFloating),
    ]
}

/// For each of the first `n` workspaces: `m`+digit switches to it and
/// `m`+Shift+digit sends the focused window there.
pub open spec fn workspace_binds(keys: Map<Seq<char>, u32>, m: u32, n: nat) -> Seq<BindV>
    decreases n,
{
    if n == 0 {
        Seq::empty()
    } else {
        let i = n - 1;
        workspace_binds(keys, m, (n - 1) as nat) + seq![
            bv(keys, m, digit_name(i), ActionV::Workspace(i as usize)),
            bv(keys, m | MOD_SHIFT, digit_name(i), ActionV::MoveToWorkspace(i as usize)),
        ]
    }
}

/// The whole built-in keymap for primary modifier `m`.
pub open spec fn spec_default_binds(keys: Map<Seq<char>, u32>, m: u32) -> Seq<BindV> {
    fixed_binds(keys, m) + workspace_binds(keys, m, 9)
}

fn push_bind(v: &mut Vec<Bind>, keys: &Keysyms, mods: u32, name: &str, action: Action)
    requires
        keys@.contains_key(name@),
    ensures
        binds_view(final(v)@) == binds_view(old(v)@).push(bv(keys@, mods, name@, action@)),
{
    let keysym = key(keys, name);
    v.push(Bind { mods, keysym, action });
    assert(binds_view(v@) =~= binds_view(old(v)@).push(bv(keys@, mods, name@, action@)));
}

/// The built-in keymap for primary modifier `modifier`, in its fixed order.
pub fn default_binds(modifier: u32, keys: &Keysyms) -> (r: Vec<Bind>)
    requires
        builtin_keys_known(keys@),
    ensures
        binds_view(r@) == spec_default_binds(keys@, modifier),
{
    let m = modifier;
    let ms = modifier | MOD_SHIFT;
    let mc = modifier | MOD_CTRL;
    let mut binds: Vec<Bind> = Vec::new();
    push_bind(&mut binds, keys, m, "Return", Action::Spawn(String::from_str("kitty")));
    push_bind(&mut binds, keys, m, "Q", Action::Close);
    push_bind(&mut binds, keys, ms, "Q", Action::Quit);
    push_bind(&mut binds, keys, m, "H", Action::MoveFocus(Direction::Left));
    push_bind(&mut binds, keys, m, "J", Action::MoveFocus(Direction::Down));
    push_bind(&mut binds, keys, m, "K", Action::MoveFocus(Direction::Up));
    push_bind(&mut binds, keys, m, "L", Action::MoveFocus(Direction::Right));
    push_bind(&mut binds, keys, ms, "H", Action::MoveWindow(Direction::Left));
    push_bind(&mut binds, keys, ms, "J", Action::MoveWindow(Direction::Down));
    push_bind(&mut binds, keys, ms, "K", Action::MoveWindow(Direction::Up));
    push_bind(&mut binds, keys, ms, "L", Action::MoveWindow(Direction::Right));
    push_bind(&mut binds, keys, mc, "H", Action::ResizeWindow(Direction::Left));
    push_bind(&mut binds, keys, mc, "J", Action::ResizeWindow(Direction::Down));
    push_bind(&mut binds, keys, mc, "K", Action::ResizeWindow(Direction::Up));
    push_bind(&mut binds, keys, mc, "L", Action::ResizeWindow(Direction::Right));
    push_bind(&mut binds, keys, m, "F", Action::Fullscreen);
    push_bind(&mut binds, keys, m, "V", Action::ToggleFloating);
    assert(binds_view(binds@) =~= fixed_binds(keys@, modifier));
    let mut i: usize = 0;
    while i < 9
        invariant
            i <= 9,
            builtin_keys_known(keys@),
            ms == m | MOD_SHIFT,
            m == modifier,
            binds_view(binds@) == fixed_binds(keys@, modifier) + workspace_binds(
                keys@,
                modifier,
                i as nat,
            ),
        decreases 9 - i,
    {
        let d: u8 = 49 + i as u8;
        let c = d as char;
        let mut name_chars: Vec<char> = Vec::new();
        name_chars.push(c);
        let name = string_of(&name_chars);
        proof {
            assert(name_chars@ =~= digit_name(i as int));
            assert(keys@.contains_key(digit_name(i as int)));
        }
        push_bind(&mut binds, keys, m, name.as_str(), Action::Workspace(i));
        push_bind(&mut binds, keys, ms, name.as_str(), Action::MoveToWorkspace(i));
        proof {
            let w = workspace_binds(keys@, modifier, (i + 1) as nat);
            assert(w == workspace_binds(keys@, modifier, i as nat) + seq![
                bv(keys@, m, digit_name(i as int), ActionV::Workspace(i)),
                bv(keys@, ms, digit_name(i as int), ActionV::MoveToWorkspace(i)),
            ]);
            assert(binds_view(binds@) =~= fixed_binds(keys@, modifier) + w);
        }
        i += 1;
    }
    binds
}

/// Whether the table knows a name.
fn knows(keys: &Keysyms, name: &str) -> (r: bool)
    ensures
        r == keys@.contains_key(name@),
{
    keys.lookup(&chars_of(name)).is_some()
}

/// Whether the table knows every key name the built-in keymap uses.
pub fn knows_builtin_keys(keys: &Keysyms) -> (r: bool)
    ensures
        r == builtin_keys_known(keys@),
{
    if !(knows(keys, "Return") && knows(keys, "Q") && knows(keys, "H") && knows(keys, "J") && knows(
        keys,
        "K",
    ) && knows(keys, "L") && knows(keys, "F") && knows(keys, "V")) {
        return false;
    }
    let mut i: usize = 0;
    while i < 9
        invariant
            i <= 9,
            forall|j: int| 0 <= j < i ==> keys@.contains_key(#[trigger] digit_name(j)),
        decreases 9 - i,
    {
        let d: u8 = 49 + i as u8;
        let mut name_chars: Vec<char> = Vec::new();
        name_chars.push(d as char);
        proof {
            assert(name_chars@ =~= digit_name(i as int));
        }
        if keys.lookup(&name_chars).is_none() {
            return false;
        }
        i += 1;
    }
    true
}

} // verus!
