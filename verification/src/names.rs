//! Resolving the names a configuration writes to what the compositor matches
//! on: modifier names, xkb key names, and the reverse mapping for reporting.

use vstd::prelude::*;
use crate::config::{MOD_ALT, MOD_CTRL, MOD_LOGO, MOD_SHIFT};
use crate::text::{chars_of, eq_lit, upper, upper_exec};

verus! {

/// The characters that separate modifier names: `+`, space and tab.
pub open spec fn is_mod_sep(c: char) -> bool {
    c == '+' || c == ' ' || c == '\t'
}

/// `str::split` on the modifier separators: every field, empty ones included.
pub open spec fn mod_fields(s: Seq<char>) -> Seq<Seq<char>>
    decreases s.len(),
{
    if s.len() == 0 {
        seq![Seq::empty()]
    } else {
        let f = mod_fields(s.drop_last());
        if is_mod_sep(s.last()) {
            f.push(Seq::empty())
        } else {
            f.update(f.len() - 1, f.last().push(s.last()))
        }
    }
}

proof fn lemma_mod_fields_nonempty(s: Seq<char>)
    ensures
        mod_fields(s).len() >= 1,
    decreases s.len(),
{
    if s.len() > 0 {
        lemma_mod_fields_nonempty(s.drop_last());
    }
}

/// `str::trim_start_matches('$')`: every leading `$` removed.
pub open spec fn trim_dollars(s: Seq<char>) -> Seq<char>
    decreases s.len(),
{
    if s.len() > 0 && s[0] == '$' {
        trim_dollars(s.drop_first())
    } else {
        s
    }
}

/// The bits one modifier name stands for; `MOD` and `MAINMOD` are `primary`.
pub open spec fn mod_token_bits(tok: Seq<char>, primary: u32) -> Option<u32> {
    let u = trim_dollars(upper(tok));
    if u == "MOD"@ || u == "MAINMOD"@ {
        Some(primary)
    } else if u == "SUPER"@ || u == "LOGO"@ || u == "WIN"@ {
        Some(MOD_LOGO)
    } else if u == "ALT"@ || u == "MOD1"@ {
        Some(MOD_ALT)
    } else if u == "SHIFT"@ {
        Some(MOD_SHIFT)
    } else if u == "CTRL"@ || u == "CONTROL"@ {
        Some(MOD_CTRL)
    } else {
        None
    }
}

/// The or of every non-empty field's bits, or `None` if one names no modifier.
pub open spec fn mods_of_fields(fs: Seq<Seq<char>>, primary: u32) -> Option<u32>
    decreases fs.len(),
{
    if fs.len() == 0 {
        Some(0)
    } else {
        match mods_of_fields(fs.drop_last(), primary) {
            None => None,
            Some(b) => if fs.last().len() == 0 {
                Some(b)
            } else {
                match mod_token_bits(fs.last(), primary) {
                    Some(x) => Some(b | x),
                    None => None,
                }
            },
        }
    }
}

/// A modifier spec like `SUPER SHIFT`, `super+shift`, `MOD` or `$mod`.
pub open spec fn spec_parse_mods(spec: Seq<char>, primary: u32) -> Option<u32> {
    mods_of_fields(mod_fields(spec), primary)
}

/// `s` with its leading `$` signs dropped.
fn trim_dollars_exec(s: &Vec<char>) -> (r: Vec<char>)
    ensures
        r@ == trim_dollars(s@),
{
    let mut k: usize = 0;
    assert(s@.skip(0) =~= s@);
    while k < s.len() && s[k] == '$'
        invariant
            k <= s.len(),
            trim_dollars(s@) == trim_dollars(s@.skip(k as int)),
        decreases s.len() - k,
    {
        proof {
            assert(s@.skip(k as int).drop_first() =~= s@.skip(k + 1));
        }
        k += 1;
    }
    let mut r: Vec<char> = Vec::new();
    let mut i = k;
    while i < s.len()
        invariant
            k <= i <= s.len(),
            r@ == s@.subrange(k as int, i as int),
        decreases s.len() - i,
    {
        r.push(s[i]);
        assert(r@ =~= s@.subrange(k as int, i + 1));
        i += 1;
    }
    proof {
        assert(r@ =~= s@.skip(k as int));
    }
    r
}

/// The bits of one modifier name.
pub fn mod_token(tok: &Vec<char>, primary: u32) -> (r: Option<u32>)
    ensures
        r == mod_token_bits(tok@, primary),
{
    let up = upper_exec(tok);
    let u = trim_dollars_exec(&up);
    if eq_lit(&u, "MOD") || eq_lit(&u, "MAINMOD") {
        Some(primary)
    } else if eq_lit(&u, "SUPER") || eq_lit(&u, "LOGO") || eq_lit(&u, "WIN") {
        Some(MOD_LOGO)
    } else if eq_lit(&u, "ALT") || eq_lit(&u, "MOD1") {
        Some(MOD_ALT)
    } else if eq_lit(&u, "SHIFT") {
        Some(MOD_SHIFT)
    } else if eq_lit(&u, "CTRL") || eq_lit(&u, "CONTROL") {
        Some(MOD_CTRL)
    } else {
        None
    }
}

/// Parse a modifier spec like `SUPER SHIFT`, `super+shift`, `MOD` or `$mod`
/// into modifier bits; `MOD`, `$mod` and `mainmod` stand for `primary`.
pub fn parse_mods(spec: &Vec<char>, primary: u32) -> (r: Option<u32>)
    ensures
        r == spec_parse_mods(spec@, primary),
{
    let mut ok = true;
    let mut bits: u32 = 0;
    let mut cur: Vec<char> = Vec::new();
    let mut i: usize = 0;
    proof {
        assert(spec@.take(0) =~= Seq::<char>::empty());
    }
    while i < spec.len()
        invariant
            i <= spec.len(),
            mod_fields(spec@.take(i as int)).len() >= 1,
            cur@ == mod_fields(spec@.take(i as int)).last(),
            mods_of_fields(mod_fields(spec@.take(i as int)).drop_last(), primary) == (if ok {
                Some(bits)
            } else {
                None::<u32>
            }),
        decreases spec.len() - i,
    {
        let c = spec[i];
        let ghost f = mod_fields(spec@.take(i as int));
        proof {
            assert(spec@.take(i + 1).drop_last() =~= spec@.take(i as int));
            assert(spec@.take(i + 1).last() == c);
        }
        if c == '+' || c == ' ' || c == '\t' {
            if ok && cur.len() > 0 {
                match mod_token(&cur, primary) {
                    Some(x) => {
                        bits = bits | x;
                    },
                    None => {
                        ok = false;
                    },
                }
            }
            cur = Vec::new();
            proof {
                let f2 = mod_fields(spec@.take(i + 1));
                assert(f2 == f.push(Seq::<char>::empty()));
                assert(f2.drop_last() =~= f);
                assert(f.drop_last() =~= f.take(f.len() - 1));
            }
        } else {
            cur.push(c);
            proof {
                let f2 = mod_fields(spec@.take(i + 1));
                assert(f2.drop_last() =~= f.drop_last());
            }
        }
        i += 1;
    }
    proof {
        assert(spec@.take(spec.len() as int) =~= spec@);
        lemma_mod_fields_nonempty(spec@);
    }
    if ok && cur.len() > 0 {
        match mod_token(&cur, primary) {
            Some(x) => Some(bits | x),
            None => None,
        }
    } else if ok {
        Some(bits)
    } else {
        None
    }
}

/// The name a modifier is reported by: `Alt`, `Super`, or `custom` for any
/// other set of bits.
pub open spec fn spec_mod_name(m: u32) -> Seq<char> {
    if m == MOD_ALT {
        "Alt"@
    } else if m == MOD_LOGO {
        "Super"@
    } else {
        "custom"@
    }
}

/// How a modifier is named back to the user: in a log line, and when a
/// config reads the modifier it never wrote.
pub fn mod_name(m: u32) -> (r: &'static str)
    ensures
        r@ == spec_mod_name(m),
{
    if m == MOD_ALT {
        "Alt"
    } else if m == MOD_LOGO {
        "Super"
    } else {
        "custom"
    }
}

proof fn lemma_one_word_fields(w: Seq<char>)
    requires
        forall|i: int| 0 <= i < w.len() ==> !is_mod_sep(#[trigger] w[i]),
    ensures
        mod_fields(w) == seq![w],
    decreases w.len(),
{
    if w.len() > 0 {
        lemma_one_word_fields(w.drop_last());
        assert(w.drop_last().push(w.last()) =~= w);
    } else {
        assert(w =~= Seq::<char>::empty());
    }
}

/// The names modifiers are reported by read back as the same modifiers:
/// `Alt` parses to Alt and `Super` to Super, whatever the primary
/// modifier is.
pub proof fn law_modifier_names_read_back(m: u32, primary: u32)
    requires
        m == MOD_ALT || m == MOD_LOGO,
    ensures
        spec_parse_mods(spec_mod_name(m), primary) == Some(m),
{
    reveal_strlit("Alt");
    reveal_strlit("Super");
    reveal_strlit("ALT");
    reveal_strlit("SUPER");
    reveal_strlit("MOD");
    reveal_strlit("MAINMOD");
    reveal_strlit("LOGO");
    reveal_strlit("WIN");
    reveal_strlit("MOD1");
    reveal_strlit("SHIFT");
    reveal_strlit("CTRL");
    reveal_strlit("CONTROL");
    let w = spec_mod_name(m);
    lemma_one_word_fields(w);
    let u = upper(w);
    if m == MOD_ALT {
        assert(u =~= "ALT"@);
        assert(u[0] != "MOD"@[0]);
        assert(u != "MOD"@);
        assert(u != "SUPER"@ && u != "LOGO"@ && u != "WIN"@ && u != "MAINMOD"@);
    } else {
        assert(u =~= "SUPER"@);
        assert(u != "MOD"@ && u != "MAINMOD"@);
    }
    assert(trim_dollars(u) == u);
    assert(mod_token_bits(w, primary) == Some(m));
    let fs = seq![w];
    assert(fs.drop_last() =~= Seq::<Seq<char>>::empty());
    assert(mods_of_fields(fs.drop_last(), primary) == Some(0u32));
    assert(fs.last() == w && w.len() > 0);
    assert(0u32 | m == m) by (bit_vector);
    assert(mods_of_fields(fs, primary) == Some(m));
    assert(mod_fields(w) == fs);
}

/// The keysyms every entry of `entries` gives its name; a later entry for
/// the same name wins.
pub open spec fn entries_map(entries: Seq<(Seq<char>, u32)>) -> Map<Seq<char>, u32>
    decreases entries.len(),
{
    if entries.len() == 0 {
        Map::empty()
    } else {
        entries_map(entries.drop_last()).insert(entries.last().0, entries.last().1)
    }
}

/// The names and keysyms of a list of entries.
pub open spec fn entries_view(v: Seq<(Vec<char>, u32)>) -> Seq<(Seq<char>, u32)> {
    v.map_values(|e: (Vec<char>, u32)| (e.0@, e.1))
}

/// Key names resolved to keysyms. xkb answers those questions in the shell,
/// which hands the answers over as a table; a name the table lacks is one xkb
/// does not know.
pub struct Keysyms {
    entries: Vec<(Vec<char>, u32)>,
}

impl View for Keysyms {
    type V = Map<Seq<char>, u32>;

    closed spec fn view(&self) -> Map<Seq<char>, u32> {
        entries_map(entries_view(self.entries@))
    }
}

/// The keysym a table gives a name, if it knows the name.
pub open spec fn spec_lookup(keys: Map<Seq<char>, u32>, name: Seq<char>) -> Option<u32> {
    if keys.contains_key(name) {
        Some(keys[name])
    } else {
        None
    }
}

impl Keysyms {
    /// A table that knows no names.
    pub fn new() -> (r: Keysyms)
        ensures
            r@ == Map::<Seq<char>, u32>::empty(),
    {
        let r = Keysyms { entries: Vec::new() };
        proof {
            assert(entries_view(r.entries@) =~= Seq::<(Seq<char>, u32)>::empty());
        }
        r
    }

    /// Record what xkb resolved `name` to.
    pub fn insert(&mut self, name: &str, sym: u32)
        ensures
            final(self)@ == old(self)@.insert(name@, sym),
    {
        let ghost old_entries = self.entries@;
        self.entries.push((chars_of(name), sym));
        proof {
            assert(entries_view(self.entries@).drop_last() =~= entries_view(old_entries));
        }
    }

    /// The keysym `name` resolves to, or `None` if xkb does not know it.
    pub fn lookup(&self, name: &Vec<char>) -> (r: Option<u32>)
        ensures
            r == spec_lookup(self@, name@),
    {
        let ghost all = entries_view(self.entries@);
        let mut i = self.entries.len();
        assert(all.skip(all.len() as int) =~= Seq::<(Seq<char>, u32)>::empty());
        while i > 0
            invariant
                i <= self.entries.len(),
                all == entries_view(self.entries@),
                !entries_map(all.skip(i as int)).contains_key(name@),
            decreases i,
        {
            let entry = &self.entries[i - 1];
            let hit = same_chars(&entry.0, name);
            proof {
                lemma_entries_split(all, (i - 1) as int);
                assert(all[i - 1] == (entry.0@, entry.1));
                lemma_entries_concat(all.take(i as int), all.skip(i as int));
                assert(all.take(i as int) + all.skip(i as int) =~= all);
            }
            if hit {
                return Some(entry.1);
            }
            i -= 1;
        }
        proof {
            lemma_entries_concat(all.take(0), all.skip(0));
            assert(all.take(0) + all.skip(0) =~= all);
            assert(all.take(0) =~= Seq::<(Seq<char>, u32)>::empty());
            assert(entries_map(all.take(0)) =~= Map::<Seq<char>, u32>::empty());
        }
        None
    }
}

/// The keysym of a name the table is known to have: the built-in keymap's
/// names, which xkb always resolves.
pub fn key(keys: &Keysyms, name: &str) -> (r: u32)
    requires
        keys@.contains_key(name@),
    ensures
        r == keys@[name@],
{
    match keys.lookup(&chars_of(name)) {
        Some(sym) => sym,
        None => 0,
    }
}

/// Whether two character sequences are the same.
pub fn same_chars(a: &Vec<char>, b: &Vec<char>) -> (r: bool)
    ensures
        r == (a@ == b@),
{
    if a.len() != b.len() {
        return false;
    }
    let mut j: usize = 0;
    while j < a.len()
        invariant
            j <= a.len(),
            a.len() == b.len(),
            forall|k: int| 0 <= k < j ==> a@[k] == b@[k],
        decreases a.len() - j,
    {
        if a[j] != b[j] {
            return false;
        }
        j += 1;
    }
    assert(a@ =~= b@);
    true
}

/// Splitting a table at `i`: the entries before it, then entry `i`, then
/// the rest, later ones winning.
proof fn lemma_entries_split(all: Seq<(Seq<char>, u32)>, i: int)
    requires
        0 <= i < all.len(),
    ensures
        entries_map(all.take(i + 1)) == entries_map(all.take(i)).insert(all[i].0, all[i].1),
        entries_map(all.skip(i)) == entries_map(seq![all[i]]).union_prefer_right(
            entries_map(all.skip(i + 1)),
        ),
        entries_map(seq![all[i]]) == Map::<Seq<char>, u32>::empty().insert(all[i].0, all[i].1),
{
    let one = seq![all[i]];
    assert(one.drop_last() =~= Seq::<(Seq<char>, u32)>::empty());
    assert(one.last() == all[i]);
    assert(entries_map(one.drop_last()) == Map::<Seq<char>, u32>::empty());
    assert(all.take(i + 1).drop_last() =~= all.take(i));
    lemma_entries_concat(seq![all[i]], all.skip(i + 1));
    assert(seq![all[i]] + all.skip(i + 1) =~= all.skip(i));
}

/// The table of a concatenation: the second part's entries win.
proof fn lemma_entries_concat(a: Seq<(Seq<char>, u32)>, b: Seq<(Seq<char>, u32)>)
    ensures
        entries_map(a + b) == entries_map(a).union_prefer_right(entries_map(b)),
    decreases b.len(),
{
    if b.len() == 0 {
        assert(a + b =~= a);
        assert(entries_map(a).union_prefer_right(Map::empty()) =~= entries_map(a));
    } else {
        lemma_entries_concat(a, b.drop_last());
        assert((a + b).drop_last() =~= a + b.drop_last());
        assert(entries_map(a + b) =~= entries_map(a).union_prefer_right(entries_map(b)));
    }
}

/// Two optional modifier sets together: both must be known.
pub open spec fn both_mods(a: Option<u32>, b: Option<u32>) -> Option<u32> {
    match (a, b) {
        (Some(x), Some(y)) => Some(x | y),
        _ => None,
    }
}

proof fn lemma_fields_concat(x: Seq<char>, y: Seq<char>)
    ensures
        mod_fields(x + seq!['+'] + y) == mod_fields(x) + mod_fields(y),
    decreases y.len(),
{
    let z = x + seq!['+'] + y;
    if y.len() == 0 {
        assert(z.drop_last() =~= x);
        assert(mod_fields(x) + mod_fields(y) =~= mod_fields(x).push(Seq::empty()));
    } else {
        let y0 = y.drop_last();
        lemma_fields_concat(x, y0);
        assert(z.drop_last() =~= x + seq!['+'] + y0);
        assert(z.last() == y.last());
        lemma_mod_fields_nonempty(y0);
        let fx = mod_fields(x);
        let fy0 = mod_fields(y0);
        if is_mod_sep(y.last()) {
            assert((fx + fy0).push(Seq::empty()) =~= fx + fy0.push(Seq::empty()));
        } else {
            let f = fx + fy0;
            assert(f.last() == fy0.last());
            assert(f.update(f.len() - 1, f.last().push(y.last())) =~= fx + fy0.update(
                fy0.len() - 1,
                fy0.last().push(y.last()),
            ));
        }
    }
}

proof fn lemma_mods_concat(f: Seq<Seq<char>>, g: Seq<Seq<char>>, primary: u32)
    ensures
        mods_of_fields(f + g, primary) == both_mods(mods_of_fields(f, primary), mods_of_fields(g, primary)),
    decreases g.len(),
{
    if g.len() == 0 {
        assert(f + g =~= f);
        if let Some(a) = mods_of_fields(f, primary) {
            assert(a | 0u32 == a) by (bit_vector);
        }
    } else {
        let g0 = g.drop_last();
        lemma_mods_concat(f, g0, primary);
        assert((f + g).drop_last() =~= f + g0);
        assert((f + g).last() == g.last());
        if let (Some(a), Some(b)) = (mods_of_fields(f, primary), mods_of_fields(g0, primary)) {
            if g.last().len() > 0 {
                if let Some(x) = mod_token_bits(g.last(), primary) {
                    assert((a | b) | x == a | (b | x)) by (bit_vector);
                }
            }
        }
    }
}

/// Modifier order does not matter: `A+B` names the same modifiers as
/// `B+A`, and either is refused exactly when the other is.
pub proof fn law_modifier_order_does_not_matter(a: Seq<char>, b: Seq<char>, primary: u32)
    ensures
        spec_parse_mods(a + seq!['+'] + b, primary) == spec_parse_mods(b + seq!['+'] + a, primary),
{
    lemma_fields_concat(a, b);
    lemma_fields_concat(b, a);
    lemma_mods_concat(mod_fields(a), mod_fields(b), primary);
    lemma_mods_concat(mod_fields(b), mod_fields(a), primary);
    if let (Some(x), Some(y)) = (spec_parse_mods(a, primary), spec_parse_mods(b, primary)) {
        assert(x | y == y | x) by (bit_vector);
    }
}

} // verus!
