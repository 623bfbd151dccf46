//! Which outputs are powered, for wlr-output-power-management (DPMS).
//!
//! An output nobody switched is on. A request for an output the compositor
//! does not know is refused and remembered nowhere; switching the hardware is
//! the shell's.

use vstd::prelude::*;
use crate::seqs::{first_where, is_first_where, lemma_first_where_is, lemma_first_where_none, lemma_first_where_some, lemma_none_first_means_none, upsert};
use crate::text::{chars_of};

verus! {

/// The entry is for the output named `name`.
pub open spec fn named(name: Seq<char>) -> spec_fn((Seq<char>, bool)) -> bool {
    |e: (Seq<char>, bool)| e.0 == name
}

/// Whether the output called `name` is on, by the first entry for it; on
/// when there is none.
pub open spec fn spec_is_on(entries: Seq<(Seq<char>, bool)>, name: Seq<char>) -> bool {
    match first_where(entries, named(name)) {
        Some(i) => entries[i].1,
        None => true,
    }
}

/// The power state each output was last switched to, by output name.
pub struct PowerTable {
    entries: Vec<(String, bool)>,
}

impl View for PowerTable {
    type V = Seq<(Seq<char>, bool)>;

    closed spec fn view(&self) -> Seq<(Seq<char>, bool)> {
        self.entries@.map_values(|e: (String, bool)| (e.0@, e.1))
    }
}

impl PowerTable {
    /// Nothing switched yet: every output is on.
    pub fn new() -> (r: PowerTable)
        ensures
            r@ == Seq::<(Seq<char>, bool)>::empty(),
    {
        let r = PowerTable { entries: Vec::new() };
        assert(r@ =~= Seq::<(Seq<char>, bool)>::empty());
        r
    }

    fn find(&self, name: &Vec<char>) -> (r: Option<usize>)
        ensures
            match r {
                Some(i) => first_where(self@, named(name@)) == Some(i as int) && i < self.entries.len(),
                None => first_where(self@, named(name@)) is None,
            },
    {
        let ghost v = self@;
        let mut i: usize = 0;
        while i < self.entries.len()
            invariant
                i <= self.entries.len(),
                v == self@,
                v.len() == self.entries.len(),
                forall|k: int| 0 <= k < i ==> !named(name@)(#[trigger] v[k]),
            decreases self.entries.len() - i,
        {
            let n = chars_of(self.entries[i].0.as_str());
            if crate::names::same_chars(&n, name) {
                proof {
                    assert(v[i as int] == (self.entries@[i as int].0@, self.entries@[i as int].1));
                    assert(is_first_where(v, named(name@), i as int));
                    lemma_first_where_is(v, named(name@), i as int);
                }
                return Some(i);
            }
            proof {
                assert(v[i as int] == (self.entries@[i as int].0@, self.entries@[i as int].1));
            }
            i += 1;
        }
        proof {
            lemma_first_where_none(v, named(name@));
        }
        None
    }

    /// Whether the output called `name` is on: the last switch said so, or
    /// it was never switched.
    pub fn is_on(&self, name: &str) -> (r: bool)
        ensures
            r == spec_is_on(self@, name@),
    {
        match self.find(&chars_of(name)) {
            Some(i) => self.entries[i].1,
            None => true,
        }
    }

    /// A `set_mode` request: for an output the compositor knows, record the
    /// switch and answer the mode now in force; for an unknown one, change
    /// nothing and answer `None` (the request fails).
    pub fn set_mode(&mut self, name: &str, on: bool, known: bool) -> (r: Option<bool>)
        ensures
            known ==> r == Some(on) && final(self)@ == upsert(old(self)@, named(name@), (name@, on)),
            !known ==> r is None && final(self)@ == old(self)@,
    {
        if !known {
            return None;
        }
        self.set_powered(name, on);
        Some(on)
    }

    /// Record that the output called `name` was switched on or off.
    pub fn set_powered(&mut self, name: &str, on: bool)
        ensures
            final(self)@ == upsert(old(self)@, named(name@), (name@, on)),
    {
        let ghost v = self@;
        match self.find(&chars_of(name)) {
            Some(i) => {
                self.entries.set(i, (name.to_owned(), on));
                assert(self@ =~= v.update(i as int, (name@, on)));
            },
            None => {
                self.entries.push((name.to_owned(), on));
                assert(self@ =~= v.push((name@, on)));
            },
        }
    }
}

/// A switch is what a later read sees: after switching `name`, it reads as
/// switched, and every other output reads as before.
pub proof fn law_read_after_switch(entries: Seq<(Seq<char>, bool)>, name: Seq<char>, on: bool, other: Seq<char>)
    ensures
        spec_is_on(upsert(entries, named(name), (name, on)), name) == on,
        other != name ==> spec_is_on(upsert(entries, named(name), (name, on)), other) == spec_is_on(entries, other),
{
    let p = named(name);
    let q = named(other);
    let r = upsert(entries, p, (name, on));
    match first_where(entries, p) {
        Some(i) => {
            lemma_first_where_some(entries, p);
            assert(is_first_where(r, p, i));
            lemma_first_where_is(r, p, i);
            if other != name {
                match first_where(entries, q) {
                    Some(j) => {
                        lemma_first_where_some(entries, q);
                        assert(j != i);
                        assert(is_first_where(r, q, j));
                        lemma_first_where_is(r, q, j);
                    },
                    None => {
                        assert forall|k: int| 0 <= k < r.len() implies !q(#[trigger] r[k]) by {
                            if k != i {
                                lemma_none_first_means_none(entries, q, k);
                            }
                        }
                        lemma_first_where_none(r, q);
                    },
                }
            }
        },
        None => {
            assert forall|k: int| 0 <= k < entries.len() implies !p(#[trigger] r[k]) by {
                lemma_none_first_means_none(entries, p, k);
            }
            assert(is_first_where(r, p, entries.len() as int));
            lemma_first_where_is(r, p, entries.len() as int);
            if other != name {
                match first_where(entries, q) {
                    Some(j) => {
                        lemma_first_where_some(entries, q);
                        assert(is_first_where(r, q, j));
                        lemma_first_where_is(r, q, j);
                    },
                    None => {
                        assert forall|k: int| 0 <= k < r.len() implies !q(#[trigger] r[k]) by {
                            if k < entries.len() {
                                lemma_none_first_means_none(entries, q, k);
                            }
                        }
                        lemma_first_where_none(r, q);
                    },
                }
            }
        },
    }
}

/// An output nobody switched is on.
pub proof fn law_unswitched_output_is_on(name: Seq<char>)
    ensures
        spec_is_on(Seq::<(Seq<char>, bool)>::empty(), name),
{
    lemma_first_where_none(Seq::<(Seq<char>, bool)>::empty(), named(name));
}

} // verus!
