//! Names in alphabetical order: character by character, by code point,
//! which is also the byte order of their UTF-8 form.

use vstd::prelude::*;

verus! {

/// `a` sorts strictly before `b`.
pub open spec fn lex_lt(a: Seq<char>, b: Seq<char>) -> bool
    decreases a.len(),
{
    if a.len() == 0 {
        b.len() > 0
    } else if b.len() == 0 {
        false
    } else if a[0] < b[0] {
        true
    } else if a[0] > b[0] {
        false
    } else {
        lex_lt(a.skip(1), b.skip(1))
    }
}

/// `x` placed before the first element it sorts before.
pub open spec fn insert_sorted(x: Seq<char>, s: Seq<Seq<char>>) -> Seq<Seq<char>>
    decreases s.len(),
{
    if s.len() == 0 {
        seq![x]
    } else if lex_lt(x, s[0]) {
        seq![x] + s
    } else {
        seq![s[0]] + insert_sorted(x, s.skip(1))
    }
}

/// `s` in alphabetical order, by insertion.
pub open spec fn sort_names(s: Seq<Seq<char>>) -> Seq<Seq<char>>
    decreases s.len(),
{
    if s.len() == 0 {
        Seq::empty()
    } else {
        insert_sorted(s.last(), sort_names(s.drop_last()))
    }
}

/// Whether `a` sorts strictly before `b`.
pub fn lex_lt_exec(a: &Vec<char>, b: &Vec<char>) -> (r: bool)
    ensures
        r == lex_lt(a@, b@),
{
    let mut i: usize = 0;
    assert(a@.skip(0) =~= a@);
    assert(b@.skip(0) =~= b@);
    while i < a.len() && i < b.len()
        invariant
            i <= a.len(),
            i <= b.len(),
            lex_lt(a@, b@) == lex_lt(a@.skip(i as int), b@.skip(i as int)),
        decreases a.len() - i,
    {
        proof {
            assert(a@.skip(i as int)[0] == a@[i as int]);
            assert(b@.skip(i as int)[0] == b@[i as int]);
            assert(a@.skip(i as int).skip(1) =~= a@.skip(i + 1));
            assert(b@.skip(i as int).skip(1) =~= b@.skip(i + 1));
        }
        if a[i] < b[i] {
            return true;
        }
        if a[i] > b[i] {
            return false;
        }
        i += 1;
    }
    i == a.len() && i < b.len()
}

proof fn lemma_insert_at(x: Seq<char>, s: Seq<Seq<char>>, k: int)
    requires
        0 <= k <= s.len(),
        forall|j: int| 0 <= j < k ==> !lex_lt(x, #[trigger] s[j]),
        k == s.len() || lex_lt(x, s[k]),
    ensures
        insert_sorted(x, s) == s.take(k) + seq![x] + s.skip(k),
    decreases s.len(),
{
    if s.len() == 0 {
        assert(s.take(k) + seq![x] + s.skip(k) =~= seq![x]);
    } else if k == 0 {
        assert(s.take(0) + seq![x] + s.skip(0) =~= seq![x] + s);
    } else {
        let t = s.skip(1);
        assert forall|j: int| 0 <= j < k - 1 implies !lex_lt(x, #[trigger] t[j]) by {
            assert(t[j] == s[j + 1]);
        }
        if k < s.len() {
            assert(t[k - 1] == s[k]);
        }
        lemma_insert_at(x, t, k - 1);
        assert(seq![s[0]] + (t.take(k - 1) + seq![x] + t.skip(k - 1)) =~= s.take(k) + seq![x] + s.skip(k));
    }
}

/// Put `x` into the already ordered `v` where [`insert_sorted`] puts it.
fn insert_name(v: &mut Vec<Vec<char>>, x: Vec<char>)
    ensures
        final(v)@.map_values(|n: Vec<char>| n@) == insert_sorted(x@, old(v)@.map_values(|n: Vec<char>| n@)),
{
    let ghost s = v@.map_values(|n: Vec<char>| n@);
    let mut k: usize = 0;
    let mut found = false;
    while k < v.len() && !found
        invariant
            k <= v.len(),
            s == v@.map_values(|n: Vec<char>| n@),
            v@ == old(v)@,
            forall|j: int| 0 <= j < k ==> !lex_lt(x@, #[trigger] s[j]),
            found ==> k < v.len() && lex_lt(x@, s[k as int]),
        decreases v.len() - k + (if found { 0int } else { 1int }),
    {
        if lex_lt_exec(&x, &v[k]) {
            found = true;
        } else {
            k += 1;
        }
    }
    proof {
        if k < v.len() {
            assert(s[k as int] == v@[k as int]@);
        }
        lemma_insert_at(x@, s, k as int);
    }
    let ghost xv = x@;
    v.insert(k, x);
    proof {
        assert(v@.map_values(|n: Vec<char>| n@) =~= s.take(k as int) + seq![xv] + s.skip(k as int));
    }
}

/// `names` in alphabetical order.
pub fn sorted_names(names: &Vec<Vec<char>>) -> (r: Vec<Vec<char>>)
    ensures
        r@.map_values(|n: Vec<char>| n@) == sort_names(names@.map_values(|n: Vec<char>| n@)),
{
    let ghost s = names@.map_values(|n: Vec<char>| n@);
    let mut r: Vec<Vec<char>> = Vec::new();
    let mut i: usize = 0;
    proof {
        assert(s.take(0) =~= Seq::<Seq<char>>::empty());
        assert(r@.map_values(|n: Vec<char>| n@) =~= Seq::<Seq<char>>::empty());
    }
    while i < names.len()
        invariant
            i <= names.len(),
            s == names@.map_values(|n: Vec<char>| n@),
            r@.map_values(|n: Vec<char>| n@) == sort_names(s.take(i as int)),
        decreases names.len() - i,
    {
        proof {
            assert(s.take(i + 1).drop_last() =~= s.take(i as int));
            assert(s.take(i + 1).last() == names@[i as int]@);
        }
        let x = copy_chars(&names[i]);
        insert_name(&mut r, x);
        i += 1;
    }
    proof {
        assert(s.take(names.len() as int) =~= s);
    }
    r
}

/// A copy of `v`.
pub fn copy_chars(v: &Vec<char>) -> (r: Vec<char>)
    ensures
        r@ == v@,
{
    let mut r: Vec<char> = Vec::new();
    let mut i: usize = 0;
    while i < v.len()
        invariant
            i <= v.len(),
            r@ == v@.take(i as int),
        decreases v.len() - i,
    {
        r.push(v[i]);
        assert(r@ =~= v@.take(i + 1));
        i += 1;
    }
    assert(v@.take(v.len() as int) =~= v@);
    r
}

/// No element sorts before an earlier one.
pub open spec fn is_sorted(s: Seq<Seq<char>>) -> bool {
    forall|i: int, j: int| 0 <= i < j < s.len() ==> !lex_lt(#[trigger] s[j], #[trigger] s[i])
}

pub proof fn lemma_lex_asym(a: Seq<char>, b: Seq<char>)
    ensures
        !(lex_lt(a, b) && lex_lt(b, a)),
    decreases a.len(),
{
    if a.len() > 0 && b.len() > 0 && a[0] == b[0] {
        lemma_lex_asym(a.skip(1), b.skip(1));
    }
}

pub proof fn lemma_lex_total(a: Seq<char>, b: Seq<char>)
    ensures
        lex_lt(a, b) || lex_lt(b, a) || a == b,
    decreases a.len(),
{
    if a.len() == 0 && b.len() == 0 {
        assert(a =~= b);
    } else if a.len() > 0 && b.len() > 0 && a[0] == b[0] {
        lemma_lex_total(a.skip(1), b.skip(1));
        if a.skip(1) == b.skip(1) {
            assert(a[0] == b[0]);
            assert(a =~= seq![a[0]] + a.skip(1));
            assert(b =~= seq![b[0]] + b.skip(1));
        }
    }
}

pub proof fn lemma_lex_trans(a: Seq<char>, b: Seq<char>, c: Seq<char>)
    requires
        lex_lt(a, b),
        lex_lt(b, c),
    ensures
        lex_lt(a, c),
    decreases a.len(),
{
    if a.len() > 0 && b.len() > 0 && c.len() > 0 && a[0] == b[0] && b[0] == c[0] {
        lemma_lex_trans(a.skip(1), b.skip(1), c.skip(1));
    }
}

/// Every element of `insert_sorted(x, s)` is `x` or an element of `s`.
pub proof fn lemma_insert_elements(x: Seq<char>, s: Seq<Seq<char>>)
    ensures
        insert_sorted(x, s).len() == s.len() + 1,
        forall|k: int| 0 <= k < s.len() + 1 ==> #[trigger] insert_sorted(x, s)[k] == x || s.contains(insert_sorted(x, s)[k]),
    decreases s.len(),
{
    if s.len() > 0 && !lex_lt(x, s[0]) {
        let t = s.skip(1);
        lemma_insert_elements(x, t);
        assert forall|k: int| 0 <= k < s.len() + 1 implies #[trigger] insert_sorted(x, s)[k] == x || s.contains(insert_sorted(x, s)[k]) by {
            if k == 0 {
                assert(s.contains(s[0]));
            } else {
                let e = insert_sorted(x, t)[k - 1];
                assert(insert_sorted(x, s)[k] == e);
                if e != x {
                    let m = choose|m: int| 0 <= m < t.len() && t[m] == e;
                    assert(s[m + 1] == e);
                }
            }
        }
    } else if s.len() > 0 {
        assert forall|k: int| 0 <= k < s.len() + 1 implies #[trigger] insert_sorted(x, s)[k] == x || s.contains(insert_sorted(x, s)[k]) by {
            if k > 0 {
                assert(insert_sorted(x, s)[k] == s[k - 1]);
            }
        }
    }
}

pub proof fn lemma_insert_sorted(x: Seq<char>, s: Seq<Seq<char>>)
    requires
        is_sorted(s),
    ensures
        is_sorted(insert_sorted(x, s)),
    decreases s.len(),
{
    if s.len() == 0 {
    } else if lex_lt(x, s[0]) {
        let r = insert_sorted(x, s);
        assert forall|i: int, j: int| 0 <= i < j < r.len() implies !lex_lt(#[trigger] r[j], #[trigger] r[i]) by {
            if i == 0 {
                // r[j] is s[j - 1], which does not sort before s[0], which x sorts before
                let e = s[j - 1];
                lemma_lex_total(s[0], e);
                if lex_lt(s[0], e) {
                    lemma_lex_trans(x, s[0], e);
                }
                lemma_lex_asym(x, e);
            } else {
                assert(r[i] == s[i - 1] && r[j] == s[j - 1]);
            }
        }
    } else {
        let t = s.skip(1);
        assert forall|i: int, j: int| 0 <= i < j < t.len() implies !lex_lt(#[trigger] t[j], #[trigger] t[i]) by {
            assert(t[i] == s[i + 1] && t[j] == s[j + 1]);
        }
        lemma_insert_sorted(x, t);
        lemma_insert_elements(x, t);
        let r = insert_sorted(x, s);
        let u = insert_sorted(x, t);
        assert forall|i: int, j: int| 0 <= i < j < r.len() implies !lex_lt(#[trigger] r[j], #[trigger] r[i]) by {
            if i == 0 {
                let e = u[j - 1];
                assert(r[j] == e);
                if e == x {
                } else {
                    let m = choose|m: int| 0 <= m < t.len() && t[m] == e;
                    assert(s[m + 1] == e);
                    assert(!lex_lt(s[m + 1], s[0]));
                }
            } else {
                assert(r[i] == u[i - 1] && r[j] == u[j - 1]);
            }
        }
    }
}

/// Names come out in alphabetical order: no name sorts before an earlier
/// one.
pub proof fn law_sort_names_is_sorted(s: Seq<Seq<char>>)
    ensures
        is_sorted(sort_names(s)),
    decreases s.len(),
{
    if s.len() > 0 {
        law_sort_names_is_sorted(s.drop_last());
        lemma_insert_sorted(s.last(), sort_names(s.drop_last()));
    }
}

/// Inserting `x` adds exactly `x` to the names.
proof fn lemma_insert_multiset(x: Seq<char>, s: Seq<Seq<char>>)
    ensures
        insert_sorted(x, s).to_multiset() =~= s.to_multiset().insert(x),
    decreases s.len(),
{
    broadcast use vstd::seq_lib::group_to_multiset_ensures;
    broadcast use vstd::multiset::group_multiset_axioms;

    if s.len() == 0 {
        assert(seq![x] =~= Seq::<Seq<char>>::empty().push(x));
        vstd::seq_lib::to_multiset_build(Seq::<Seq<char>>::empty(), x);
        assert(s =~= Seq::<Seq<char>>::empty());
    } else if lex_lt(x, s[0]) {
        assert(seq![x] + s =~= s.insert(0, x));
        vstd::seq_lib::to_multiset_insert(s, 0, x);
    } else {
        let t = s.skip(1);
        lemma_insert_multiset(x, t);
        let u = insert_sorted(x, t);
        assert(seq![s[0]] + u =~= u.insert(0, s[0]));
        vstd::seq_lib::to_multiset_insert(u, 0, s[0]);
        assert(s =~= t.insert(0, s[0]));
        vstd::seq_lib::to_multiset_insert(t, 0, s[0]);
        assert(insert_sorted(x, s).to_multiset() =~= t.to_multiset().insert(x).insert(s[0]));
    }
}

/// Sorting keeps exactly the names it was given.
pub proof fn lemma_sort_multiset(s: Seq<Seq<char>>)
    ensures
        sort_names(s).to_multiset() =~= s.to_multiset(),
    decreases s.len(),
{
    broadcast use vstd::seq_lib::group_to_multiset_ensures;

    if s.len() > 0 {
        lemma_sort_multiset(s.drop_last());
        lemma_insert_multiset(s.last(), sort_names(s.drop_last()));
        assert(s =~= s.drop_last().push(s.last()));
        vstd::seq_lib::to_multiset_build(s.drop_last(), s.last());
    }
}

/// Two sorted lists of the same names are the same list.
proof fn lemma_sorted_unique(s: Seq<Seq<char>>, t: Seq<Seq<char>>)
    requires
        is_sorted(s),
        is_sorted(t),
        s.to_multiset() == t.to_multiset(),
    ensures
        s == t,
    decreases s.len(),
{
    broadcast use vstd::seq_lib::group_to_multiset_ensures;
    broadcast use vstd::multiset::group_multiset_axioms;

    vstd::seq_lib::to_multiset_len(s);
    vstd::seq_lib::to_multiset_len(t);
    if s.len() == 0 {
        assert(s =~= t);
    } else {
        vstd::seq_lib::to_multiset_contains(t, s[0]);
        vstd::seq_lib::to_multiset_contains(s, t[0]);
        assert(s.contains(s[0]));
        assert(t.contains(t[0]));
        let j = choose|j: int| 0 <= j < t.len() && t[j] == s[0];
        let i = choose|i: int| 0 <= i < s.len() && s[i] == t[0];
        if j > 0 {
            assert(!lex_lt(t[j], t[0]));
        }
        if i > 0 {
            assert(!lex_lt(s[i], s[0]));
        }
        lemma_lex_total(s[0], t[0]);
        assert(s[0] == t[0]);
        let s1 = s.drop_first();
        let t1 = t.drop_first();
        assert(s.remove(0) =~= s1);
        assert(t.remove(0) =~= t1);
        vstd::seq_lib::to_multiset_remove(s, 0);
        vstd::seq_lib::to_multiset_remove(t, 0);
        assert forall|a: int, b: int| 0 <= a < b < s1.len() implies !lex_lt(#[trigger] s1[b], #[trigger] s1[a]) by {
            assert(s1[a] == s[a + 1] && s1[b] == s[b + 1]);
        }
        assert forall|a: int, b: int| 0 <= a < b < t1.len() implies !lex_lt(#[trigger] t1[b], #[trigger] t1[a]) by {
            assert(t1[a] == t[a + 1] && t1[b] == t[b + 1]);
        }
        lemma_sorted_unique(s1, t1);
        assert forall|k: int| 0 <= k < s.len() implies #[trigger] s[k] == t[k] by {
            if k > 0 {
                assert(s[k] == s1[k - 1] && t[k] == t1[k - 1]);
            }
        }
        assert(s =~= t);
    }
}

/// The order names are given in does not matter: the same names, listed
/// in any order, sort to the same list.
pub proof fn law_sort_names_ignores_the_given_order(s: Seq<Seq<char>>, t: Seq<Seq<char>>)
    requires
        s.to_multiset() == t.to_multiset(),
    ensures
        sort_names(s) == sort_names(t),
{
    lemma_sort_multiset(s);
    lemma_sort_multiset(t);
    law_sort_names_is_sorted(s);
    law_sort_names_is_sorted(t);
    lemma_sorted_unique(sort_names(s), sort_names(t));
}

} // verus!
