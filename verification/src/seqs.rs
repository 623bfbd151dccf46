//! Keyed replacement in sequences: a binding for the same chord, trigger or
//! name replaces the first one there is, or joins the end.

use vstd::prelude::*;

verus! {

/// `i` is the first position whose element satisfies `p`.
pub open spec fn is_first_where<T>(s: Seq<T>, p: spec_fn(T) -> bool, i: int) -> bool {
    0 <= i < s.len() && p(s[i]) && forall|k: int| 0 <= k < i ==> !p(#[trigger] s[k])
}

/// The first position whose element satisfies `p`, if any.
pub open spec fn first_where<T>(s: Seq<T>, p: spec_fn(T) -> bool) -> Option<int> {
    if exists|i: int| is_first_where(s, p, i) {
        Some(choose|i: int| is_first_where(s, p, i))
    } else {
        None
    }
}

/// `x` replaces the first element satisfying `p`, or is appended when none
/// does.
pub open spec fn upsert<T>(s: Seq<T>, p: spec_fn(T) -> bool, x: T) -> Seq<T> {
    match first_where(s, p) {
        Some(i) => s.update(i, x),
        None => s.push(x),
    }
}

pub proof fn lemma_first_where_is<T>(s: Seq<T>, p: spec_fn(T) -> bool, i: int)
    requires
        is_first_where(s, p, i),
    ensures
        first_where(s, p) == Some(i),
{
    let j = choose|j: int| is_first_where(s, p, j);
    assert(is_first_where(s, p, j));
    if j < i {
        assert(!p(s[j]));
    }
    if i < j {
        assert(!p(s[i]));
    }
}

pub proof fn lemma_first_where_none<T>(s: Seq<T>, p: spec_fn(T) -> bool)
    requires
        forall|k: int| 0 <= k < s.len() ==> !p(#[trigger] s[k]),
    ensures
        first_where(s, p) is None,
{
    if exists|i: int| is_first_where(s, p, i) {
        let i = choose|i: int| is_first_where(s, p, i);
        assert(p(s[i]));
    }
}

/// No two positions of `s` satisfy `p`.
pub open spec fn unique_where<T>(s: Seq<T>, p: spec_fn(T) -> bool) -> bool {
    forall|i: int, j: int|
        0 <= i < s.len() && 0 <= j < s.len() && p(#[trigger] s[i]) && p(#[trigger] s[j]) ==> i == j
}

pub proof fn lemma_first_where_some<T>(s: Seq<T>, p: spec_fn(T) -> bool)
    requires
        first_where(s, p) is Some,
    ensures
        is_first_where(s, p, first_where(s, p)->0),
{
}

/// When nothing is first, nothing satisfies `p` at all.
pub proof fn lemma_none_first_means_none<T>(s: Seq<T>, p: spec_fn(T) -> bool, k: int)
    requires
        first_where(s, p) is None,
        0 <= k < s.len(),
    ensures
        !p(s[k]),
    decreases k,
{
    if p(s[k]) {
        if forall|j: int| 0 <= j < k ==> !p(#[trigger] s[j]) {
            assert(is_first_where(s, p, k));
        } else {
            let j = choose|j: int| 0 <= j < k && p(#[trigger] s[j]);
            lemma_none_first_means_none(s, p, j);
        }
    }
}

/// Upserting twice under the same key leaves what the second upsert alone
/// would have left.
pub proof fn lemma_upsert_twice<T>(s: Seq<T>, p: spec_fn(T) -> bool, a: T, b: T)
    requires
        p(a),
    ensures
        upsert(upsert(s, p, a), p, b) == upsert(s, p, b),
{
    match first_where(s, p) {
        Some(i) => {
            lemma_first_where_some(s, p);
            let s1 = s.update(i, a);
            assert(is_first_where(s1, p, i));
            lemma_first_where_is(s1, p, i);
            assert(s1.update(i, b) =~= s.update(i, b));
        },
        None => {
            let s1 = s.push(a);
            assert forall|k: int| 0 <= k < s.len() implies !p(#[trigger] s1[k]) by {
                lemma_none_first_means_none(s, p, k);
            }
            assert(is_first_where(s1, p, s.len() as int));
            lemma_first_where_is(s1, p, s.len() as int);
            assert(s1.update(s.len() as int, b) =~= s.push(b));
        },
    }
}

/// Upserting an element that satisfies `p` keeps at most one such element,
/// and that element is the one upserted.
pub proof fn lemma_upsert_unique<T>(s: Seq<T>, p: spec_fn(T) -> bool, x: T)
    requires
        unique_where(s, p),
        p(x),
    ensures
        unique_where(upsert(s, p, x), p),
        upsert(s, p, x).contains(x),
{
    let r = upsert(s, p, x);
    match first_where(s, p) {
        Some(i) => {
            lemma_first_where_some(s, p);
            assert(r[i] == x);
            assert forall|a: int, b: int|
                0 <= a < r.len() && 0 <= b < r.len() && p(#[trigger] r[a]) && p(#[trigger] r[b])
                implies a == b by {
                if a != i {
                    assert(p(s[a]) && p(s[i]));
                }
                if b != i {
                    assert(p(s[b]) && p(s[i]));
                }
            }
        },
        None => {
            assert(r[s.len() as int] == x);
            assert forall|a: int, b: int|
                0 <= a < r.len() && 0 <= b < r.len() && p(#[trigger] r[a]) && p(#[trigger] r[b])
                implies a == b by {
                if a < s.len() {
                    lemma_none_first_means_none(s, p, a);
                }
                if b < s.len() {
                    lemma_none_first_means_none(s, p, b);
                }
            }
        },
    }
}

/// No two elements of `s` have the same key.
pub open spec fn keys_unique<T, K>(s: Seq<T>, key: spec_fn(T) -> K) -> bool {
    forall|i: int, j: int|
        0 <= i < s.len() && 0 <= j < s.len() && key(#[trigger] s[i]) == key(#[trigger] s[j]) ==> i == j
}

/// Upserting `x` where the rule is "has the key of `x`": no element is
/// dropped, each keeps its key at its place, and unique keys stay unique.
pub proof fn lemma_upsert_keyed<T, K>(s: Seq<T>, key: spec_fn(T) -> K, p: spec_fn(T) -> bool, x: T)
    requires
        forall|t: T| #[trigger] p(t) == (key(t) == key(x)),
    ensures
        upsert(s, p, x).len() >= s.len(),
        forall|i: int| 0 <= i < s.len() ==> key(#[trigger] upsert(s, p, x)[i]) == key(s[i]),
        keys_unique(s, key) ==> keys_unique(upsert(s, p, x), key),
{
    let r = upsert(s, p, x);
    match first_where(s, p) {
        Some(q) => {
            lemma_first_where_some(s, p);
            assert(p(s[q]));
            if keys_unique(s, key) {
                assert forall|a: int, b: int|
                    0 <= a < r.len() && 0 <= b < r.len() && key(#[trigger] r[a]) == key(#[trigger] r[b])
                    implies a == b by {
                    if a != q && b != q {
                        assert(r[a] == s[a] && r[b] == s[b]);
                    } else if a == q && b != q {
                        assert(r[b] == s[b]);
                        assert(key(s[q]) == key(s[b]));
                    } else if b == q && a != q {
                        assert(r[a] == s[a]);
                        assert(key(s[q]) == key(s[a]));
                    }
                }
            }
        },
        None => {
            if keys_unique(s, key) {
                assert forall|a: int, b: int|
                    0 <= a < r.len() && 0 <= b < r.len() && key(#[trigger] r[a]) == key(#[trigger] r[b])
                    implies a == b by {
                    if a < s.len() && b < s.len() {
                        assert(r[a] == s[a] && r[b] == s[b]);
                    } else if a < s.len() {
                        lemma_none_first_means_none(s, p, a);
                        assert(r[a] == s[a]);
                    } else if b < s.len() {
                        lemma_none_first_means_none(s, p, b);
                        assert(r[b] == s[b]);
                    }
                }
            }
        },
    }
}

/// Keeping only some elements keeps keys unique: two kept elements with
/// the same key are one.
pub proof fn lemma_filter_keeps_unique<T, K>(s: Seq<T>, p: spec_fn(T) -> bool, key: spec_fn(T) -> K, a: int, b: int)
    requires
        keys_unique(s, key),
        0 <= a < s.filter(p).len(),
        0 <= b < s.filter(p).len(),
        key(s.filter(p)[a]) == key(s.filter(p)[b]),
    ensures
        a == b,
    decreases s.len(),
{
    reveal(Seq::filter);
    if s.len() > 0 {
        let d = s.drop_last();
        let f = d.filter(p);
        assert forall|i: int, j: int|
            0 <= i < d.len() && 0 <= j < d.len() && key(#[trigger] d[i]) == key(#[trigger] d[j]) implies i
            == j by {
            assert(d[i] == s[i] && d[j] == s[j]);
        }
        if p(s.last()) {
            assert(s.filter(p) == f.push(s.last()));
            if a < f.len() && b < f.len() {
                lemma_filter_keeps_unique(d, p, key, a, b);
            } else if a < f.len() || b < f.len() {
                let k = if a < f.len() { a } else { b };
                d.lemma_filter_contains_rev(p, f[k]);
                let j = choose|j: int| 0 <= j < d.len() && d[j] == f[k];
                assert(key(s[j]) == key(s[s.len() - 1]));
            }
        } else {
            assert(s.filter(p) == f);
            lemma_filter_keeps_unique(d, p, key, a, b);
        }
    }
}

} // verus!
