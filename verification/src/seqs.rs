//! Finding the first element of a sequence with a property, and lookups in
//! association lists (sequences of key/value pairs that stand for maps).
use vstd::prelude::*;
use crate::text::{seq_lt, str_eq};

verus! {

/// `i` is the first position of `s` whose element satisfies `p`.
pub open spec fn is_first<A>(s: Seq<A>, p: spec_fn(A) -> bool, i: int) -> bool {
    &&& 0 <= i < s.len()
    &&& p(s[i])
    &&& forall|j: int| 0 <= j < i ==> !p(#[trigger] s[j])
}

/// Some element of `s` satisfies `p`.
pub open spec fn any_of<A>(s: Seq<A>, p: spec_fn(A) -> bool) -> bool {
    exists|i: int| 0 <= i < s.len() && #[trigger] p(s[i])
}

/// The position of the first element of `s` that satisfies `p`, if any.
pub open spec fn first_index<A>(s: Seq<A>, p: spec_fn(A) -> bool) -> Option<int> {
    if any_of(s, p) {
        Some(choose|i: int| is_first(s, p, i))
    } else {
        None
    }
}

pub proof fn lemma_first_unique<A>(s: Seq<A>, p: spec_fn(A) -> bool, i: int, j: int)
    requires
        is_first(s, p, i),
        is_first(s, p, j),
    ensures
        i == j,
{
    if i < j {
        assert(!p(s[i]));
    } else if j < i {
        assert(!p(s[j]));
    }
}

/// Characterises `first_index` by a witness.
pub proof fn lemma_first_index<A>(s: Seq<A>, p: spec_fn(A) -> bool, i: int)
    requires
        is_first(s, p, i),
    ensures
        first_index(s, p) == Some(i),
{
    assert(any_of(s, p));
    let k = choose|k: int| is_first(s, p, k);
    lemma_first_unique(s, p, i, k);
}

/// If no element satisfies `p`, there is no first one.
pub proof fn lemma_first_index_none<A>(s: Seq<A>, p: spec_fn(A) -> bool)
    requires
        forall|j: int| 0 <= j < s.len() ==> !p(#[trigger] s[j]),
    ensures
        first_index(s, p) is None,
{
}

/// A nonempty search has a first element.
pub proof fn lemma_first_index_some<A>(s: Seq<A>, p: spec_fn(A) -> bool)
    requires
        any_of(s, p),
    ensures
        first_index(s, p) matches Some(i) && is_first(s, p, i),
{
    let w = choose|w: int| 0 <= w < s.len() && #[trigger] p(s[w]);
    lemma_first_below(s, p, w);
}

proof fn lemma_first_below<A>(s: Seq<A>, p: spec_fn(A) -> bool, w: int)
    requires
        0 <= w < s.len(),
        p(s[w]),
    ensures
        first_index(s, p) matches Some(i) && is_first(s, p, i),
    decreases w,
{
    if exists|j: int| 0 <= j < w && #[trigger] p(s[j]) {
        let j = choose|j: int| 0 <= j < w && #[trigger] p(s[j]);
        lemma_first_below(s, p, j);
    } else {
        assert(is_first(s, p, w));
        lemma_first_index(s, p, w);
    }
}

/// `i` is the last position of `s` whose element satisfies `p`.
pub open spec fn is_last<A>(s: Seq<A>, p: spec_fn(A) -> bool, i: int) -> bool {
    &&& 0 <= i < s.len()
    &&& p(s[i])
    &&& forall|j: int| i < j < s.len() ==> !p(#[trigger] s[j])
}

/// The position of the last element of `s` that satisfies `p`, if any.
pub open spec fn last_index<A>(s: Seq<A>, p: spec_fn(A) -> bool) -> Option<int> {
    if any_of(s, p) {
        Some(choose|i: int| is_last(s, p, i))
    } else {
        None
    }
}

/// Characterises `last_index` by a witness.
pub proof fn lemma_last_index<A>(s: Seq<A>, p: spec_fn(A) -> bool, i: int)
    requires
        is_last(s, p, i),
    ensures
        last_index(s, p) == Some(i),
{
    assert(any_of(s, p));
    let k = choose|k: int| is_last(s, p, k);
    if k < i {
        assert(!p(s[i]));
    } else if i < k {
        assert(!p(s[k]));
    }
}

/// The predicate "the key of this entry is `k`".
pub open spec fn key_is<V>(k: Seq<char>) -> spec_fn((String, V)) -> bool {
    |e: (String, V)| e.0@ == k
}

/// The association list `e` has an entry with key `k`.
pub open spec fn has_key<V>(e: Seq<(String, V)>, k: Seq<char>) -> bool {
    any_of(e, key_is::<V>(k))
}

/// The value of the first entry of `e` whose key is `k`.
pub open spec fn lookup<V>(e: Seq<(String, V)>, k: Seq<char>) -> Option<V> {
    match first_index(e, key_is::<V>(k)) {
        Some(i) => Some(e[i].1),
        None => None,
    }
}

/// The keys of an association list, in order.
pub open spec fn keys<V>(e: Seq<(String, V)>) -> Seq<Seq<char>> {
    e.map_values(|x: (String, V)| x.0@)
}

/// The keys of `e` are strictly increasing: no key occurs twice and the
/// entries stand in key order, as in an ordered map.
pub open spec fn keys_sorted<V>(e: Seq<(String, V)>) -> bool {
    forall|i: int, j: int| 0 <= i < j < e.len() ==> seq_lt(#[trigger] e[i].0@, #[trigger] e[j].0@)
}

/// Position of the entry with key `k`.
pub fn find_key<V>(e: &Vec<(String, V)>, k: &str) -> (r: Option<usize>)
    ensures
        r matches Some(i) ==> first_index(e@, key_is::<V>(k@)) == Some(i as int),
        r is None ==> first_index(e@, key_is::<V>(k@)) is None,
        r matches Some(i) ==> is_first(e@, key_is::<V>(k@), i as int),
        r is None ==> !has_key(e@, k@),
{
    let mut i: usize = 0;
    while i < e.len()
        invariant
            i <= e.len(),
            forall|j: int| 0 <= j < i ==> !key_is::<V>(k@)(#[trigger] e@[j]),
        decreases e.len() - i,
    {
        if str_eq(e[i].0.as_str(), k) {
            proof {
                assert(is_first(e@, key_is::<V>(k@), i as int));
                lemma_first_index(e@, key_is::<V>(k@), i as int);
            }
            return Some(i);
        }
        i = i + 1;
    }
    None
}

/// Whether the association list has an entry with key `k`.
pub fn contains_key<V>(e: &Vec<(String, V)>, k: &str) -> (r: bool)
    ensures
        r == has_key(e@, k@),
{
    find_key(e, k).is_some()
}

/// Whether a list of strings holds `k`.
pub fn contains_str(v: &Vec<String>, k: &str) -> (r: bool)
    ensures
        r == exists|i: int| 0 <= i < v.len() && (#[trigger] v@[i])@ == k@,
{
    let mut i: usize = 0;
    while i < v.len()
        invariant
            i <= v.len(),
            forall|j: int| 0 <= j < i ==> (#[trigger] v@[j])@ != k@,
        decreases v.len() - i,
    {
        if str_eq(v[i].as_str(), k) {
            return true;
        }
        i = i + 1;
    }
    false
}

/// `v` holds a string equal to `k`.
pub open spec fn holds(v: Seq<String>, k: Seq<char>) -> bool {
    exists|i: int| 0 <= i < v.len() && (#[trigger] v[i])@ == k
}

/// Mapping and filtering a concatenation maps and filters each part.
pub proof fn lemma_filter_map_concat<A, B>(a: Seq<A>, b: Seq<A>, f: spec_fn(A) -> Option<B>)
    ensures
        (a + b).filter_map(f) == a.filter_map(f) + b.filter_map(f),
    decreases b.len(),
{
    if b.len() == 0 {
        assert(a + b =~= a);
        assert(a.filter_map(f) + b.filter_map(f) =~= a.filter_map(f));
    } else {
        lemma_filter_map_concat(a, b.drop_last(), f);
        assert((a + b).drop_last() =~= a + b.drop_last());
        assert((a + b).last() == b.last());
        match f(b.last()) {
            Some(y) => {
                assert(a.filter_map(f) + (b.drop_last().filter_map(f) + seq![y])
                    =~= (a.filter_map(f) + b.drop_last().filter_map(f)) + seq![y]);
            },
            None => {},
        }
    }
}

/// Mapping and filtering a sequence in which only the element at `k` may
/// map to something keeps what that element maps to.
pub proof fn lemma_filter_map_one<A, B>(h: Seq<A>, f: spec_fn(A) -> Option<B>, k: int)
    requires
        0 <= k < h.len(),
        forall|i: int| 0 <= i < h.len() && i != k ==> (#[trigger] f(h[i])) is None,
    ensures
        h.filter_map(f) == match f(h[k]) { Some(y) => seq![y], None => Seq::<B>::empty() },
    decreases h.len(),
{
    let t = h.drop_last();
    if k == h.len() - 1 {
        assert forall|j: int| 0 <= j < t.len() implies (#[trigger] f(t[j])) is None by {
            assert(t[j] == h[j]);
        }
        lemma_filter_map_none(t, f);
        match f(h[k]) {
            Some(y) => { assert(Seq::<B>::empty() + seq![y] =~= seq![y]); },
            None => {},
        }
    } else {
        assert forall|i: int| 0 <= i < t.len() && i != k implies (#[trigger] f(t[i])) is None by {
            assert(t[i] == h[i]);
        }
        assert(f(h.last()) is None);
        lemma_filter_map_one(t, f, k);
        assert(t[k] == h[k]);
    }
}

/// A sequence no element of which maps to anything maps and filters to
/// nothing.
pub proof fn lemma_filter_map_none<A, B>(h: Seq<A>, f: spec_fn(A) -> Option<B>)
    requires
        forall|i: int| 0 <= i < h.len() ==> (#[trigger] f(h[i])) is None,
    ensures
        h.filter_map(f) == Seq::<B>::empty(),
    decreases h.len(),
{
    if h.len() > 0 {
        let t = h.drop_last();
        assert forall|j: int| 0 <= j < t.len() implies (#[trigger] f(t[j])) is None by {
            assert(t[j] == h[j]);
        }
        assert(f(h[h.len() - 1]) is None);
        lemma_filter_map_none(t, f);
    }
}

/// Mapping and filtering a sequence every element of which maps to
/// something gives what they map to.
pub proof fn lemma_filter_map_all<A, B>(s: Seq<A>, f: spec_fn(A) -> Option<B>, t: Seq<B>)
    requires
        s.len() == t.len(),
        forall|i: int| 0 <= i < s.len() ==> #[trigger] f(s[i]) == Some(t[i]),
    ensures
        s.filter_map(f) == t,
    decreases s.len(),
{
    if s.len() > 0 {
        let s1 = s.drop_last();
        let t1 = t.drop_last();
        assert forall|i: int| 0 <= i < s1.len() implies #[trigger] f(s1[i]) == Some(t1[i]) by {
            assert(s1[i] == s[i]);
            assert(f(s[i]) == Some(t[i]));
        }
        lemma_filter_map_all(s1, f, t1);
        assert(f(s[s.len() - 1]) == Some(t[t.len() - 1]));
        assert(t1 + seq![t.last()] =~= t);
    } else {
        assert(t =~= Seq::<B>::empty());
    }
}

} // verus!
