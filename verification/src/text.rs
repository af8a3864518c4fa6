//! Character-level helpers shared by the rest of the library: equality and
//! ordering of strings, sorting, and the few `std` text operations the
//! library relies on.
use vstd::prelude::*;
use vstd::relations::{sorted_by, total_ordering};

verus! {

/// Equality of two string slices by their characters.
pub fn str_eq(a: &str, b: &str) -> (r: bool)
    ensures
        r == (a@ == b@),
{
    let n = a.unicode_len();
    if n != b.unicode_len() {
        return false;
    }
    let mut i: usize = 0;
    while i < n
        invariant
            n == a@.len(),
            n == b@.len(),
            i <= n,
            forall|j: int| 0 <= j < i ==> a@[j] == b@[j],
        decreases n - i,
    {
        if a.get_char(i) != b.get_char(i) {
            return false;
        }
        i = i + 1;
    }
    proof { assert(a@ =~= b@); }
    true
}

/// Appends one character to a string.
///
/// Trusted: `String::push` appends `c` at the end of the string.
#[verifier::external_body]
pub fn push_char(s: &mut String, c: char)
    ensures
        final(s)@ == old(s)@.push(c),
{
    s.push(c)
}

/// The views of a sequence of strings.
pub open spec fn views(v: Seq<String>) -> Seq<Seq<char>> {
    v.map_values(|s: String| s@)
}

/// Strict lexicographic order of character sequences, comparing characters
/// by their code points (the order of `str`'s `Ord`, since UTF-8 preserves
/// code point order byte for byte).
pub open spec fn seq_lt(a: Seq<char>, b: Seq<char>) -> bool
    decreases a.len(),
{
    if a.len() == 0 {
        b.len() > 0
    } else if b.len() == 0 {
        false
    } else if a[0] != b[0] {
        (a[0] as int) < (b[0] as int)
    } else {
        seq_lt(a.drop_first(), b.drop_first())
    }
}

/// Non-strict lexicographic order.
pub open spec fn seq_le(a: Seq<char>, b: Seq<char>) -> bool {
    a == b || seq_lt(a, b)
}

/// The ordering relation as a closure, for `sort_by` and `sorted_by`.
pub open spec fn seq_leq() -> spec_fn(Seq<char>, Seq<char>) -> bool {
    |a: Seq<char>, b: Seq<char>| seq_le(a, b)
}

pub proof fn lemma_seq_lt_irreflexive(a: Seq<char>)
    ensures
        !seq_lt(a, a),
    decreases a.len(),
{
    if a.len() > 0 {
        lemma_seq_lt_irreflexive(a.drop_first());
    }
}

pub proof fn lemma_seq_lt_asymmetric(a: Seq<char>, b: Seq<char>)
    ensures
        !(seq_lt(a, b) && seq_lt(b, a)),
    decreases a.len(),
{
    if a.len() > 0 && b.len() > 0 && a[0] == b[0] {
        lemma_seq_lt_asymmetric(a.drop_first(), b.drop_first());
    }
}

pub proof fn lemma_seq_lt_transitive(a: Seq<char>, b: Seq<char>, c: Seq<char>)
    requires
        seq_lt(a, b),
        seq_lt(b, c),
    ensures
        seq_lt(a, c),
    decreases a.len(),
{
    if a.len() > 0 && b.len() > 0 && c.len() > 0 && a[0] == b[0] && b[0] == c[0] {
        lemma_seq_lt_transitive(a.drop_first(), b.drop_first(), c.drop_first());
    }
}

pub proof fn lemma_seq_lt_total(a: Seq<char>, b: Seq<char>)
    ensures
        a == b || seq_lt(a, b) || seq_lt(b, a),
    decreases a.len(),
{
    if a.len() > 0 && b.len() > 0 {
        if a[0] == b[0] {
            lemma_seq_lt_total(a.drop_first(), b.drop_first());
            if a.drop_first() == b.drop_first() {
                assert(a =~= seq![a[0]] + a.drop_first());
                assert(b =~= seq![b[0]] + b.drop_first());
            }
        } else {
            assert((a[0] as int) != (b[0] as int));
        }
    } else if a.len() == 0 && b.len() == 0 {
        assert(a =~= b);
    }
}

pub proof fn lemma_seq_leq_total_ordering()
    ensures
        total_ordering(seq_leq()),
{
    assert forall|a: Seq<char>, b: Seq<char>| #[trigger] seq_leq()(a, b) && seq_leq()(b, a) implies a == b by {
        lemma_seq_lt_asymmetric(a, b);
    }
    assert forall|a: Seq<char>, b: Seq<char>, c: Seq<char>| #[trigger] seq_leq()(a, b) && #[trigger] seq_leq()(b, c) implies seq_leq()(a, c) by {
        if seq_lt(a, b) && seq_lt(b, c) {
            lemma_seq_lt_transitive(a, b, c);
        }
    }
    assert forall|a: Seq<char>, b: Seq<char>| #[trigger] seq_leq()(a, b) || seq_leq()(b, a) by {
        lemma_seq_lt_total(a, b);
    }
}

/// Lexicographic `a < b` on strings.
pub fn str_lt(a: &str, b: &str) -> (r: bool)
    ensures
        r == seq_lt(a@, b@),
{
    let la = a.unicode_len();
    let lb = b.unicode_len();
    let mut i: usize = 0;
    while i < la && i < lb
        invariant
            la == a@.len(),
            lb == b@.len(),
            i <= la,
            i <= lb,
            a@.subrange(0, i as int) == b@.subrange(0, i as int),
        decreases la - i,
    {
        let ca = a.get_char(i);
        let cb = b.get_char(i);
        if ca != cb {
            proof { lemma_seq_lt_first_difference(a@, b@, i as int); }
            return ca < cb;
        }
        assert(a@.subrange(0, i + 1) =~= a@.subrange(0, i as int).push(ca));
        assert(b@.subrange(0, i + 1) =~= b@.subrange(0, i as int).push(cb));
        i = i + 1;
    }
    proof { lemma_seq_lt_prefix(a@, b@, i as int); }
    i < lb && i == la
}

proof fn lemma_seq_lt_first_difference(a: Seq<char>, b: Seq<char>, i: int)
    requires
        0 <= i < a.len(),
        i < b.len(),
        a.subrange(0, i) == b.subrange(0, i),
        a[i] != b[i],
    ensures
        seq_lt(a, b) == ((a[i] as int) < (b[i] as int)),
    decreases i,
{
    if i > 0 {
        assert(a[0] == a.subrange(0, i)[0]);
        assert(b[0] == b.subrange(0, i)[0]);
        assert(a.drop_first().subrange(0, i - 1) =~= a.subrange(0, i).drop_first());
        assert(b.drop_first().subrange(0, i - 1) =~= b.subrange(0, i).drop_first());
        lemma_seq_lt_first_difference(a.drop_first(), b.drop_first(), i - 1);
    }
}

proof fn lemma_seq_lt_prefix(a: Seq<char>, b: Seq<char>, i: int)
    requires
        0 <= i <= a.len(),
        i <= b.len(),
        i == a.len() || i == b.len(),
        a.subrange(0, i) == b.subrange(0, i),
    ensures
        seq_lt(a, b) == (i < b.len() && i == a.len()),
    decreases i,
{
    if i > 0 {
        assert(a[0] == a.subrange(0, i)[0]);
        assert(b[0] == b.subrange(0, i)[0]);
        assert(a.drop_first().subrange(0, i - 1) =~= a.subrange(0, i).drop_first());
        assert(b.drop_first().subrange(0, i - 1) =~= b.subrange(0, i).drop_first());
        lemma_seq_lt_prefix(a.drop_first(), b.drop_first(), i - 1);
    }
}


/// Sorts strings into ascending lexicographic order (as `Vec::sort` on
/// strings does).
pub fn sort_strings(v: &Vec<String>) -> (r: Vec<String>)
    ensures
        views(r@) == views(v@).sort_by(seq_leq()),
        r.len() == v.len(),
{
    broadcast use vstd::seq_lib::group_to_multiset_ensures;
    let mut out: Vec<String> = Vec::new();
    let n = v.len();
    for i in 0..n
        invariant
            n == v.len(),
            out.len() == i,
            sorted_by(views(out@), seq_leq()),
            views(out@).to_multiset() == views(v@.subrange(0, i as int)).to_multiset(),
    {
        let x = v[i].clone();
        let mut j: usize = 0;
        while j < out.len() && !str_lt(x.as_str(), out[j].as_str())
            invariant
                j <= out.len(),
                forall|k: int| 0 <= k < j ==> seq_le(#[trigger] out@[k]@, x@),
            decreases out.len() - j,
        {
            proof { lemma_seq_lt_total(x@, out@[j as int]@); }
            j = j + 1;
        }
        let ghost old_out = views(out@);
        out.insert(j, x);
        proof {
            assert(views(out@) =~= old_out.insert(j as int, x@));
            vstd::seq_lib::to_multiset_insert(old_out, j as int, x@);
            assert(x@ == v@[i as int]@);
            assert(views(v@.subrange(0, i + 1)) =~= views(v@.subrange(0, i as int)).push(x@));
            vstd::seq_lib::to_multiset_build(views(v@.subrange(0, i as int)), x@);
            lemma_seq_leq_total_ordering();
            assert forall|a: int, b: int| 0 <= a < b < out.len() implies #[trigger] seq_leq()(views(out@)[a], views(out@)[b]) by {
                if b < j {
                    assert(seq_leq()(old_out[a], old_out[b]));
                } else if a > j {
                    assert(seq_leq()(old_out[a - 1], old_out[b - 1]));
                } else if a == j {
                    if b - 1 >= j as int && (j as int) < old_out.len() {
                        assert(seq_lt(x@, old_out[j as int]));
                        assert(seq_leq()(old_out[j as int], old_out[b - 1]));
                        if seq_lt(old_out[j as int], old_out[b - 1]) {
                            lemma_seq_lt_transitive(x@, old_out[j as int], old_out[b - 1]);
                        }
                    }
                } else {
                    assert(a < j);
                    assert(seq_le(old_out[a], x@));
                }
            }
        }
    }
    proof {
        assert(v@.subrange(0, n as int) =~= v@);
        lemma_seq_leq_total_ordering();
        views(v@).lemma_sort_by_ensures(seq_leq());
        vstd::seq_lib::lemma_sorted_unique(views(out@), views(v@).sort_by(seq_leq()), seq_leq());
    }
    out
}


/// `a + b` as a new string.
pub fn cat2(a: &str, b: &str) -> (r: String)
    ensures
        r@ == a@ + b@,
{
    let mut r = a.to_owned();
    r.append(b);
    r
}

/// `a + b + c` as a new string.
pub fn cat3(a: &str, b: &str, c: &str) -> (r: String)
    ensures
        r@ == a@ + b@ + c@,
{
    let mut r = a.to_owned();
    r.append(b);
    r.append(c);
    r
}

/// `a + b + c + d + e` as a new string.
pub fn cat5(a: &str, b: &str, c: &str, d: &str, e: &str) -> (r: String)
    ensures
        r@ == a@ + b@ + c@ + d@ + e@,
{
    let mut r = a.to_owned();
    r.append(b);
    r.append(c);
    r.append(d);
    r.append(e);
    r
}

/// The parts joined with `sep` between each two (as `[String]::join`).
pub open spec fn join(parts: Seq<Seq<char>>, sep: Seq<char>) -> Seq<char>
    decreases parts.len(),
{
    if parts.len() == 0 {
        seq![]
    } else if parts.len() == 1 {
        parts[0]
    } else {
        join(parts.drop_last(), sep) + sep + parts.last()
    }
}

/// Joins strings with a separator.
pub fn join_strings(v: &Vec<String>, sep: &str) -> (r: String)
    ensures
        r@ == join(views(v@), sep@),
{
    let mut r = String::new();
    for i in 0..v.len()
        invariant
            r@ == join(views(v@.subrange(0, i as int)), sep@),
    {
        proof {
            assert(views(v@.subrange(0, i + 1)).drop_last() =~= views(v@.subrange(0, i as int)));
        }
        if i > 0 {
            r.append(sep);
        } else {
            assert(views(v@.subrange(0, 1)) =~= seq![v@[0]@]);
        }
        r.append(v[i].as_str());
    }
    proof { assert(v@.subrange(0, v.len() as int) =~= v@); }
    r
}


// ─── Whitespace and tokens ────────────────────────────────────────────────────

/// The Unicode `White_Space` characters, which `char::is_whitespace`,
/// `str::trim` and `str::split_whitespace` go by.
pub open spec fn is_ws(c: char) -> bool {
    let n = c as int;
    ||| 0x09 <= n <= 0x0d
    ||| n == 0x20
    ||| n == 0x85
    ||| n == 0xa0
    ||| n == 0x1680
    ||| 0x2000 <= n <= 0x200a
    ||| n == 0x2028
    ||| n == 0x2029
    ||| n == 0x202f
    ||| n == 0x205f
    ||| n == 0x3000
}

/// Whether `c` is a Unicode white space character.
pub fn is_whitespace(c: char) -> (r: bool)
    ensures
        r == is_ws(c),
{
    let n = c as u32;
    (0x09 <= n && n <= 0x0d) || n == 0x20 || n == 0x85 || n == 0xa0 || n == 0x1680
        || (0x2000 <= n && n <= 0x200a) || n == 0x2028 || n == 0x2029 || n == 0x202f
        || n == 0x205f || n == 0x3000
}

/// `s` without its leading white space.
pub open spec fn skip_ws(s: Seq<char>) -> Seq<char>
    decreases s.len(),
{
    if s.len() > 0 && is_ws(s[0]) {
        skip_ws(s.drop_first())
    } else {
        s
    }
}

/// The characters of `s` up to its first white space.
pub open spec fn take_word(s: Seq<char>) -> Seq<char>
    decreases s.len(),
{
    if s.len() == 0 || is_ws(s[0]) {
        Seq::empty()
    } else {
        seq![s[0]] + take_word(s.drop_first())
    }
}

/// The first white-space-delimited token of `s` (the first item of
/// `split_whitespace`).
pub open spec fn first_token(s: Seq<char>) -> Option<Seq<char>> {
    let t = skip_ws(s);
    if t.len() == 0 { None } else { Some(take_word(t)) }
}

proof fn lemma_skip_ws_step(s: Seq<char>, i: int)
    requires
        0 <= i < s.len(),
        is_ws(s[i]),
    ensures
        skip_ws(s.subrange(i, s.len() as int)) == skip_ws(s.subrange(i + 1, s.len() as int)),
{
    assert(s.subrange(i, s.len() as int).drop_first() =~= s.subrange(i + 1, s.len() as int));
}

proof fn lemma_take_word_step(s: Seq<char>, i: int, j: int)
    requires
        0 <= i <= j < s.len(),
        !is_ws(s[j]),
        take_word(s.subrange(i, s.len() as int)) == s.subrange(i, j) + take_word(s.subrange(j, s.len() as int)),
    ensures
        take_word(s.subrange(i, s.len() as int)) == s.subrange(i, j + 1) + take_word(s.subrange(j + 1, s.len() as int)),
{
    let r = s.subrange(j, s.len() as int);
    assert(r.drop_first() =~= s.subrange(j + 1, s.len() as int));
    assert(take_word(r) == seq![s[j]] + take_word(r.drop_first()));
    assert(s.subrange(i, j + 1) =~= s.subrange(i, j) + seq![s[j]]);
}

/// The first white-space-delimited token of a text, if any.
pub fn extract_marker(text: &str) -> (r: Option<String>)
    ensures
        match first_token(text@) {
            Some(t) => r matches Some(x) && x@ == t,
            None => r is None,
        },
{
    let n = text.unicode_len();
    let ghost s = text@;
    let mut i: usize = 0;
    proof { assert(s.subrange(0, n as int) =~= s); }
    while i < n && is_whitespace(text.get_char(i))
        invariant
            n == s.len(),
            s == text@,
            i <= n,
            skip_ws(s) == skip_ws(s.subrange(i as int, n as int)),
        decreases n - i,
    {
        proof { lemma_skip_ws_step(s, i as int); }
        i = i + 1;
    }
    if i == n {
        proof { assert(s.subrange(n as int, n as int) =~= Seq::<char>::empty()); }
        return None;
    }
    proof {
        assert(s.subrange(i as int, n as int)[0] == s[i as int]);
        assert(skip_ws(s) == s.subrange(i as int, n as int));
        assert(s.subrange(i as int, i as int) =~= Seq::<char>::empty());
        assert(take_word(s.subrange(i as int, n as int)) =~= s.subrange(i as int, i as int) + take_word(s.subrange(i as int, n as int)));
    }
    let mut j: usize = i;
    while j < n && !is_whitespace(text.get_char(j))
        invariant
            n == s.len(),
            s == text@,
            i <= j <= n,
            take_word(s.subrange(i as int, n as int)) == s.subrange(i as int, j as int) + take_word(s.subrange(j as int, n as int)),
        decreases n - j,
    {
        proof { lemma_take_word_step(s, i as int, j as int); }
        j = j + 1;
    }
    proof {
        if j < n {
            assert(s.subrange(j as int, n as int)[0] == s[j as int]);
        } else {
            assert(s.subrange(j as int, n as int) =~= Seq::<char>::empty());
        }
        assert(take_word(s.subrange(i as int, n as int)) =~= s.subrange(i as int, j as int));
    }
    Some(text.substring_char(i, j).to_owned())
}


/// The strings stand in strictly increasing order (so none occurs twice).
pub open spec fn strictly_sorted(s: Seq<Seq<char>>) -> bool {
    forall|i: int, j: int| 0 <= i < j < s.len() ==> seq_lt(#[trigger] s[i], #[trigger] s[j])
}

/// The distinct strings of `v` in increasing order (as a sorted set of
/// them would hold them).
pub fn sorted_distinct(v: &Vec<String>) -> (r: Vec<String>)
    ensures
        strictly_sorted(views(r@)),
        views(r@).to_set() == views(v@).to_set(),
{
    let mut out: Vec<String> = Vec::new();
    let n = v.len();
    for i in 0..n
        invariant
            n == v.len(),
            strictly_sorted(views(out@)),
            views(out@).to_set() == views(v@.subrange(0, i as int)).to_set(),
    {
        let x = v[i].clone();
        let mut j: usize = 0;
        while j < out.len() && str_lt(out[j].as_str(), x.as_str())
            invariant
                j <= out.len(),
                forall|k: int| 0 <= k < j ==> seq_lt(#[trigger] out@[k]@, x@),
            decreases out.len() - j,
        {
            j = j + 1;
        }
        let ghost old_out = views(out@);
        proof {
            assert(x@ == v@[i as int]@);
            assert(views(v@.subrange(0, i + 1)) =~= views(v@.subrange(0, i as int)).push(x@));
        }
        if j < out.len() && str_eq(out[j].as_str(), x.as_str()) {
            proof {
                assert(old_out[j as int] == x@);
                assert(views(v@.subrange(0, i + 1)).to_set() =~= old_out.to_set()) by {
                    views(v@.subrange(0, i as int)).lemma_push_to_set_commute(x@);
                    assert(old_out.contains(x@));
                    assert(old_out.to_set().contains(x@));
                }
            }
        } else {
            out.insert(j, x);
            proof {
                assert(views(out@) =~= old_out.insert(j as int, x@));
                if j < old_out.len() {
                    lemma_seq_lt_total(old_out[j as int], x@);
                    assert(seq_lt(x@, old_out[j as int]));
                }
                assert forall|a: int, b: int| 0 <= a < b < out.len() implies seq_lt(#[trigger] views(out@)[a], #[trigger] views(out@)[b]) by {
                    if b < j {
                    } else if a > j {
                        assert(seq_lt(old_out[a - 1], old_out[b - 1]));
                    } else if a == j {
                        if b - 1 > j {
                            assert(seq_lt(old_out[j as int], old_out[b - 1]));
                            lemma_seq_lt_transitive(x@, old_out[j as int], old_out[b - 1]);
                        }
                    } else {
                        assert(seq_lt(old_out[a], x@));
                        if b > j {
                            if b - 1 > j {
                                assert(seq_lt(old_out[a], old_out[b - 1]));
                            }
                        }
                    }
                }
                assert(views(out@).to_set() =~= old_out.to_set().insert(x@)) by {
                    assert forall|y: Seq<char>| views(out@).to_set().contains(y) <==> old_out.to_set().insert(x@).contains(y) by {
                        if views(out@).contains(y) {
                            let k = choose|k: int| 0 <= k < views(out@).len() && views(out@)[k] == y;
                            if k < j { assert(old_out[k] == y); }
                            else if k > j { assert(old_out[k - 1] == y); }
                        }
                        if old_out.contains(y) {
                            let k = choose|k: int| 0 <= k < old_out.len() && old_out[k] == y;
                            if k < j { assert(views(out@)[k] == y); }
                            else { assert(views(out@)[k + 1] == y); }
                        }
                        if y == x@ {
                            assert(views(out@)[j as int] == y);
                        }
                    }
                }
                views(v@.subrange(0, i as int)).lemma_push_to_set_commute(x@);
            }
        }
    }
    proof { assert(v@.subrange(0, n as int) =~= v@); }
    out
}


/// Strictly sorted strings are distinct.
pub proof fn lemma_strictly_sorted_distinct(s: Seq<Seq<char>>)
    requires
        strictly_sorted(s),
    ensures
        s.no_duplicates(),
{
    assert forall|i: int, j: int| 0 <= i < s.len() && 0 <= j < s.len() && i != j implies s[i] != s[j] by {
        if i < j {
            assert(seq_lt(s[i], s[j]));
            lemma_seq_lt_irreflexive(s[i]);
        } else {
            assert(seq_lt(s[j], s[i]));
            lemma_seq_lt_irreflexive(s[j]);
        }
    }
}

/// Two strictly sorted sequences of the same strings are the same.
pub proof fn lemma_strictly_sorted_unique(a: Seq<Seq<char>>, b: Seq<Seq<char>>)
    requires
        strictly_sorted(a),
        strictly_sorted(b),
        a.to_set() == b.to_set(),
    ensures
        a == b,
    decreases a.len() + b.len(),
{
    if a.len() == 0 {
        if b.len() > 0 {
            assert(b.to_set().contains(b[0]));
            assert(!a.to_set().contains(b[0]));
        }
        assert(a =~= b);
    } else if b.len() == 0 {
        assert(a.to_set().contains(a[0]));
        assert(!b.to_set().contains(a[0]));
    } else {
        let x = a.last();
        let y = b.last();
        assert(a.to_set().contains(x));
        assert(b.to_set().contains(y));
        let j = choose|j: int| 0 <= j < b.len() && b[j] == x;
        let i = choose|i: int| 0 <= i < a.len() && a[i] == y;
        if x != y {
            assert(j < b.len() - 1);
            assert(i < a.len() - 1);
            assert(seq_lt(b[j], b[b.len() - 1]));
            assert(seq_lt(a[i], a[a.len() - 1]));
            lemma_seq_lt_asymmetric(x, y);
        }
        let a2 = a.drop_last();
        let b2 = b.drop_last();
        assert forall|k: int, l: int| 0 <= k < l < a2.len() implies seq_lt(#[trigger] a2[k], #[trigger] a2[l]) by {
            assert(seq_lt(a[k], a[l]));
        }
        assert forall|k: int, l: int| 0 <= k < l < b2.len() implies seq_lt(#[trigger] b2[k], #[trigger] b2[l]) by {
            assert(seq_lt(b[k], b[l]));
        }
        assert forall|e: Seq<char>| a2.to_set().contains(e) <==> b2.to_set().contains(e) by {
            if a2.to_set().contains(e) {
                let k = choose|k: int| 0 <= k < a2.len() && a2[k] == e;
                assert(seq_lt(a[k], a[a.len() - 1]));
                lemma_seq_lt_irreflexive(x);
                assert(a.to_set().contains(e));
                let l = choose|l: int| 0 <= l < b.len() && b[l] == e;
                if l == b.len() - 1 {
                    assert(e == y);
                }
                assert(b2[l] == e);
                assert(b2.to_set().contains(e));
            }
            if b2.to_set().contains(e) {
                let l = choose|l: int| 0 <= l < b2.len() && b2[l] == e;
                assert(seq_lt(b[l], b[b.len() - 1]));
                lemma_seq_lt_irreflexive(y);
                assert(b.to_set().contains(e));
                let k = choose|k: int| 0 <= k < a.len() && a[k] == e;
                if k == a.len() - 1 {
                    assert(e == x);
                }
                assert(a2[k] == e);
                assert(a2.to_set().contains(e));
            }
        }
        assert(a2.to_set() =~= b2.to_set());
        lemma_strictly_sorted_unique(a2, b2);
        assert(a =~= a2.push(x));
        assert(b =~= b2.push(y));
    }
}

} // verus!
