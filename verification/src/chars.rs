//! Text as sequences of characters: trimming, lines, prefixes, searching,
//! and the UTF-8 byte lengths that byte offsets into a string go by.
//!
//! The executable functions work on a string's characters held in a
//! `Vec<char>` and name parts of it by index ranges `[lo, hi)`.
use vstd::prelude::*;
use crate::text::{is_ws, is_whitespace, skip_ws, take_word, first_token, push_char};
use crate::seqs::{first_index, last_index, is_first, is_last, lemma_first_index, lemma_last_index, lemma_first_index_none};

verus! {

// ─── Characters of a string ───────────────────────────────────────────────────

/// The characters of a string.
pub fn chars_of(s: &str) -> (r: Vec<char>)
    ensures
        r@ == s@,
{
    let n = s.unicode_len();
    let mut r: Vec<char> = Vec::new();
    let mut i: usize = 0;
    while i < n
        invariant
            n == s@.len(),
            i <= n,
            r@ == s@.take(i as int),
        decreases n - i,
    {
        let c = s.get_char(i);
        r.push(c);
        proof { assert(s@.take(i + 1) =~= s@.take(i as int).push(c)); }
        i = i + 1;
    }
    proof { assert(s@.take(n as int) =~= s@); }
    r
}

/// The string made of `v[lo..hi]`.
pub fn string_of(v: &Vec<char>, lo: usize, hi: usize) -> (r: String)
    requires
        lo <= hi <= v.len(),
    ensures
        r@ == v@.subrange(lo as int, hi as int),
{
    let mut r = String::new();
    let mut i: usize = lo;
    while i < hi
        invariant
            lo <= i <= hi <= v.len(),
            r@ == v@.subrange(lo as int, i as int),
        decreases hi - i,
    {
        push_char(&mut r, v[i]);
        proof { assert(v@.subrange(lo as int, i + 1) =~= v@.subrange(lo as int, i as int).push(v@[i as int])); }
        i = i + 1;
    }
    r
}

// ─── Trimming ─────────────────────────────────────────────────────────────────

/// `s` without its trailing white space.
pub open spec fn trim_end(s: Seq<char>) -> Seq<char>
    decreases s.len(),
{
    if s.len() > 0 && is_ws(s.last()) {
        trim_end(s.drop_last())
    } else {
        s
    }
}

/// `s` without leading and trailing white space (`str::trim`).
pub open spec fn trim(s: Seq<char>) -> Seq<char> {
    trim_end(skip_ws(s))
}

/// Where `v[lo..hi]` starts once leading white space is skipped.
pub fn skip_ws_from(v: &Vec<char>, lo: usize, hi: usize) -> (a: usize)
    requires
        lo <= hi <= v.len(),
    ensures
        lo <= a <= hi,
        v@.subrange(a as int, hi as int) == skip_ws(v@.subrange(lo as int, hi as int)),
        a < hi ==> !is_ws(v@[a as int]),
{
    let mut a = lo;
    while a < hi && is_whitespace(v[a])
        invariant
            lo <= a <= hi <= v.len(),
            skip_ws(v@.subrange(lo as int, hi as int)) == skip_ws(v@.subrange(a as int, hi as int)),
        decreases hi - a,
    {
        proof {
            let t = v@.subrange(a as int, hi as int);
            assert(t[0] == v@[a as int]);
            assert(t.drop_first() =~= v@.subrange(a + 1, hi as int));
        }
        a = a + 1;
    }
    proof {
        let t = v@.subrange(a as int, hi as int);
        if a < hi {
            assert(t[0] == v@[a as int]);
        } else {
            assert(t.len() == 0);
        }
    }
    a
}

/// Where `v[lo..hi]` ends once trailing white space is dropped.
pub fn trim_end_at(v: &Vec<char>, lo: usize, hi: usize) -> (b: usize)
    requires
        lo <= hi <= v.len(),
    ensures
        lo <= b <= hi,
        v@.subrange(lo as int, b as int) == trim_end(v@.subrange(lo as int, hi as int)),
{
    let mut b = hi;
    while b > lo && is_whitespace(v[b - 1])
        invariant
            lo <= b <= hi <= v.len(),
            trim_end(v@.subrange(lo as int, hi as int)) == trim_end(v@.subrange(lo as int, b as int)),
        decreases b - lo,
    {
        proof {
            let t = v@.subrange(lo as int, b as int);
            assert(t.last() == v@[b - 1]);
            assert(t.drop_last() =~= v@.subrange(lo as int, b - 1));
        }
        b = b - 1;
    }
    proof {
        let t = v@.subrange(lo as int, b as int);
        if b > lo {
            assert(t.last() == v@[b - 1]);
        }
    }
    b
}

/// The bounds of `v[lo..hi]` trimmed.
pub fn trim_bounds(v: &Vec<char>, lo: usize, hi: usize) -> (r: (usize, usize))
    requires
        lo <= hi <= v.len(),
    ensures
        lo <= r.0 <= r.1 <= hi,
        v@.subrange(r.0 as int, r.1 as int) == trim(v@.subrange(lo as int, hi as int)),
{
    let a = skip_ws_from(v, lo, hi);
    let b = trim_end_at(v, a, hi);
    (a, b)
}

// ─── Lines ────────────────────────────────────────────────────────────────────

/// The character is a line feed.
pub open spec fn is_nl() -> spec_fn(char) -> bool {
    |c: char| c == '\n'
}

/// `s` without one trailing carriage return.
pub open spec fn strip_cr(s: Seq<char>) -> Seq<char> {
    if s.len() > 0 && s.last() == '\r' { s.drop_last() } else { s }
}

/// The lines of `s` (`str::lines`): the pieces between line feeds, each
/// without a carriage return just before its line feed; a last piece that
/// is empty is no line.
pub open spec fn lines_of(s: Seq<char>) -> Seq<Seq<char>>
    decreases s.len(),
{
    if s.len() == 0 {
        Seq::empty()
    } else {
        match first_index(s, is_nl()) {
            Some(k) => if 0 <= k < s.len() {
                seq![strip_cr(s.take(k))] + lines_of(s.skip(k + 1))
            } else {
                Seq::empty()
            },
            None => seq![s],
        }
    }
}

/// The bounds in `v` of the lines of `v`.
pub fn line_bounds(v: &Vec<char>) -> (r: Vec<(usize, usize)>)
    ensures
        r.len() == lines_of(v@).len(),
        forall|i: int| 0 <= i < r.len() ==> (#[trigger] r@[i]).0 <= r@[i].1 <= v.len()
            && v@.subrange(r@[i].0 as int, r@[i].1 as int) == lines_of(v@)[i],
{
    let n = v.len();
    let mut r: Vec<(usize, usize)> = Vec::new();
    let mut pos: usize = 0;
    let ghost done: Seq<Seq<char>> = Seq::empty();
    proof { assert(v@.skip(0) =~= v@); }
    while pos < n
        invariant
            n == v.len(),
            pos <= n,
            lines_of(v@) == done + lines_of(v@.skip(pos as int)),
            r.len() == done.len(),
            forall|i: int| 0 <= i < r.len() ==> (#[trigger] r@[i]).0 <= r@[i].1 <= v.len()
                && v@.subrange(r@[i].0 as int, r@[i].1 as int) == done[i],
        decreases n - pos,
    {
        let ghost s = v@.skip(pos as int);
        let mut k = pos;
        while k < n && v[k] != '\n'
            invariant
                pos <= k <= n == v.len(),
                forall|j: int| pos <= j < k ==> v@[j] != '\n',
            decreases n - k,
        {
            k = k + 1;
        }
        let end = if k > pos && v[k - 1] == '\r' && k < n { k - 1 } else { k };
        proof {
            assert forall|j: int| 0 <= j < k - pos implies !is_nl()(#[trigger] s[j]) by {
                assert(s[j] == v@[pos + j]);
            }
            if k < n {
                assert(s[k - pos] == v@[k as int]);
                assert(is_first(s, is_nl(), k - pos));
                lemma_first_index(s, is_nl(), k - pos);
                assert(s.take(k - pos) =~= v@.subrange(pos as int, k as int));
                assert(s.skip(k - pos + 1) =~= v@.skip(k + 1));
                if k > pos && v@[k - 1] == '\r' {
                    assert(strip_cr(s.take(k - pos)) =~= v@.subrange(pos as int, end as int));
                } else {
                    assert(strip_cr(s.take(k - pos)) =~= v@.subrange(pos as int, end as int));
                }
            } else {
                lemma_first_index_none(s, is_nl());
                assert(s =~= v@.subrange(pos as int, end as int));
            }
        }
        r.push((pos, end));
        proof {
            if k < n {
                done = done.push(strip_cr(s.take(k - pos)));
                assert(lines_of(v@) == done + lines_of(v@.skip(k + 1))) by {
                    assert(lines_of(s) == seq![strip_cr(s.take(k - pos))] + lines_of(s.skip(k - pos + 1)));
                    assert(done.drop_last() + (seq![done.last()] + lines_of(v@.skip(k + 1))) =~= done + lines_of(v@.skip(k + 1)));
                }
            } else {
                done = done.push(s);
                assert(lines_of(s) == seq![s]);
                assert(v@.skip(n as int) =~= Seq::<char>::empty());
                assert(lines_of(v@) =~= done + lines_of(v@.skip(n as int)));
            }
        }
        pos = if k < n { k + 1 } else { n };
    }
    proof {
        assert(v@.skip(n as int) =~= Seq::<char>::empty());
        assert(lines_of(v@) =~= done);
    }
    r
}

// ─── Prefixes and searching ───────────────────────────────────────────────────

/// `s` starts with `p`.
pub open spec fn starts_with(s: Seq<char>, p: Seq<char>) -> bool {
    p.len() <= s.len() && s.take(p.len() as int) == p
}

/// `s` without the prefix `p`, if it starts with it (`str::strip_prefix`).
pub open spec fn strip_prefix(s: Seq<char>, p: Seq<char>) -> Option<Seq<char>> {
    if starts_with(s, p) { Some(s.skip(p.len() as int)) } else { None }
}

/// Whether `v[lo..hi]` starts with `p`.
pub fn has_prefix(v: &Vec<char>, lo: usize, hi: usize, p: &str) -> (r: bool)
    requires
        lo <= hi <= v.len(),
    ensures
        r == starts_with(v@.subrange(lo as int, hi as int), p@),
{
    let m = p.unicode_len();
    if m > hi - lo {
        return false;
    }
    let mut i: usize = 0;
    while i < m
        invariant
            m == p@.len(),
            lo + m <= hi <= v.len(),
            i <= m,
            forall|j: int| 0 <= j < i ==> v@[lo + j] == p@[j],
        decreases m - i,
    {
        if v[lo + i] != p.get_char(i) {
            proof {
                assert(v@.subrange(lo as int, hi as int).take(m as int)[i as int] == v@[lo + i]);
            }
            return false;
        }
        i = i + 1;
    }
    proof { assert(v@.subrange(lo as int, hi as int).take(m as int) =~= p@); }
    true
}

/// `p` occurs in `s` at position `k`.
pub open spec fn occurs_at(s: Seq<char>, p: Seq<char>, k: int) -> bool {
    0 <= k && k + p.len() <= s.len() && s.subrange(k, k + p.len()) == p
}

/// The positions of `s` where a piece may start, in order.
pub open spec fn positions(s: Seq<char>) -> Seq<int> {
    Seq::new((s.len() + 1) as nat, |k: int| k)
}

/// `p` occurs at the position.
pub open spec fn occurs_in(s: Seq<char>, p: Seq<char>) -> spec_fn(int) -> bool {
    |k: int| occurs_at(s, p, k)
}

/// The first position where `p` occurs in `s` (`str::find`).
pub open spec fn find(s: Seq<char>, p: Seq<char>) -> Option<int> {
    first_index(positions(s), occurs_in(s, p))
}

/// The last position where `p` occurs in `s` (`str::rfind`).
pub open spec fn rfind(s: Seq<char>, p: Seq<char>) -> Option<int> {
    last_index(positions(s), occurs_in(s, p))
}

/// Whether `p` occurs in `v[lo..hi]` at `lo + k`.
fn occurs_exec(v: &Vec<char>, lo: usize, hi: usize, k: usize, p: &Vec<char>) -> (r: bool)
    requires
        lo <= hi <= v.len(),
        k <= hi - lo,
    ensures
        r == occurs_at(v@.subrange(lo as int, hi as int), p@, k as int),
{
    let m = p.len();
    if m > hi - lo - k {
        return false;
    }
    let mut i: usize = 0;
    while i < m
        invariant
            m == p@.len(),
            lo + k + m <= hi <= v.len(),
            i <= m,
            forall|j: int| 0 <= j < i ==> v@[lo + k + j] == p@[j],
        decreases m - i,
    {
        if v[lo + k + i] != p[i] {
            proof {
                assert(v@.subrange(lo as int, hi as int).subrange(k as int, k + m)[i as int] == v@[lo + k + i]);
            }
            return false;
        }
        i = i + 1;
    }
    proof { assert(v@.subrange(lo as int, hi as int).subrange(k as int, k + m) =~= p@); }
    true
}

/// The first position in `v[lo..hi]` (counted from `lo`) where `p` occurs.
pub fn find_in(v: &Vec<char>, lo: usize, hi: usize, p: &str) -> (r: Option<usize>)
    requires
        lo <= hi <= v.len(),
    ensures
        match find(v@.subrange(lo as int, hi as int), p@) {
            Some(k) => r == Some(k as usize) && 0 <= k <= hi - lo,
            None => r is None,
        },
        r matches Some(k) ==> occurs_at(v@.subrange(lo as int, hi as int), p@, k as int),
{
    let pc = chars_of(p);
    let ghost s = v@.subrange(lo as int, hi as int);
    let ghost ps = positions(s);
    let n = hi - lo;
    let mut k: usize = 0;
    loop
        invariant
            lo <= hi <= v.len(),
            n == hi - lo,
            s == v@.subrange(lo as int, hi as int),
            ps == positions(s),
            pc@ == p@,
            k <= n,
            forall|j: int| 0 <= j < k ==> !occurs_in(s, p@)(#[trigger] ps[j]),
        decreases n - k,
    {
        if occurs_exec(v, lo, hi, k, &pc) {
            proof {
                assert(ps[k as int] == k);
                assert(is_first(ps, occurs_in(s, p@), k as int));
                lemma_first_index(ps, occurs_in(s, p@), k as int);
            }
            return Some(k);
        }
        proof { assert(ps[k as int] == k); }
        if k == n {
            proof { lemma_first_index_none(ps, occurs_in(s, p@)); }
            return None;
        }
        k = k + 1;
    }
}

/// The last position in `v[lo..hi]` (counted from `lo`) where `p` occurs.
pub fn rfind_in(v: &Vec<char>, lo: usize, hi: usize, p: &str) -> (r: Option<usize>)
    requires
        lo <= hi <= v.len(),
    ensures
        match rfind(v@.subrange(lo as int, hi as int), p@) {
            Some(k) => r == Some(k as usize) && 0 <= k <= hi - lo,
            None => r is None,
        },
        r matches Some(k) ==> occurs_at(v@.subrange(lo as int, hi as int), p@, k as int),
{
    let pc = chars_of(p);
    let ghost s = v@.subrange(lo as int, hi as int);
    let ghost ps = positions(s);
    let n = hi - lo;
    let mut k: usize = n;
    loop
        invariant
            lo <= hi <= v.len(),
            n == hi - lo,
            s == v@.subrange(lo as int, hi as int),
            ps == positions(s),
            pc@ == p@,
            k <= n,
            forall|j: int| k < j < ps.len() ==> !occurs_in(s, p@)(#[trigger] ps[j]),
        decreases k,
    {
        if occurs_exec(v, lo, hi, k, &pc) {
            proof {
                assert(ps[k as int] == k);
                assert(is_last(ps, occurs_in(s, p@), k as int));
                lemma_last_index(ps, occurs_in(s, p@), k as int);
            }
            return Some(k);
        }
        proof { assert(ps[k as int] == k); }
        if k == 0 {
            proof {
                assert(!crate::seqs::any_of(ps, occurs_in(s, p@)));
            }
            return None;
        }
        k = k - 1;
    }
}

// ─── Tokens ───────────────────────────────────────────────────────────────────

/// The bounds of the first white-space-delimited token of `v[lo..hi]`.
pub fn first_token_bounds(v: &Vec<char>, lo: usize, hi: usize) -> (r: Option<(usize, usize)>)
    requires
        lo <= hi <= v.len(),
    ensures
        match first_token(v@.subrange(lo as int, hi as int)) {
            Some(t) => r matches Some((a, b)) && lo <= a < b <= hi && v@.subrange(a as int, b as int) == t
                && skip_ws(v@.subrange(lo as int, hi as int)) == v@.subrange(a as int, hi as int),
            None => r is None,
        },
{
    let a = skip_ws_from(v, lo, hi);
    if a == hi {
        proof { assert(v@.subrange(a as int, hi as int).len() == 0); }
        return None;
    }
    let mut b = a;
    proof {
        assert(v@.subrange(a as int, a as int) =~= Seq::<char>::empty());
        assert(take_word(v@.subrange(a as int, hi as int)) =~= v@.subrange(a as int, a as int) + take_word(v@.subrange(a as int, hi as int)));
    }
    while b < hi && !is_whitespace(v[b])
        invariant
            lo <= a <= b <= hi <= v.len(),
            take_word(v@.subrange(a as int, hi as int)) == v@.subrange(a as int, b as int) + take_word(v@.subrange(b as int, hi as int)),
        decreases hi - b,
    {
        proof {
            let t = v@.subrange(b as int, hi as int);
            assert(t[0] == v@[b as int]);
            assert(t.drop_first() =~= v@.subrange(b + 1, hi as int));
            assert(take_word(t) == seq![v@[b as int]] + take_word(t.drop_first()));
            assert(v@.subrange(a as int, b + 1) =~= v@.subrange(a as int, b as int) + seq![v@[b as int]]);
        }
        b = b + 1;
    }
    proof {
        let t = v@.subrange(b as int, hi as int);
        if b < hi {
            assert(t[0] == v@[b as int]);
        }
        assert(take_word(v@.subrange(a as int, hi as int)) =~= v@.subrange(a as int, b as int));
        let u = v@.subrange(a as int, hi as int);
        assert(u[0] == v@[a as int]);
        assert(!is_ws(u[0]));
        assert(take_word(u) == seq![u[0]] + take_word(u.drop_first()));
    }
    Some((a, b))
}

// ─── UTF-8 byte lengths ───────────────────────────────────────────────────────

/// The number of bytes UTF-8 encodes a character in.
pub open spec fn width(c: char) -> int {
    let n = c as int;
    if n < 0x80 { 1 } else if n < 0x800 { 2 } else if n < 0x10000 { 3 } else { 4 }
}

/// The number of bytes UTF-8 encodes `s` in.
pub open spec fn byte_len(s: Seq<char>) -> int
    decreases s.len(),
{
    if s.len() == 0 { 0 } else { byte_len(s.drop_last()) + width(s.last()) }
}

/// The byte length of `v[lo..hi]`.
pub fn byte_len_in(v: &Vec<char>, lo: usize, hi: usize) -> (r: u128)
    requires
        lo <= hi <= v.len(),
    ensures
        r == byte_len(v@.subrange(lo as int, hi as int)),
        r <= 4 * (hi - lo),
{
    let ghost s = v@.subrange(lo as int, hi as int);
    let mut k: usize = 0;
    let mut acc: u128 = 0;
    proof { assert(s.take(0) =~= Seq::<char>::empty()); }
    while k < hi - lo
        invariant
            lo <= hi <= v.len(),
            s == v@.subrange(lo as int, hi as int),
            k <= hi - lo,
            acc == byte_len(s.take(k as int)),
            acc <= 4 * k,
        decreases hi - lo - k,
    {
        let w = char_width(v[lo + k]) as u128;
        proof {
            assert(s.take(k + 1).drop_last() =~= s.take(k as int));
            assert(s.take(k + 1).last() == v@[lo + k]);
        }
        acc = acc + w;
        k = k + 1;
    }
    proof { assert(s.take(k as int) =~= s); }
    acc
}

/// The UTF-8 width of a character.
pub fn char_width(c: char) -> (r: usize)
    ensures
        r == width(c),
        1 <= r <= 4,
{
    let n = c as u32;
    if n < 0x80 { 1 } else if n < 0x800 { 2 } else if n < 0x10000 { 3 } else { 4 }
}

/// The byte length grows with every character.
pub proof fn lemma_byte_len_grows(s: Seq<char>, i: int, j: int)
    requires
        0 <= i <= j <= s.len(),
    ensures
        byte_len(s.take(i)) + (j - i) <= byte_len(s.take(j)),
    decreases j - i,
{
    if i < j {
        lemma_byte_len_grows(s, i, j - 1);
        assert(s.take(j).drop_last() =~= s.take(j - 1));
    }
}

/// The character position of the byte offset `b` of `s`, if a character
/// starts there (or `b` is the end).
pub open spec fn char_at_byte(s: Seq<char>, b: int) -> Option<int> {
    if exists|k: int| 0 <= k <= s.len() && byte_len(#[trigger] s.take(k)) == b {
        Some(choose|k: int| 0 <= k <= s.len() && byte_len(#[trigger] s.take(k)) == b)
    } else {
        None
    }
}

/// A character position is determined by its byte offset.
pub proof fn lemma_char_at_byte(s: Seq<char>, k: int)
    requires
        0 <= k <= s.len(),
    ensures
        char_at_byte(s, byte_len(s.take(k))) == Some(k),
{
    let b = byte_len(s.take(k));
    assert(0 <= k <= s.len() && byte_len(s.take(k)) == b);
    let c = choose|c: int| 0 <= c <= s.len() && byte_len(#[trigger] s.take(c)) == b;
    if c < k {
        lemma_byte_len_grows(s, c, k);
    } else if k < c {
        lemma_byte_len_grows(s, k, c);
    }
}

/// The character position of byte offset `b` of `v[lo..hi]`, counted from
/// `lo`, if a character starts there (or `b` is the end).
pub fn char_at_byte_in(v: &Vec<char>, lo: usize, hi: usize, b: u128) -> (r: Option<usize>)
    requires
        lo <= hi <= v.len(),
    ensures
        match char_at_byte(v@.subrange(lo as int, hi as int), b as int) {
            Some(k) => r == Some(k as usize) && 0 <= k <= hi - lo,
            None => r is None,
        },
{
    let ghost s = v@.subrange(lo as int, hi as int);
    let mut k: usize = 0;
    let mut acc: u128 = 0;
    proof { assert(s.take(0) =~= Seq::<char>::empty()); }
    while k < hi - lo && acc < b
        invariant
            lo <= hi <= v.len(),
            s == v@.subrange(lo as int, hi as int),
            k <= hi - lo,
            acc == byte_len(s.take(k as int)),
            acc <= b,
        decreases hi - lo - k,
    {
        let w = char_width(v[lo + k]) as u128;
        proof {
            assert(s.take(k + 1).drop_last() =~= s.take(k as int));
            assert(s.take(k + 1).last() == v@[lo + k]);
        }
        if w > b - acc {
            proof {
                assert forall|c: int| 0 <= c <= s.len() implies byte_len(#[trigger] s.take(c)) != b by {
                    if c <= k {
                        lemma_byte_len_grows(s, c, k as int);
                    } else {
                        lemma_byte_len_grows(s, k + 1, c);
                    }
                }
            }
            return None;
        }
        acc = acc + w;
        k = k + 1;
    }
    if acc == b {
        proof { lemma_char_at_byte(s, k as int); }
        Some(k)
    } else {
        proof {
            assert forall|c: int| 0 <= c <= s.len() implies byte_len(#[trigger] s.take(c)) != b by {
                if c <= k {
                    lemma_byte_len_grows(s, c, k as int);
                } else {
                    assert(k == s.len());
                }
            }
        }
        None
    }
}

/// A piece without a line feed, a line feed and the rest: the piece is the
/// first line.
pub proof fn lemma_lines_cons(a: Seq<char>, b: Seq<char>)
    requires
        !a.contains('\n'),
    ensures
        lines_of(a + "\n"@ + b) == seq![strip_cr(a)] + lines_of(b),
{
    reveal_strlit("\n");
    let s = a + "\n"@ + b;
    let k = a.len() as int;
    assert(s[k] == '\n');
    assert forall|j: int| 0 <= j < k implies !is_nl()(#[trigger] s[j]) by {
        assert(s[j] == a[j]);
    }
    assert(is_first(s, is_nl(), k));
    lemma_first_index(s, is_nl(), k);
    assert(s.take(k) =~= a);
    assert(s.skip(k + 1) =~= b);
}

proof fn lemma_skip_ws_len(s: Seq<char>)
    ensures
        skip_ws(s).len() <= s.len(),
        skip_ws(s).len() == s.len() ==> skip_ws(s) == s,
    decreases s.len(),
{
    if s.len() > 0 && is_ws(s[0]) {
        lemma_skip_ws_len(s.drop_first());
    }
}

proof fn lemma_trim_end_len(s: Seq<char>)
    ensures
        trim_end(s).len() <= s.len(),
    decreases s.len(),
{
    if s.len() > 0 && is_ws(s.last()) {
        lemma_trim_end_len(s.drop_last());
    }
}

/// A trimmed text does not end in white space.
pub proof fn lemma_trimmed_end(x: Seq<char>)
    requires
        trim(x) == x,
    ensures
        x.len() == 0 || !is_ws(x.last()),
{
    let y = skip_ws(x);
    lemma_skip_ws_len(x);
    lemma_trim_end_len(y);
    assert(y == x);
    if x.len() > 0 && is_ws(x.last()) {
        lemma_trim_end_len(x.drop_last());
    }
}

} // verus!
