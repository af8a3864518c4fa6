//! Names for Logseq pages and tags: kebab-case type tags, page slugs made
//! from descriptions, and decimal numbers.
use vstd::prelude::*;
use crate::text::push_char;
use crate::chars::{chars_of, string_of, byte_len, char_at_byte, char_at_byte_in, rfind, rfind_in, byte_len_in};

verus! {

// ─── Unicode case and classes ─────────────────────────────────────────────────

/// Whether a character has the Unicode `Uppercase` property.
pub uninterp spec fn uppercase(c: char) -> bool;

/// The Unicode lowercase mapping of a character (one or more characters).
pub uninterp spec fn lower_chars(c: char) -> Seq<char>;

/// The Unicode lowercase form of a text.
pub uninterp spec fn lowercase(s: Seq<char>) -> Seq<char>;

/// Whether a character is alphabetic or numeric in Unicode.
pub uninterp spec fn alphanumeric(c: char) -> bool;

/// The Unicode uppercase mapping of a character (one or more characters).
pub uninterp spec fn upper_chars(c: char) -> Seq<char>;

/// The uppercase mapping of a character.
///
/// Trusted: `char::to_uppercase` yields the Unicode uppercase mapping of
/// the character, collected here into a string; the result is named, not
/// stated.
#[verifier::external_body]
pub(crate) fn char_to_uppercase(c: char) -> (r: String)
    ensures
        r@ == upper_chars(c),
{
    c.to_uppercase().collect()
}

/// Whether a character is uppercase.
///
/// Trusted: `char::is_uppercase` tells whether the character has the
/// Unicode `Uppercase` property; the result is named, not stated.
#[verifier::external_body]
fn char_is_uppercase(c: char) -> (r: bool)
    ensures
        r == uppercase(c),
{
    c.is_uppercase()
}

/// The lowercase mapping of a character.
///
/// Trusted: `char::to_lowercase` yields the Unicode lowercase mapping of
/// the character, collected here into a string; the result is named, not
/// stated.
#[verifier::external_body]
fn char_to_lowercase(c: char) -> (r: String)
    ensures
        r@ == lower_chars(c),
{
    c.to_lowercase().collect()
}

/// The lowercase form of a text.
///
/// Trusted: `str::to_lowercase` gives the Unicode lowercase form of the
/// text; the result is named, not stated.
#[verifier::external_body]
pub(crate) fn str_to_lowercase(s: &str) -> (r: String)
    ensures
        r@ == lowercase(s@),
{
    s.to_lowercase()
}

/// Whether a character is alphanumeric.
///
/// Trusted: `char::is_alphanumeric` tells whether the character is
/// Unicode-alphabetic or Unicode-numeric; the result is named, not stated.
#[verifier::external_body]
fn char_is_alphanumeric(c: char) -> (r: bool)
    ensures
        r == alphanumeric(c),
{
    c.is_alphanumeric()
}

// ─── Type tags ────────────────────────────────────────────────────────────────

/// The kebab-case tag of a type name: each character lowercased, with a
/// hyphen before every uppercase character but the first.
pub open spec fn logseq_tag(s: Seq<char>) -> Seq<char>
    decreases s.len(),
{
    if s.len() == 0 {
        Seq::empty()
    } else {
        let i = s.len() - 1;
        logseq_tag(s.drop_last()) + (if uppercase(s[i]) && i > 0 { seq!['-'] } else { Seq::empty() }) + lower_chars(s[i])
    }
}

/// Converts a PascalCase or lowercase type name to a kebab-case Logseq tag.
pub fn type_to_logseq_tag(tname: &str) -> (r: String)
    ensures
        r@ == logseq_tag(tname@),
{
    let v = chars_of(tname);
    let mut out = String::new();
    for i in 0..v.len()
        invariant
            v@ == tname@,
            out@ == logseq_tag(v@.take(i as int)),
    {
        proof {
            assert(v@.take(i + 1).drop_last() =~= v@.take(i as int));
            assert(v@.take(i + 1)[i as int] == v@[i as int]);
        }
        let c = v[i];
        let ghost before = out@;
        if char_is_uppercase(c) && i > 0 {
            push_char(&mut out, '-');
        }
        let low = char_to_lowercase(c);
        out.append(low.as_str());
        proof {
            assert(out@ =~= before + (if uppercase(c) && i > 0 { seq!['-'] } else { Seq::<char>::empty() }) + lower_chars(c));
        }
    }
    proof { assert(v@.take(v.len() as int) =~= v@); }
    out
}

// ─── Slugs ────────────────────────────────────────────────────────────────────

/// The slug characters of a lowercased text and whether it ends in a
/// hyphen: alphanumeric characters are kept, and each run of other
/// characters after the first kept one becomes one hyphen.
pub open spec fn slug_chars(s: Seq<char>) -> (Seq<char>, bool)
    decreases s.len(),
{
    if s.len() == 0 {
        (Seq::empty(), false)
    } else {
        let (acc, hy) = slug_chars(s.drop_last());
        let c = s.last();
        if alphanumeric(c) {
            (acc.push(c), false)
        } else if !hy && acc.len() > 0 {
            (acc.push('-'), true)
        } else {
            (acc, hy)
        }
    }
}

/// `s` without its trailing hyphens.
pub open spec fn without_trailing_hyphens(s: Seq<char>) -> Seq<char>
    decreases s.len(),
{
    if s.len() > 0 && s.last() == '-' { without_trailing_hyphens(s.drop_last()) } else { s }
}

/// The slug before it is shortened.
pub open spec fn full_slug(desc: Seq<char>) -> Seq<char> {
    without_trailing_hyphens(slug_chars(lowercase(desc)).0)
}

/// The page slug of a description: its lowercase form, alphanumeric
/// characters kept and other runs made single hyphens, no hyphen at the
/// end; a slug of more than 120 characters is cut to its first 120 and then
/// back to its last hyphen, if that is not at the start.
pub open spec fn desc_slug(desc: Seq<char>) -> Seq<char> {
    let slug = full_slug(desc);
    if slug.len() <= 120 {
        slug
    } else {
        let t = slug.take(120);
        match rfind(t, "-"@) {
            Some(pos) => if pos > 0 { t.take(pos) } else { t },
            None => t,
        }
    }
}

/// The slug characters of a lowercased text.
pub(crate) fn slug_chars_of(low: &Vec<char>) -> (r: Vec<char>)
    ensures
        r@ == slug_chars(low@).0,
{
    let mut out: Vec<char> = Vec::new();
    let mut hy = false;
    for i in 0..low.len()
        invariant
            (out@, hy) == slug_chars(low@.take(i as int)),
    {
        proof {
            assert(low@.take(i + 1).drop_last() =~= low@.take(i as int));
            assert(low@.take(i + 1).last() == low@[i as int]);
        }
        let c = low[i];
        if char_is_alphanumeric(c) {
            out.push(c);
            hy = false;
        } else if !hy && out.len() > 0 {
            out.push('-');
            hy = true;
        }
    }
    proof { assert(low@.take(low.len() as int) =~= low@); }
    out
}

/// Where `v` ends without its trailing hyphens.
pub(crate) fn trailing_hyphens_end(v: &Vec<char>) -> (e: usize)
    ensures
        e <= v.len(),
        v@.subrange(0, e as int) == without_trailing_hyphens(v@),
{
    let mut e = v.len();
    proof { assert(v@.subrange(0, e as int) =~= v@); }
    while e > 0 && v[e - 1] == '-'
        invariant
            e <= v.len(),
            without_trailing_hyphens(v@) == without_trailing_hyphens(v@.subrange(0, e as int)),
        decreases e,
    {
        proof { assert(v@.subrange(0, e as int).drop_last() =~= v@.subrange(0, e - 1)); }
        e = e - 1;
    }
    e
}

/// Converts a description to a page slug of at most 120 characters, cut at
/// a word boundary.
pub fn description_to_slug(desc: &str) -> (r: String)
    ensures
        r@ == desc_slug(desc@),
{
    let low = chars_of(str_to_lowercase(desc).as_str());
    let raw = slug_chars_of(&low);
    let e = trailing_hyphens_end(&raw);
    if e <= 120 {
        return string_of(&raw, 0, e);
    }
    let k: usize = 120;
    proof { assert(raw@.subrange(0, e as int).take(k as int) =~= raw@.subrange(0, k as int)); }
    match rfind_in(&raw, 0, k, "-") {
        Some(pos) => {
            if pos > 0 {
                proof { assert(raw@.subrange(0, k as int).take(pos as int) =~= raw@.subrange(0, pos as int)); }
                string_of(&raw, 0, pos)
            } else {
                string_of(&raw, 0, k)
            }
        },
        None => string_of(&raw, 0, k),
    }
}

// ─── Journal slugs ────────────────────────────────────────────────────────────

/// The journal slug characters of a lowercased title and whether they end
/// in a hyphen: alphanumeric characters are kept, each run of white space
/// and hyphens after the first kept character becomes one hyphen, and any
/// other character is dropped.
pub open spec fn title_slug_chars(s: Seq<char>) -> (Seq<char>, bool)
    decreases s.len(),
{
    if s.len() == 0 {
        (Seq::empty(), false)
    } else {
        let (acc, hy) = title_slug_chars(s.drop_last());
        let c = s.last();
        if alphanumeric(c) {
            (acc.push(c), false)
        } else if crate::text::is_ws(c) || c == '-' {
            if !hy && acc.len() > 0 { (acc.push('-'), true) } else { (acc, hy) }
        } else {
            (acc, hy)
        }
    }
}

/// The file name slug of a journal title: lowercase, spaces made hyphens,
/// other characters that are not alphanumeric dropped, no hyphen at either
/// end and none doubled.
pub open spec fn title_slug(title: Seq<char>) -> Seq<char> {
    without_trailing_hyphens(title_slug_chars(lowercase(title)).0)
}

/// The journal slug characters of a lowercased title.
pub(crate) fn title_slug_chars_of(low: &Vec<char>) -> (r: Vec<char>)
    ensures
        r@ == title_slug_chars(low@).0,
{
    let mut out: Vec<char> = Vec::new();
    let mut hy = false;
    for i in 0..low.len()
        invariant
            (out@, hy) == title_slug_chars(low@.take(i as int)),
    {
        proof {
            assert(low@.take(i + 1).drop_last() =~= low@.take(i as int));
            assert(low@.take(i + 1).last() == low@[i as int]);
        }
        let c = low[i];
        if char_is_alphanumeric(c) {
            out.push(c);
            hy = false;
        } else if crate::text::is_whitespace(c) || c == '-' {
            if !hy && out.len() > 0 {
                out.push('-');
                hy = true;
            }
        }
    }
    proof { assert(low@.take(low.len() as int) =~= low@); }
    out
}

// ─── Decimal numbers ──────────────────────────────────────────────────────────

/// The decimal digit of `d`.
pub open spec fn digit(d: nat) -> char {
    if d == 0 { '0' } else if d == 1 { '1' } else if d == 2 { '2' } else if d == 3 { '3' } else if d == 4 { '4' }
    else if d == 5 { '5' } else if d == 6 { '6' } else if d == 7 { '7' } else if d == 8 { '8' } else { '9' }
}

/// The decimal representation of `n`.
pub open spec fn decimal(n: nat) -> Seq<char>
    decreases n,
{
    if n < 10 { seq![digit(n)] } else { decimal(n / 10).push(digit(n % 10)) }
}

/// The decimal digit of `d`.
fn digit_char(d: u128) -> (c: char)
    requires
        d < 10,
    ensures
        c == digit(d as nat),
{
    if d == 0 { '0' } else if d == 1 { '1' } else if d == 2 { '2' } else if d == 3 { '3' } else if d == 4 { '4' }
    else if d == 5 { '5' } else if d == 6 { '6' } else if d == 7 { '7' } else if d == 8 { '8' } else { '9' }
}

/// The decimal representation of `n`.
pub fn decimal_string(n: u128) -> (r: String)
    ensures
        r@ == decimal(n as nat),
    decreases n,
{
    if n < 10 {
        let mut s = String::new();
        push_char(&mut s, digit_char(n));
        proof { assert(s@ =~= seq![digit(n as nat)]); }
        s
    } else {
        let mut s = decimal_string(n / 10);
        push_char(&mut s, digit_char(n % 10));
        s
    }
}

// ─── Slug maps ────────────────────────────────────────────────────────────────

/// How many times `x` occurs in `s`.
pub open spec fn count_of(s: Seq<Seq<char>>, x: Seq<char>) -> nat
    decreases s.len(),
{
    if s.len() == 0 { 0 } else { count_of(s.drop_last(), x) + if s.last() == x { 1nat } else { 0nat } }
}

/// A base slug with a number appended: `b-n`.
pub open spec fn suffixed(b: Seq<char>, n: nat) -> Seq<char> {
    b + "-"@ + decimal(n)
}

/// `n` is the least number from 2 on whose suffixed slug is not taken.
pub open spec fn least_free(taken: Seq<Seq<char>>, b: Seq<char>, n: nat) -> bool {
    &&& n >= 2
    &&& !taken.contains(suffixed(b, n))
    &&& forall|m: nat| 2 <= m < n ==> taken.contains(#[trigger] suffixed(b, m))
}

/// No item before item `k` has its base slug.
pub open spec fn first_with_base(bases: Seq<Seq<char>>, k: int) -> bool {
    !bases.take(k).contains(bases[k])
}

/// The slug of item `k`, after the slugs `prev` of the items before it:
/// its base slug when no earlier item has that base; else its base
/// numbered `-n` with the least `n` from 2 on whose slug is neither the
/// base slug of an item nor the slug of an earlier one.
pub open spec fn slug_at(bases: Seq<Seq<char>>, prev: Seq<Seq<char>>, k: int) -> Seq<char> {
    if first_with_base(bases, k) {
        bases[k]
    } else {
        suffixed(bases[k], choose|n: nat| least_free(bases + prev, bases[k], n))
    }
}

/// The slugs of the first `k` items, each given after the ones before.
pub open spec fn slugs_upto(bases: Seq<Seq<char>>, k: nat) -> Seq<Seq<char>>
    decreases k,
{
    if k == 0 {
        Seq::empty()
    } else {
        let prev = slugs_upto(bases, (k - 1) as nat);
        prev.push(slug_at(bases, prev, k - 1))
    }
}

/// The slugs of pages with base slugs `bases`, in order.
pub open spec fn numbered_slugs(bases: Seq<Seq<char>>) -> Seq<Seq<char>> {
    slugs_upto(bases, bases.len())
}

/// A decimal digit gives back its value.
proof fn lemma_digit_injective(a: nat, b: nat)
    requires
        a < 10,
        b < 10,
        digit(a) == digit(b),
    ensures
        a == b,
{
}

/// Decimal representations are not empty, and have two digits or more
/// from ten on.
proof fn lemma_decimal_len(n: nat)
    ensures
        decimal(n).len() >= 1,
        n >= 10 ==> decimal(n).len() >= 2,
    decreases n,
{
    if n >= 10 {
        lemma_decimal_len(n / 10);
    }
}

/// Different numbers have different decimal representations.
proof fn lemma_decimal_injective(n: nat, m: nat)
    requires
        decimal(n) == decimal(m),
    ensures
        n == m,
    decreases n,
{
    lemma_decimal_len(n);
    lemma_decimal_len(m);
    if n < 10 && m < 10 {
        assert(decimal(n)[0] == digit(n));
        assert(decimal(m)[0] == digit(m));
        lemma_digit_injective(n, m);
    } else if n >= 10 && m >= 10 {
        let dn = decimal(n);
        assert(dn.last() == digit(n % 10));
        assert(decimal(m).last() == digit(m % 10));
        lemma_digit_injective(n % 10, m % 10);
        assert(dn.drop_last() =~= decimal(n / 10));
        assert(decimal(m).drop_last() =~= decimal(m / 10));
        lemma_decimal_injective(n / 10, m / 10);
    }
}

/// Different numbers give different suffixed slugs.
proof fn lemma_suffixed_injective(b: Seq<char>, n: nat, m: nat)
    requires
        suffixed(b, n) == suffixed(b, m),
    ensures
        n == m,
{
    let k = b.len() + 1;
    assert(suffixed(b, n).skip(k as int) =~= decimal(n)) by { reveal_strlit("-"); }
    assert(suffixed(b, m).skip(k as int) =~= decimal(m)) by { reveal_strlit("-"); }
    lemma_decimal_injective(n, m);
}

/// Some number from 2 to the number of taken slugs plus 2 gives a free
/// slug.
proof fn lemma_free_exists(taken: Seq<Seq<char>>, b: Seq<char>)
    ensures
        exists|n: nat| 2 <= n <= taken.len() + 2 && !taken.contains(#[trigger] suffixed(b, n)),
{
    let l = taken.len() as int;
    if forall|n: nat| 2 <= n <= taken.len() + 2 ==> taken.contains(#[trigger] suffixed(b, n)) {
        let x = vstd::set_lib::set_int_range(2, l + 3);
        vstd::set_lib::lemma_int_range(2, l + 3);
        let f = |i: int| suffixed(b, i as nat);
        assert(vstd::relations::injective_on(f, x)) by {
            assert forall|i: int, j: int| x.contains(i) && x.contains(j) && #[trigger] f(i) == #[trigger] f(j) implies i == j by {
                lemma_suffixed_injective(b, i as nat, j as nat);
            }
        }
        let y = x.map(f);
        vstd::set_lib::lemma_map_size(x, y, f);
        let ts = taken.to_set();
        assert(y.subset_of(ts)) by {
            assert forall|z: Seq<char>| y.contains(z) implies ts.contains(z) by {
                let i = choose|i: int| x.contains(i) && f(i) == z;
                assert(taken.contains(suffixed(b, i as nat)));
            }
        }
        taken.lemma_cardinality_of_set();
        vstd::set_lib::lemma_len_subset(y, ts);
        assert(false);
    }
}

/// Below a free number there is a least one.
proof fn lemma_least_below(taken: Seq<Seq<char>>, b: Seq<char>, n: nat)
    requires
        n >= 2,
        !taken.contains(suffixed(b, n)),
    ensures
        exists|k: nat| least_free(taken, b, k),
    decreases n,
{
    if forall|m: nat| 2 <= m < n ==> taken.contains(#[trigger] suffixed(b, m)) {
        assert(least_free(taken, b, n));
    } else {
        let m = choose|m: nat| 2 <= m < n && !taken.contains(#[trigger] suffixed(b, m));
        lemma_least_below(taken, b, m);
    }
}

/// There is exactly one least free number.
proof fn lemma_least_free(taken: Seq<Seq<char>>, b: Seq<char>, n: nat)
    ensures
        exists|k: nat| least_free(taken, b, k),
        least_free(taken, b, n) ==> (choose|k: nat| least_free(taken, b, k)) == n,
{
    lemma_free_exists(taken, b);
    let w = choose|w: nat| 2 <= w <= taken.len() + 2 && !taken.contains(#[trigger] suffixed(b, w));
    lemma_least_below(taken, b, w);
    if least_free(taken, b, n) {
        let c = choose|k: nat| least_free(taken, b, k);
        if c < n {
            assert(taken.contains(suffixed(b, c)));
        } else if n < c {
            assert(taken.contains(suffixed(b, n)));
        }
    }
}

/// The slugs of the first `k` items are `k` slugs, and each is the one
/// given after the slugs of the items before it.
proof fn lemma_upto(bases: Seq<Seq<char>>, k: nat)
    ensures
        slugs_upto(bases, k).len() == k,
        forall|i: int| 0 <= i < k ==> #[trigger] slugs_upto(bases, k)[i] == slug_at(bases, slugs_upto(bases, i as nat), i),
    decreases k,
{
    if k > 0 {
        lemma_upto(bases, (k - 1) as nat);
        let prev = slugs_upto(bases, (k - 1) as nat);
        assert forall|i: int| 0 <= i < k implies #[trigger] slugs_upto(bases, k)[i] == slug_at(bases, slugs_upto(bases, i as nat), i) by {
            if i < k - 1 {
                assert(slugs_upto(bases, k)[i] == prev[i]);
            }
        }
    }
}

/// The slugs of a shorter prefix begin the slugs of a longer one.
proof fn lemma_upto_prefix(bases: Seq<Seq<char>>, i: nat, k: nat)
    requires
        i <= k,
    ensures
        slugs_upto(bases, k).take(i as int) == slugs_upto(bases, i),
    decreases k,
{
    lemma_upto(bases, k);
    lemma_upto(bases, i);
    if i < k {
        lemma_upto_prefix(bases, i, (k - 1) as nat);
        lemma_upto(bases, (k - 1) as nat);
        assert(slugs_upto(bases, k).take(i as int) =~= slugs_upto(bases, (k - 1) as nat).take(i as int));
    } else {
        assert(slugs_upto(bases, k).take(i as int) =~= slugs_upto(bases, k));
    }
}

/// A numbered slug is the base numbered with the least free number, and
/// is neither a base slug nor an earlier slug.
proof fn lemma_numbered_slug(bases: Seq<Seq<char>>, prev: Seq<Seq<char>>, k: int)
    requires
        0 <= k < bases.len(),
        !first_with_base(bases, k),
    ensures
        exists|n: nat| least_free(bases + prev, bases[k], n) && slug_at(bases, prev, k) == suffixed(bases[k], n),
        !(bases + prev).contains(slug_at(bases, prev, k)),
{
    lemma_least_free(bases + prev, bases[k], 0);
    let n = choose|n: nat| least_free(bases + prev, bases[k], n);
    assert(least_free(bases + prev, bases[k], n) && slug_at(bases, prev, k) == suffixed(bases[k], n));
}

/// A numbered slug is longer than its base.
proof fn lemma_suffixed_longer(b: Seq<char>, n: nat)
    ensures
        suffixed(b, n).len() > b.len(),
{
    reveal_strlit("-");
}

/// Each page gets one slug.
pub proof fn lemma_numbered_len(bases: Seq<Seq<char>>)
    ensures
        numbered_slugs(bases).len() == bases.len(),
{
    lemma_upto(bases, bases.len());
}

/// Page slugs do not repeat: every page gets a slug of its own, so no page
/// file overwrites another.
pub proof fn law_page_slugs_distinct(bases: Seq<Seq<char>>)
    ensures
        forall|i: int, j: int| 0 <= i < j < numbered_slugs(bases).len()
            ==> #[trigger] numbered_slugs(bases)[i] != #[trigger] numbered_slugs(bases)[j],
{
    let all = numbered_slugs(bases);
    lemma_upto(bases, bases.len());
    assert forall|i: int, j: int| 0 <= i < j < all.len() implies #[trigger] all[i] != #[trigger] all[j] by {
        let pi = slugs_upto(bases, i as nat);
        let pj = slugs_upto(bases, j as nat);
        lemma_upto(bases, j as nat);
        lemma_upto_prefix(bases, i as nat, j as nat);
        assert(pj.take(i as int) == pi);
        assert(pj[i] == all[i]) by {
            assert(pj[i] == slug_at(bases, slugs_upto(bases, i as nat), i));
        }
        assert((bases + pj).contains(all[i])) by {
            assert((bases + pj)[bases.len() + i] == pj[i]);
        }
        if first_with_base(bases, j) {
            assert(all[j] == bases[j]);
            if first_with_base(bases, i) {
                assert(all[i] == bases[i]);
                assert(bases.take(j)[i] == bases[i]);
            } else {
                lemma_numbered_slug(bases, pi, i);
                assert((bases + pi)[j] == bases[j]);
            }
        } else {
            lemma_numbered_slug(bases, pj, j);
        }
    }
}

/// Some item other than item `k` has slug `t`.
pub open spec fn other_has_slug(bases: Seq<Seq<char>>, k: int, t: Seq<char>) -> bool {
    exists|j: int| 0 <= j < bases.len() && j != k && #[trigger] numbered_slugs(bases)[j] == t
}

/// Item `k` has its base slug numbered `-n`, and for every smaller `m`
/// from 2 on some other item has the base numbered `-m`.
pub open spec fn numbered_as(bases: Seq<Seq<char>>, k: int, n: nat) -> bool {
    &&& n >= 2
    &&& numbered_slugs(bases)[k] == suffixed(bases[k], n)
    &&& forall|m: nat| 2 <= m < n ==> other_has_slug(bases, k, #[trigger] suffixed(bases[k], m))
}

/// How page slugs are numbered: the first item with a base slug gets that
/// slug; a later item with the same base gets it numbered `-n`, where no
/// other item's slug is that numbered slug and, for every smaller `m` from
/// 2 on, some other item's slug is the base numbered `-m`.
pub proof fn law_slug_numbering(bases: Seq<Seq<char>>, k: int)
    requires
        0 <= k < bases.len(),
    ensures
        first_with_base(bases, k) ==> numbered_slugs(bases)[k] == bases[k],
        !first_with_base(bases, k) ==> exists|n: nat| numbered_as(bases, k, n),
{
    let all = numbered_slugs(bases);
    lemma_upto(bases, bases.len());
    let pk = slugs_upto(bases, k as nat);
    assert(all[k] == slug_at(bases, pk, k));
    if !first_with_base(bases, k) {
        lemma_numbered_slug(bases, pk, k);
        let n = choose|n: nat| least_free(bases + pk, bases[k], n) && slug_at(bases, pk, k) == suffixed(bases[k], n);
        lemma_upto(bases, k as nat);
        lemma_upto_prefix(bases, k as nat, bases.len());
        assert forall|m: nat| 2 <= m < n implies other_has_slug(bases, k, #[trigger] suffixed(bases[k], m)) by {
            let t = suffixed(bases[k], m);
            assert((bases + pk).contains(t));
            let w = choose|w: int| 0 <= w < (bases + pk).len() && (bases + pk)[w] == t;
            lemma_suffixed_longer(bases[k], m);
            if w < bases.len() {
                let p = |x: Seq<char>| x == t;
                assert(crate::seqs::any_of(bases, p)) by { assert(p(bases[w])); }
                crate::seqs::lemma_first_index_some(bases, p);
                let j = crate::seqs::first_index(bases, p).unwrap();
                assert(first_with_base(bases, j)) by {
                    if bases.take(j).contains(bases[j]) {
                        let q = choose|q: int| 0 <= q < bases.take(j).len() && bases.take(j)[q] == bases[j];
                        assert(p(bases[q]));
                    }
                }
                assert(all[j] == slug_at(bases, slugs_upto(bases, j as nat), j));
                assert(all[j] == t);
                assert(j != k);
            } else {
                let j = w - bases.len();
                assert(pk[j] == all[j]) by {
                    assert(all.take(k) == pk);
                    assert(all.take(k)[j] == all[j]);
                }
                assert(all[j] == t);
            }
        }
        assert(n >= 2 && all[k] == suffixed(bases[k], n));
        assert(numbered_as(bases, k, n));
    }
}

/// Whether a string occurs among the first `k` of `v`.
fn in_prefix(v: &Vec<String>, k: usize, x: &str) -> (r: bool)
    requires
        k <= v.len(),
    ensures
        r == crate::text::views(v@).take(k as int).contains(x@),
{
    let ghost vv = crate::text::views(v@);
    let mut i: usize = 0;
    while i < k
        invariant
            i <= k <= v.len(),
            vv == crate::text::views(v@),
            forall|j: int| 0 <= j < i ==> vv[j] != x@,
        decreases k - i,
    {
        if crate::text::str_eq(v[i].as_str(), x) {
            proof { assert(vv.take(k as int)[i as int] == x@); }
            return true;
        }
        i = i + 1;
    }
    proof {
        if vv.take(k as int).contains(x@) {
            let q = choose|q: int| 0 <= q < vv.take(k as int).len() && vv.take(k as int)[q] == x@;
            assert(vv[q] == x@);
        }
    }
    false
}

/// The slugs of pages with the given base slugs: the first item with a
/// base slug gets it; a later item with the same base gets it numbered
/// `-2`, `-3`, … with the least number whose slug is neither an item's
/// base slug nor an earlier item's slug.
pub fn number_slugs(bases: &Vec<String>) -> (r: Vec<String>)
    ensures
        crate::text::views(r@) == numbered_slugs(crate::text::views(bases@)),
        r.len() == bases.len(),
{
    let ghost bv = crate::text::views(bases@);
    let mut out: Vec<String> = Vec::new();
    for k in 0..bases.len()
        invariant
            bv == crate::text::views(bases@),
            crate::text::views(out@) == slugs_upto(bv, k as nat),
    {
        let ghost prev = crate::text::views(out@);
        let ghost taken = bv + prev;
        let b = &bases[k];
        proof { assert(bv[k as int] == b@); }
        let s = if !in_prefix(bases, k, b.as_str()) {
            b.clone()
        } else {
            proof { lemma_free_exists(taken, b@); }
            let mut n: u128 = 2;
            let mut cand = b.clone();
            cand.append("-");
            cand.append(decimal_string(n).as_str());
            while crate::seqs::contains_str(bases, cand.as_str()) || crate::seqs::contains_str(&out, cand.as_str())
                invariant
                    bv == crate::text::views(bases@),
                    prev == crate::text::views(out@),
                    taken == bv + prev,
                    2 <= n <= bases.len() as u128 + out.len() as u128 + 2,
                    cand@ == suffixed(b@, n as nat),
                    forall|m: nat| 2 <= m < n ==> taken.contains(#[trigger] suffixed(b@, m)),
                    exists|w: nat| 2 <= w <= taken.len() + 2 && !taken.contains(#[trigger] suffixed(b@, w)),
                decreases bases.len() as u128 + out.len() as u128 + 2 - n,
            {
                proof {
                    assert(taken.contains(cand@)) by {
                        if exists|i: int| 0 <= i < bases.len() && (#[trigger] bases@[i])@ == cand@ {
                            let i = choose|i: int| 0 <= i < bases.len() && (#[trigger] bases@[i])@ == cand@;
                            assert(taken[i] == cand@);
                        } else {
                            let i = choose|i: int| 0 <= i < out.len() && (#[trigger] out@[i])@ == cand@;
                            assert(taken[bv.len() + i] == cand@);
                        }
                    }
                    let w = choose|w: nat| 2 <= w <= taken.len() + 2 && !taken.contains(#[trigger] suffixed(b@, w));
                    if n as nat == taken.len() + 2 {
                        assert(taken.contains(suffixed(b@, w)));
                    }
                }
                n = n + 1;
                cand = b.clone();
                cand.append("-");
                cand.append(decimal_string(n).as_str());
            }
            proof {
                assert(!taken.contains(cand@)) by {
                    if taken.contains(cand@) {
                        let i = choose|i: int| 0 <= i < taken.len() && taken[i] == cand@;
                        if i < bv.len() {
                            assert(bases@[i]@ == cand@);
                        } else {
                            assert(out@[i - bv.len()]@ == cand@);
                        }
                    }
                }
                assert(least_free(taken, b@, n as nat));
                lemma_least_free(taken, b@, n as nat);
            }
            cand
        };
        out.push(s);
        proof { assert(crate::text::views(out@) =~= prev.push(s@)); }
    }
    proof { lemma_numbered_len(bv); }
    out
}

} // verus!
