//! The journal: dated note files named from their titles, the calendar
//! date of a day count, reading an entry's date and title back from its
//! file name, and the events of creating, listing and opening entries.
use vstd::prelude::*;
use crate::text::{str_eq, views, seq_leq, sort_strings};
use crate::chars::{chars_of, string_of, byte_len, byte_len_in, char_at_byte, char_at_byte_in, rfind, rfind_in, positions, occurs_in,
    lemma_char_at_byte, lemma_byte_len_grows};
use crate::seqs::lemma_last_index;
use crate::slug::{decimal, title_slug, lowercase, str_to_lowercase, title_slug_chars_of, trailing_hyphens_end, without_trailing_hyphens,
    slug_chars};
use crate::calendar::{zero_pad, padded};
use crate::payload::{Json, JView, OutEvent, EventSpec, jv, pv, appended, lemma_appended_none, lemma_appended_push, emit, js,
    payload1, payload2, payload3};

verus! {

// ─── Calendar ─────────────────────────────────────────────────────────────────

/// `year` is a leap year of the Gregorian calendar.
pub open spec fn leap(year: int) -> bool {
    (year % 4 == 0 && year % 100 != 0) || year % 400 == 0
}

/// Whether `year` is a leap year.
pub fn is_leap(year: u32) -> (r: bool)
    ensures
        r == leap(year as int),
{
    (year % 4 == 0 && year % 100 != 0) || year % 400 == 0
}

/// The number of days of a year.
pub open spec fn year_len(year: int) -> int {
    if leap(year) { 366 } else { 365 }
}

/// The year `rem` days after the start of `year` falls in, and the day of
/// that year (from 0).
pub open spec fn year_of(rem: int, year: int) -> (int, int)
    decreases rem,
{
    if rem < year_len(year) { (year, rem) } else { year_of(rem - year_len(year), year + 1) }
}

/// The number of days of month `m` (1 to 12).
pub open spec fn month_len(is_leap_year: bool, m: int) -> int {
    if m == 2 {
        if is_leap_year { 29 } else { 28 }
    } else if m == 4 || m == 6 || m == 9 || m == 11 {
        30
    } else {
        31
    }
}

/// The month `rem` days after the start of month `m` falls in, and the
/// day of that month (from 0).
pub open spec fn month_of(rem: int, is_leap_year: bool, m: int) -> (int, int)
    decreases 13 - m,
{
    if m > 12 || rem < month_len(is_leap_year, m) {
        (m, rem)
    } else {
        month_of(rem - month_len(is_leap_year, m), is_leap_year, m + 1)
    }
}

/// The calendar date (year, month, day) `days` days after 1970-01-01.
pub open spec fn date_of_days(days: int) -> (int, int, int) {
    let (y, r) = year_of(days, 1970);
    let (m, d) = month_of(r, leap(y), 1);
    (y, m, d + 1)
}

/// The date `YYYY-MM-DD` of a day count since 1970-01-01.
pub open spec fn day_text(days: int) -> Seq<char> {
    let (y, m, d) = date_of_days(days);
    zero_pad(decimal(y as nat), 4) + "-"@ + zero_pad(decimal(m as nat), 2) + "-"@ + zero_pad(decimal(d as nat), 2)
}

/// The year of a day count is at least the starting year, and the day
/// within it is within the year.
pub proof fn lemma_year_of(rem: int, year: int)
    requires
        rem >= 0,
    ensures
        year_of(rem, year).0 >= year,
        0 <= year_of(rem, year).1 < year_len(year_of(rem, year).0),
    decreases rem,
{
    if rem >= year_len(year) {
        lemma_year_of(rem - year_len(year), year + 1);
    }
}

/// The month of a day is between the starting month and 13, and the day
/// within it is no more than the starting day.
proof fn lemma_month_of(rem: int, is_leap_year: bool, m: int)
    requires
        rem >= 0,
        1 <= m <= 13,
    ensures
        m <= month_of(rem, is_leap_year, m).0 <= 13,
        0 <= month_of(rem, is_leap_year, m).1 <= rem,
    decreases 13 - m,
{
    if !(m > 12 || rem < month_len(is_leap_year, m)) {
        lemma_month_of(rem - month_len(is_leap_year, m), is_leap_year, m + 1);
    }
}

/// The number of days of a year.
fn days_in_year(year: u32) -> (r: u64)
    ensures
        r == year_len(year as int),
{
    if is_leap(year) { 366 } else { 365 }
}

/// The date `YYYY-MM-DD` of a day count since 1970-01-01.
pub fn epoch_days_to_date(days: u64) -> (r: String)
    requires
        year_of(days as int, 1970).0 <= u32::MAX,
    ensures
        r@ == day_text(days as int),
{
    let ghost target = year_of(days as int, 1970);
    proof { lemma_year_of(days as int, 1970); }
    let mut remaining: u64 = days;
    let mut year: u32 = 1970;
    while remaining >= days_in_year(year)
        invariant
            year_of(remaining as int, year as int) == target,
            target.0 <= u32::MAX,
            year <= target.0,
        decreases remaining,
    {
        let n = days_in_year(year);
        proof { lemma_year_of(remaining - n, year + 1); }
        remaining = remaining - n;
        year = year + 1;
    }
    assert(year_of(remaining as int, year as int) == (year as int, remaining as int));
    let lp = is_leap(year);
    let month_days: [u64; 12] = if lp {
        [31, 29, 31, 30, 31, 30, 31, 31, 30, 31, 30, 31]
    } else {
        [31, 28, 31, 30, 31, 30, 31, 31, 30, 31, 30, 31]
    };
    proof {
        assert forall|k: int| 0 <= k < 12 implies month_days@[k] == month_len(lp, k + 1) by {}
        lemma_month_of(remaining as int, lp, 1);
    }
    let ghost target_m = month_of(remaining as int, lp, 1);
    let mut month: u32 = 1;
    let mut i: usize = 0;
    while i < 12 && remaining >= month_days[i]
        invariant
            i <= 12,
            month == i + 1,
            forall|k: int| 0 <= k < 12 ==> month_days@[k] == month_len(lp, k + 1),
            month_of(remaining as int, lp, month as int) == target_m,
            remaining < 366,
        decreases 12 - i,
    {
        remaining = remaining - month_days[i];
        month = month + 1;
        i = i + 1;
    }
    let day = remaining as u32 + 1;
    let mut r = padded(year as u64, 4);
    r.append("-");
    let m = padded(month as u64, 2);
    r.append(m.as_str());
    r.append("-");
    let d = padded(day as u64, 2);
    r.append(d.as_str());
    r
}

/// Today's date `YYYY-MM-DD` from the seconds since the Unix epoch.
pub fn today_str(now_secs: u64) -> (r: String)
    requires
        year_of((now_secs / 86400) as int, 1970).0 <= u32::MAX,
    ensures
        r@ == day_text((now_secs / 86400) as int),
{
    epoch_days_to_date(now_secs / 86400)
}

// ─── Entry names ──────────────────────────────────────────────────────────────

/// Converts a title to a file name slug: lowercase, spaces made hyphens,
/// other characters that are not alphanumeric dropped (no hyphen at either
/// end, none doubled).
pub fn slugify(title: &str) -> (r: String)
    ensures
        r@ == title_slug(title@),
{
    let low = str_to_lowercase(title);
    let v = chars_of(low.as_str());
    let s = title_slug_chars_of(&v);
    let e = trailing_hyphens_end(&s);
    string_of(&s, 0, e)
}

/// The extension of a new entry: `txt` when asked for (with or without a
/// leading dot), else `md`.
pub open spec fn entry_ext(ext: Seq<char>) -> Seq<char> {
    if without_leading_dots(ext) == "txt"@ { "txt"@ } else { "md"@ }
}

/// `s` without its leading dots.
pub open spec fn without_leading_dots(s: Seq<char>) -> Seq<char>
    decreases s.len(),
{
    if s.len() > 0 && s[0] == '.' { without_leading_dots(s.drop_first()) } else { s }
}

/// The title of a new entry: the given one, or the date when it is empty.
pub open spec fn entry_title(title: Seq<char>, date: Seq<char>) -> Seq<char> {
    if title.len() == 0 { date } else { title }
}

/// The file name of a new entry: its date, the slug of its title and its
/// extension.
pub open spec fn entry_file_name(title: Seq<char>, ext: Seq<char>, date: Seq<char>) -> Seq<char> {
    date + "-"@ + title_slug(entry_title(title, date)) + "."@ + entry_ext(ext)
}

/// The file name and the effective title of a new entry dated `date`.
pub fn new_entry_name(title: &str, ext: &str, date: &str) -> (r: (String, String))
    ensures
        r.0@ == entry_file_name(title@, ext@, date@),
        r.1@ == entry_title(title@, date@),
{
    let v = chars_of(ext);
    let mut a: usize = 0;
    proof { assert(v@.subrange(0, v.len() as int) =~= ext@); }
    while a < v.len() && v[a] == '.'
        invariant
            a <= v.len(),
            without_leading_dots(v@.subrange(a as int, v.len() as int)) == without_leading_dots(ext@),
        decreases v.len() - a,
    {
        proof { assert(v@.subrange(a as int, v.len() as int).drop_first() =~= v@.subrange(a + 1, v.len() as int)); }
        a = a + 1;
    }
    let bare = string_of(&v, a, v.len());
    let ext_name = if str_eq(bare.as_str(), "txt") { "txt" } else { "md" };
    let effective = if title.unicode_len() == 0 { date.to_owned() } else { title.to_owned() };
    let slug = slugify(effective.as_str());
    let mut name = date.to_owned();
    name.append("-");
    name.append(slug.as_str());
    name.append(".");
    name.append(ext_name);
    (name, effective)
}

/// The stem of a file name: what stands before its last dot, or all of it.
pub open spec fn stem_of(f: Seq<char>) -> Seq<char> {
    match rfind(f, "."@) {
        Some(k) => f.take(k),
        None => f,
    }
}

/// The text has the shape of a date: a dash at positions 4 and 7 and an
/// ASCII digit everywhere else.
pub open spec fn date_pattern(c: Seq<char>) -> bool {
    forall|i: int| 0 <= i < c.len() ==> if i == 4 || i == 7 { c[i] == '-' } else { '0' <= #[trigger] c[i] <= '9' }
}

/// `s` with every hyphen made a space.
pub open spec fn hyphens_to_spaces(s: Seq<char>) -> Seq<char> {
    s.map_values(|c: char| if c == '-' { ' ' } else { c })
}

/// The title and date of an entry read from its file name
/// (`YYYY-MM-DD[-slug].ext`): the date is the first ten characters of the
/// stem, which must be date-shaped; the title is what follows the
/// separator with hyphens made spaces, or the date when nothing follows.
/// A name of another shape gives none.
pub open spec fn entry_of(f: Seq<char>) -> Option<(Seq<char>, Seq<char>)> {
    let st = stem_of(f);
    if st.len() < 10 || !date_pattern(st.take(10)) {
        None
    } else if st.len() > 11 {
        Some((hyphens_to_spaces(st.skip(11)), st.take(10)))
    } else {
        Some((st.take(10), st.take(10)))
    }
}

/// The stem of a file name, as characters.
fn stem_chars(filename: &str) -> (r: Vec<char>)
    ensures
        r@ == stem_of(filename@),
{
    let v = chars_of(filename);
    proof { assert(v@.subrange(0, v.len() as int) =~= v@); }
    match rfind_in(&v, 0, v.len(), ".") {
        Some(k) => {
            let s = string_of(&v, 0, k);
            proof { assert(v@.subrange(0, k as int) =~= filename@.take(k as int)); }
            chars_of(s.as_str())
        },
        None => v,
    }
}

/// Whether `v[..k]` is date-shaped.
fn date_shaped(v: &Vec<char>, k: usize) -> (r: bool)
    requires
        k <= v.len(),
    ensures
        r == date_pattern(v@.take(k as int)),
{
    let mut i: usize = 0;
    while i < k
        invariant
            i <= k <= v.len(),
            forall|j: int| 0 <= j < i ==> if j == 4 || j == 7 { v@[j] == '-' } else { '0' <= #[trigger] v@[j] <= '9' },
        decreases k - i,
    {
        let c = v[i];
        let ok = if i == 4 || i == 7 { c == '-' } else { '0' <= c && c <= '9' };
        if !ok {
            proof { assert(v@.take(k as int)[i as int] == c); }
            return false;
        }
        i = i + 1;
    }
    proof {
        assert forall|j: int| 0 <= j < v@.take(k as int).len() implies
            (if j == 4 || j == 7 { v@.take(k as int)[j] == '-' } else { '0' <= #[trigger] v@.take(k as int)[j] <= '9' }) by {
            assert(v@.take(k as int)[j] == v@[j]);
        }
    }
    true
}

/// Reads an entry's title and date from its file name
/// (`YYYY-MM-DD[-slug].ext`).
pub fn parse_entry(filename: &str) -> (r: Option<(String, String)>)
    ensures
        match r {
            Some((t, d)) => entry_of(filename@) == Some((t@, d@)),
            None => entry_of(filename@) is None,
        },
{
    let st = stem_chars(filename);
    if st.len() < 10 {
        return None;
    }
    let k: usize = 10;
    if !date_shaped(&st, k) {
        return None;
    }
    let date = string_of(&st, 0, k);
    proof { assert(st@.subrange(0, 10) =~= st@.take(10)); }
    if st.len() > 11 {
        let j: usize = 11;
        let mut title = String::new();
        let mut p: usize = j;
        while p < st.len()
            invariant
                j <= p <= st.len(),
                title@ == hyphens_to_spaces(st@.subrange(j as int, p as int)),
            decreases st.len() - p,
        {
            let c = st[p];
            crate::text::push_char(&mut title, if c == '-' { ' ' } else { c });
            proof {
                assert(st@.subrange(j as int, p + 1) =~= st@.subrange(j as int, p as int).push(c));
                assert(hyphens_to_spaces(st@.subrange(j as int, p + 1)) =~= hyphens_to_spaces(st@.subrange(j as int, p as int)).push(if c == '-' { ' ' } else { c }));
            }
            p = p + 1;
        }
        proof { assert(st@.subrange(j as int, st.len() as int) =~= st@.skip(j as int)); }
        Some((title, date))
    } else {
        let t = date.clone();
        Some((t, date))
    }
}

// ─── Journal events ───────────────────────────────────────────────────────────

/// The module that records journal events.
pub open spec fn journal_module() -> Seq<char> {
    "journal"@
}

/// Records one journal event.
fn emit_journal(outbox: &mut Vec<OutEvent>, etype: &str, cid: &str, payload: Vec<(String, Json)>)
    ensures
        appended(old(outbox)@, final(outbox)@, journal_module(), cid@, seq![(etype@, pv(payload@))]),
{
    let ghost start = outbox@;
    proof { lemma_appended_none(start, journal_module(), cid@); }
    emit(outbox, etype, "journal", cid, payload);
    proof {
        lemma_appended_push(start, start, outbox@, journal_module(), cid@, Seq::empty(), (etype@, pv(payload@)));
        assert(Seq::<EventSpec>::empty().push((etype@, pv(payload@))) =~= seq![(etype@, pv(payload@))]);
    }
}

/// The fields of an entry: file name, title and date.
pub open spec fn entry_fields(filename: Seq<char>, title: Seq<char>, date: Seq<char>) -> Seq<(Seq<char>, JView)> {
    seq![("filename"@, JView::Str(filename)), ("title"@, JView::Str(title)), ("created_at"@, JView::Str(date))]
}

/// Records a new entry.
pub fn entry_created(filename: &str, title: &str, date: &str, cid: &str, outbox: &mut Vec<OutEvent>)
    ensures
        appended(old(outbox)@, final(outbox)@, journal_module(), cid@,
            seq![("JournalEntryCreated"@, entry_fields(filename@, title@, date@))]),
{
    emit_journal(outbox, "JournalEntryCreated", cid, payload3("filename", js(filename), "title", js(title), "created_at", js(date)));
}

/// Records a request to list the entries.
pub fn list_requested(cid: &str, outbox: &mut Vec<OutEvent>)
    ensures
        appended(old(outbox)@, final(outbox)@, journal_module(), cid@, seq![("JournalListRequested"@, Seq::empty())]),
{
    let empty: Vec<(String, Json)> = Vec::new();
    proof { assert(pv(empty@) =~= Seq::<(Seq<char>, JView)>::empty()); }
    emit_journal(outbox, "JournalListRequested", cid, empty);
}

/// The entry read from a file name, with the name.
pub open spec fn listed_entry(f: Seq<char>) -> Option<(Seq<char>, Seq<char>, Seq<char>)> {
    match entry_of(f) {
        Some((t, d)) => Some((f, t, d)),
        None => None,
    }
}

/// The entries of the journal: the `.md` and `.txt` files whose names read
/// as entries, latest name first.
pub open spec fn journal_listing(names: Seq<Seq<char>>) -> Seq<(Seq<char>, Seq<char>, Seq<char>)> {
    crate::extract::eligible_files(names).reverse().filter_map(|f: Seq<char>| listed_entry(f))
}

/// The views of listed entries.
pub open spec fn entries_view(v: Seq<(String, String, String)>) -> Seq<(Seq<char>, Seq<char>, Seq<char>)> {
    v.map_values(|e: (String, String, String)| (e.0@, e.1@, e.2@))
}

/// The entries of the journal directory's files: file name, title, date.
pub fn list_entries(names: &Vec<String>) -> (r: Vec<(String, String, String)>)
    ensures
        entries_view(r@) == journal_listing(views(names@)),
{
    let files = crate::extract::eligible_file_names(names);
    let ghost fv = views(files@);
    let ghost rev = fv.reverse();
    let ghost f = |x: Seq<char>| listed_entry(x);
    let mut out: Vec<(String, String, String)> = Vec::new();
    let n = files.len();
    for k in 0..n
        invariant
            n == files.len(),
            fv == views(files@),
            rev == fv.reverse(),
            fv == crate::extract::eligible_files(views(names@)),
            f == (|x: Seq<char>| listed_entry(x)),
            entries_view(out@) == rev.take(k as int).filter_map(f),
    {
        proof {
            assert(rev.take(k + 1).drop_last() =~= rev.take(k as int));
            assert(rev[k as int] == fv[n - 1 - k]);
        }
        let name = files[n - 1 - k].as_str();
        let ghost before = entries_view(out@);
        match parse_entry(name) {
            Some((t, d)) => {
                out.push((name.to_owned(), t, d));
                proof { assert(entries_view(out@) =~= before + seq![listed_entry(rev[k as int]).unwrap()]); }
            },
            None => {},
        }
    }
    proof { assert(rev.take(n as int) =~= rev); }
    out
}

/// The JSON list of entries.
pub open spec fn entries_json(e: Seq<(Seq<char>, Seq<char>, Seq<char>)>) -> JView {
    JView::List(e.map_values(|x: (Seq<char>, Seq<char>, Seq<char>)| JView::Obj(entry_fields(x.0, x.1, x.2))))
}

/// Records the entries listed.
pub fn list_returned(entries: &Vec<(String, String, String)>, cid: &str, outbox: &mut Vec<OutEvent>)
    ensures
        appended(old(outbox)@, final(outbox)@, journal_module(), cid@, seq![("JournalListReturned"@,
            seq![("entry_count"@, JView::Num(entries.len() as u64)), ("entries"@, entries_json(entries_view(entries@)))])]),
{
    let ghost ev = entries_view(entries@);
    let mut vals: Vec<Json> = Vec::new();
    for k in 0..entries.len()
        invariant
            ev == entries_view(entries@),
            vals.len() == k,
            forall|m: int| 0 <= m < k ==> jv(#[trigger] vals@[m]) == JView::Obj(entry_fields(ev[m].0, ev[m].1, ev[m].2)),
    {
        let fields = payload3("filename", js(entries[k].0.as_str()), "title", js(entries[k].1.as_str()), "created_at", js(entries[k].2.as_str()));
        let ghost fv = pv(fields@);
        let o = Json::Obj(fields);
        proof {
            match jv(o) {
                JView::Obj(x) => { assert(x =~= fv); },
                _ => {},
            }
        }
        vals.push(o);
    }
    let lst = Json::List(vals);
    proof {
        match jv(lst) {
            JView::List(x) => {
                assert(x =~= ev.map_values(|e: (Seq<char>, Seq<char>, Seq<char>)| JView::Obj(entry_fields(e.0, e.1, e.2))));
            },
            _ => {},
        }
    }
    emit_journal(outbox, "JournalListReturned", cid, payload2("entry_count", Json::Num(entries.len() as u64), "entries", lst));
}

/// Records a request to open an entry.
pub fn open_requested(filename: &str, cid: &str, outbox: &mut Vec<OutEvent>)
    ensures
        appended(old(outbox)@, final(outbox)@, journal_module(), cid@,
            seq![("JournalOpenRequested"@, seq![("filename"@, JView::Str(filename@))])]),
{
    emit_journal(outbox, "JournalOpenRequested", cid, payload1("filename", js(filename)));
}

/// Records that the entry to open does not exist.
pub fn open_failed_not_found(filename: &str, cid: &str, outbox: &mut Vec<OutEvent>)
    ensures
        appended(old(outbox)@, final(outbox)@, journal_module(), cid@, seq![("JournalOpenFailedEntryNotFound"@,
            seq![("failure_reason"@, JView::Str("entry_not_found"@)), ("filename"@, JView::Str(filename@))])]),
{
    emit_journal(outbox, "JournalOpenFailedEntryNotFound", cid, payload2("failure_reason", js("entry_not_found"), "filename", js(filename)));
}

/// Records an opened entry and its path.
pub fn entry_opened(filename: &str, path: &str, cid: &str, outbox: &mut Vec<OutEvent>)
    ensures
        appended(old(outbox)@, final(outbox)@, journal_module(), cid@, seq![("JournalEntryOpened"@,
            seq![("filename"@, JView::Str(filename@)), ("path"@, JView::Str(path@))])]),
{
    emit_journal(outbox, "JournalEntryOpened", cid, payload2("filename", js(filename), "path", js(path)));
}

// ─── Entry names read back ────────────────────────────────────────────────────

/// The name of a new entry reads back as the entry: for a date of the
/// `YYYY-MM-DD` shape, whatever the title and extension asked for, the
/// listing reads from the name the date the entry was created on and, as
/// its title, the slug of the title with hyphens made spaces (the date
/// when the slug is empty).
pub proof fn law_entry_name_reads_back(title: Seq<char>, ext: Seq<char>, date: Seq<char>)
    requires
        date.len() == 10,
        date_pattern(date),
    ensures
        entry_of(entry_file_name(title, ext, date)) == Some((
            if title_slug(entry_title(title, date)).len() == 0 {
                date
            } else {
                hyphens_to_spaces(title_slug(entry_title(title, date)))
            }, date)),
{
    reveal_strlit("-");
    reveal_strlit(".");
    reveal_strlit("md");
    reveal_strlit("txt");
    let slug = title_slug(entry_title(title, date));
    let x = entry_ext(ext);
    let name = entry_file_name(title, ext, date);
    let head = date + "-"@;
    let stem = head + slug;
    let l: int = 11 + slug.len() as int;
    assert(name =~= stem + "."@ + x);
    // The last dot of the name is the one before the extension.
    let pos = positions(name);
    assert(name.subrange(l, l + 1) =~= "."@);
    assert(pos[l] == l);
    assert forall|j: int| l < j < pos.len() implies !(#[trigger] occurs_in(name, "."@)(pos[j])) by {
        if j + 1 <= name.len() {
            assert(name.subrange(j, j + 1)[0] == x[j - l - 1]);
        }
    }
    lemma_last_index(pos, occurs_in(name, "."@), l);
    assert(stem_of(name) =~= stem);
    assert(stem.take(10) =~= date);
    if slug.len() > 0 {
        assert(stem.skip(11) =~= slug);
    }
}

} // verus!
