//! Reading Logseq pages: page properties, the item a page belongs to, task
//! block lines with their property drawers, owners, and dates.
use vstd::prelude::*;
use crate::text::{first_token, skip_ws};
use crate::chars::{chars_of, string_of, trim, trim_end, lines_of, line_bounds, starts_with, strip_prefix, has_prefix,
    find, rfind, find_in, rfind_in, trim_bounds, trim_end_at, skip_ws_from, first_token_bounds, byte_len, char_at_byte,
    char_at_byte_in, byte_len_in};
use crate::record::or_empty;
use crate::text::str_eq;

verus! {

// ─── Small parsers ────────────────────────────────────────────────────────────

/// The last `[[page]]` reference of a line: the trimmed text between the
/// last `[[` and the next `]]`, when not empty.
pub open spec fn page_ref(line: Seq<char>) -> Option<Seq<char>> {
    match rfind(line, "[["@) {
        Some(st) => {
            let after = line.skip(st + 2);
            match find(after, "]]"@) {
                Some(e) => {
                    let name = trim(after.take(e));
                    if name.len() > 0 { Some(name) } else { None }
                },
                None => None,
            }
        },
        None => None,
    }
}

/// The last `[[page]]` reference of `v[lo..hi]`.
pub fn page_ref_in(v: &Vec<char>, lo: usize, hi: usize) -> (r: Option<String>)
    requires
        lo <= hi <= v.len(),
    ensures
        match page_ref(v@.subrange(lo as int, hi as int)) {
            Some(n) => r matches Some(x) && x@ == n,
            None => r is None,
        },
{
    proof { reveal_strlit("[["); }
    let ghost line = v@.subrange(lo as int, hi as int);
    let st = match rfind_in(v, lo, hi, "[[") {
        Some(k) => k,
        None => return None,
    };
    proof {
        assert(line.skip(st + 2) =~= v@.subrange(lo + st + 2, hi as int));
    }
    let a = lo + st + 2;
    let e = match find_in(v, a, hi, "]]") {
        Some(k) => k,
        None => return None,
    };
    let (x, y) = trim_bounds(v, a, a + e);
    proof {
        assert(v@.subrange(a as int, hi as int).take(e as int) =~= v@.subrange(a as int, a + e));
    }
    if y > x {
        Some(string_of(v, x, y))
    } else {
        None
    }
}

/// Extracts the last `[[page_name]]` reference from a line.
pub fn extract_page_ref(line: &str) -> (r: Option<String>)
    ensures
        match page_ref(line@) {
            Some(n) => r matches Some(x) && x@ == n,
            None => r is None,
        },
{
    let v = chars_of(line);
    proof { assert(v@.subrange(0, v.len() as int) =~= v@); }
    page_ref_in(&v, 0, v.len())
}

/// The character that starts at byte `b` of `s`, if one does.
pub open spec fn char_at(s: Seq<char>, b: int) -> Option<char> {
    match char_at_byte(s, b) {
        Some(k) => if 0 <= k < s.len() { Some(s[k]) } else { None },
        None => None,
    }
}

/// A date written `YYYY-MM-DD`: ten bytes, with hyphens at bytes 4 and 7.
pub open spec fn date_shaped(d: Seq<char>) -> bool {
    byte_len(d) == 10 && char_at(d, 4) == Some('-') && char_at(d, 7) == Some('-')
}

/// The date of a Logseq date stamp like `<2026-04-26 Sun>`: its first word,
/// when the trimmed stamp is enclosed in angle brackets and the word is
/// date-shaped.
pub open spec fn logseq_date(s: Seq<char>) -> Option<Seq<char>> {
    match strip_prefix(trim(s), "<"@) {
        Some(a) => if a.len() > 0 && a.last() == '>' {
            match first_token(a.drop_last()) {
                Some(d) => if date_shaped(d) { Some(d) } else { None },
                None => None,
            }
        } else {
            None
        },
        None => None,
    }
}

/// Whether `v[lo..hi]` is date-shaped.
fn date_shaped_in(v: &Vec<char>, lo: usize, hi: usize) -> (r: bool)
    requires
        lo <= hi <= v.len(),
    ensures
        r == date_shaped(v@.subrange(lo as int, hi as int)),
{
    let ghost d = v@.subrange(lo as int, hi as int);
    let ten = char_at_byte_in(v, lo, hi, 10);
    if !(ten == Some(hi - lo)) {
        proof {
            if byte_len(d) == 10 {
                assert(d.take(d.len() as int) =~= d);
                crate::chars::lemma_char_at_byte(d, d.len() as int);
            }
        }
        return false;
    }
    proof {
        assert(d.take(d.len() as int) =~= d);
    }
    let four = char_at_byte_in(v, lo, hi, 4);
    let ok4 = match four {
        Some(k) => k < hi - lo && v[lo + k] == '-',
        None => false,
    };
    let seven = char_at_byte_in(v, lo, hi, 7);
    let ok7 = match seven {
        Some(k) => k < hi - lo && v[lo + k] == '-',
        None => false,
    };
    ok4 && ok7
}

/// Parses a Logseq date stamp like `<2026-04-26 Sun>` into `2026-04-26`.
pub fn parse_logseq_date(s: &str) -> (r: Option<String>)
    ensures
        match logseq_date(s@) {
            Some(d) => r matches Some(x) && x@ == d,
            None => r is None,
        },
{
    let v = chars_of(s);
    proof { assert(v@.subrange(0, v.len() as int) =~= v@); }
    logseq_date_in(&v, 0, v.len())
}

/// The date of the Logseq date stamp `v[lo..hi]`.
fn logseq_date_in(v: &Vec<char>, lo: usize, hi: usize) -> (r: Option<String>)
    requires
        lo <= hi <= v.len(),
    ensures
        match logseq_date(v@.subrange(lo as int, hi as int)) {
            Some(d) => r matches Some(x) && x@ == d,
            None => r is None,
        },
{
    proof { reveal_strlit("<"); }
    let (a, b) = trim_bounds(v, lo, hi);
    if !has_prefix(v, a, b, "<") {
        return None;
    }
    proof { assert(v@.subrange(a as int, b as int).skip(1) =~= v@.subrange(a + 1, b as int)); }
    if !(b > a + 1 && v[b - 1] == '>') {
        return None;
    }
    proof { assert(v@.subrange(a + 1, b as int).drop_last() =~= v@.subrange(a + 1, b - 1)); }
    match first_token_bounds(v, a + 1, b - 1) {
        Some((x, y)) => {
            if date_shaped_in(v, x, y) {
                Some(string_of(v, x, y))
            } else {
                None
            }
        },
        None => None,
    }
}

/// Text without its last `[[...]]` reference and the white space before
/// it.
pub open spec fn strip_last_ref(text: Seq<char>) -> Seq<char> {
    match rfind(text, "[["@) {
        Some(pos) => trim_end(text.take(pos)),
        None => text,
    }
}

/// The bounds of `v[lo..hi]` without its last `[[...]]` reference.
fn strip_last_ref_in(v: &Vec<char>, lo: usize, hi: usize) -> (r: usize)
    requires
        lo <= hi <= v.len(),
    ensures
        lo <= r <= hi,
        v@.subrange(lo as int, r as int) == strip_last_ref(v@.subrange(lo as int, hi as int)),
{
    match rfind_in(v, lo, hi, "[[") {
        Some(pos) => {
            proof { assert(v@.subrange(lo as int, hi as int).take(pos as int) =~= v@.subrange(lo as int, lo + pos)); }
            trim_end_at(v, lo, lo + pos)
        },
        None => hi,
    }
}

/// Strips the last `[[...]]` page reference from text.
pub fn strip_last_page_ref(text: &str) -> (r: String)
    ensures
        r@ == strip_last_ref(text@),
{
    let v = chars_of(text);
    proof { assert(v@.subrange(0, v.len() as int) =~= v@); }
    let e = strip_last_ref_in(&v, 0, v.len());
    string_of(&v, 0, e)
}

// ─── Page properties ──────────────────────────────────────────────────────────

/// The value a line gives a page property (`key:: value`), unless it is
/// `not-set`.
pub open spec fn prop_value(line: Seq<char>, key: Seq<char>) -> Option<Seq<char>> {
    match strip_prefix(line, key) {
        Some(rest) => if trim(rest) != "not-set"@ { Some(trim(rest)) } else { None },
        None => None,
    }
}

/// The last value, if any.
pub open spec fn last_of(s: Seq<Seq<char>>) -> Option<Seq<char>> {
    if s.len() == 0 { None } else { Some(s.last()) }
}

/// The page's `status::` and `priority::` values, the last line of each
/// counting; `not-set` counts as absent.
pub open spec fn page_properties(content: Seq<char>) -> (Option<Seq<char>>, Option<Seq<char>>) {
    let ls = lines_of(content);
    (last_of(ls.filter_map(|l: Seq<char>| prop_value(l, "status:: "@))),
     last_of(ls.filter_map(|l: Seq<char>| prop_value(l, "priority:: "@))))
}

/// The value `v[lo..hi]` gives property `key`, unless it is `not-set`.
fn prop_value_in(v: &Vec<char>, lo: usize, hi: usize, key: &str) -> (r: Option<String>)
    requires
        lo <= hi <= v.len(),
    ensures
        match prop_value(v@.subrange(lo as int, hi as int), key@) {
            Some(x) => r matches Some(y) && y@ == x,
            None => r is None,
        },
{
    if !has_prefix(v, lo, hi, key) {
        return None;
    }
    let k = key.unicode_len();
    proof { assert(v@.subrange(lo as int, hi as int).skip(k as int) =~= v@.subrange(lo + k, hi as int)); }
    let (a, b) = trim_bounds(v, lo + k, hi);
    let val = string_of(v, a, b);
    if str_eq(val.as_str(), "not-set") {
        None
    } else {
        Some(val)
    }
}

/// Parses the `status::` and `priority::` property values of a Logseq page;
/// `not-set` is treated as absent.
pub fn parse_page_properties(content: &str) -> (r: (Option<String>, Option<String>))
    ensures
        (crate::record::ov(r.0), crate::record::ov(r.1)) == page_properties(content@),
{
    let v = chars_of(content);
    let lb = line_bounds(&v);
    let ghost ls = lines_of(v@);
    let ghost fs = |l: Seq<char>| prop_value(l, "status:: "@);
    let ghost fp = |l: Seq<char>| prop_value(l, "priority:: "@);
    let mut status: Option<String> = None;
    let mut priority: Option<String> = None;
    for i in 0..lb.len()
        invariant
            ls == lines_of(v@),
            lb.len() == ls.len(),
            forall|k: int| 0 <= k < lb.len() ==> (#[trigger] lb@[k]).0 <= lb@[k].1 <= v.len()
                && v@.subrange(lb@[k].0 as int, lb@[k].1 as int) == ls[k],
            fs == (|l: Seq<char>| prop_value(l, "status:: "@)),
            fp == (|l: Seq<char>| prop_value(l, "priority:: "@)),
            crate::record::ov(status) == last_of(ls.take(i as int).filter_map(fs)),
            crate::record::ov(priority) == last_of(ls.take(i as int).filter_map(fp)),
    {
        let (a, b) = lb[i];
        proof {
            assert(ls.take(i + 1) =~= ls.take(i as int).push(ls[i as int]));
            crate::record::lemma_filter_map_push(ls.take(i as int), ls[i as int], fs);
            crate::record::lemma_filter_map_push(ls.take(i as int), ls[i as int], fp);
        }
        match prop_value_in(&v, a, b, "status:: ") {
            Some(x) => { status = Some(x); },
            None => {},
        }
        match prop_value_in(&v, a, b, "priority:: ") {
            Some(x) => { priority = Some(x); },
            None => {},
        }
    }
    proof { assert(ls.take(lb.len() as int) =~= ls); }
    (status, priority)
}

/// The trimmed value of an `- item-id: ` line, when not empty.
pub open spec fn item_id_line() -> spec_fn(Seq<char>) -> Option<Seq<char>> {
    |l: Seq<char>| match strip_prefix(l, "- item-id: "@) {
        Some(rest) => if trim(rest).len() > 0 { Some(trim(rest)) } else { None },
        None => None,
    }
}

/// The item a page belongs to: the trimmed value of its first
/// `- item-id: ` line whose value is not empty.
pub open spec fn page_item_id(content: Seq<char>) -> Option<Seq<char>> {
    let ids = lines_of(content).filter_map(item_id_line());
    if ids.len() > 0 { Some(ids[0]) } else { None }
}

/// The item a page belongs to, read from its first non-empty
/// `- item-id: ` line.
pub fn read_page_item_id(content: &str) -> (r: Option<String>)
    ensures
        match page_item_id(content@) {
            Some(x) => r matches Some(y) && y@ == x,
            None => r is None,
        },
{
    let v = chars_of(content);
    let lb = line_bounds(&v);
    let ghost ls = lines_of(v@);
    let ghost f = item_id_line();
    for i in 0..lb.len()
        invariant
            ls == lines_of(v@),
            lb.len() == ls.len(),
            forall|k: int| 0 <= k < lb.len() ==> (#[trigger] lb@[k]).0 <= lb@[k].1 <= v.len()
                && v@.subrange(lb@[k].0 as int, lb@[k].1 as int) == ls[k],
            f == item_id_line(),
            v@ == content@,
            ls.take(i as int).filter_map(f).len() == 0,
    {
        let (a, b) = lb[i];
        proof {
            assert(ls.take(i + 1) =~= ls.take(i as int).push(ls[i as int]));
            crate::record::lemma_filter_map_push(ls.take(i as int), ls[i as int], f);
        }
        if has_prefix(&v, a, b, "- item-id: ") {
            let k = "- item-id: ".unicode_len();
            proof { assert(v@.subrange(a as int, b as int).skip(k as int) =~= v@.subrange(a + k, b as int)); }
            let (x, y) = trim_bounds(&v, a + k, b);
            if y > x {
                proof {
                    assert(ls[i as int] == v@.subrange(a as int, b as int));
                    assert(f(ls[i as int]) == Some(v@.subrange(x as int, y as int)));
                    assert(ls.take(i + 1).filter_map(f).len() == 1);
                    lemma_filter_map_prefix(ls, i as int + 1, f);
                    assert(ls.filter_map(f)[0] == ls.take(i + 1).filter_map(f)[0]);
                    assert(ls.take(i + 1).filter_map(f)[0] == v@.subrange(x as int, y as int));
                    assert(page_item_id(content@) == Some(v@.subrange(x as int, y as int)));
                }
                return Some(string_of(&v, x, y));
            }
        }
    }
    proof { assert(ls.take(lb.len() as int) =~= ls); }
    None
}

/// A filter-map result on a prefix is a prefix of the whole result.
pub proof fn lemma_filter_map_prefix<A, B>(s: Seq<A>, i: int, f: spec_fn(A) -> Option<B>)
    requires
        0 <= i <= s.len(),
    ensures
        s.take(i).filter_map(f).len() <= s.filter_map(f).len(),
        forall|k: int| 0 <= k < s.take(i).filter_map(f).len() ==> #[trigger] s.filter_map(f)[k] == s.take(i).filter_map(f)[k],
    decreases s.len() - i,
{
    if i < s.len() {
        lemma_filter_map_prefix(s, i + 1, f);
        assert(s.take(i + 1) =~= s.take(i).push(s[i]));
        crate::record::lemma_filter_map_push(s.take(i), s[i], f);
    } else {
        assert(s.take(i) =~= s);
    }
}


// ─── Task blocks ──────────────────────────────────────────────────────────────

/// The state of a scan of the lines that continue a block.
pub ghost struct Scan {
    pub task_id: Option<Seq<char>>,
    pub scheduled: Option<Seq<char>>,
    pub deadline: Option<Seq<char>>,
    pub in_props: bool,
    pub stopped: bool,
}

/// The scan before any line.
pub open spec fn scan_start() -> Scan {
    Scan { task_id: None, scheduled: None, deadline: None, in_props: false, stopped: false }
}

/// One line of a block's continuation: inside a `:PROPERTIES:` drawer,
/// `:END:` closes it and `:task-id: <id>` gives the task identifier;
/// outside, `:PROPERTIES:` opens a drawer, `SCHEDULED: <date>` and
/// `DEADLINE: <date>` give the dates, and any other non-empty line that is
/// not indented ends the block.
pub open spec fn scan_step(st: Scan, line: Seq<char>) -> Scan {
    let nt = trim(line);
    if st.in_props {
        if nt == ":END:"@ {
            Scan { in_props: false, ..st }
        } else {
            match strip_prefix(nt, ":task-id: "@) {
                Some(rest) => if trim(rest).len() > 0 { Scan { task_id: Some(trim(rest)), ..st } } else { st },
                None => st,
            }
        }
    } else if nt == ":PROPERTIES:"@ {
        Scan { in_props: true, ..st }
    } else {
        match strip_prefix(nt, "SCHEDULED: "@) {
            Some(rest) => Scan { scheduled: logseq_date(rest), ..st },
            None => match strip_prefix(nt, "DEADLINE: "@) {
                Some(rest) => Scan { deadline: logseq_date(rest), ..st },
                None => if !starts_with(line, " "@) && !starts_with(line, "\t"@) && nt.len() > 0 {
                    Scan { stopped: true, ..st }
                } else {
                    st
                },
            },
        }
    }
}

/// The scan of `lines` from line `j` on, until the block ends.
pub open spec fn scan_from(lines: Seq<Seq<char>>, j: int, st: Scan) -> Scan
    decreases lines.len() - j,
{
    if j < 0 || j >= lines.len() || st.stopped {
        st
    } else {
        scan_from(lines, j + 1, scan_step(st, lines[j]))
    }
}

/// What the lines from `start` on give the block before them.
pub open spec fn continuation(lines: Seq<Seq<char>>, start: int) -> Scan {
    scan_from(lines, start, scan_start())
}

/// A task block of a page, as values.
pub ghost struct BlockView {
    pub marker: Seq<char>,
    pub task_id: Seq<char>,
    pub description: Seq<char>,
    pub owner_name: Option<Seq<char>>,
    pub scheduled_date: Option<Seq<char>>,
    pub deadline: Option<Seq<char>>,
}

/// A task block of a page.
pub struct TaskBlock {
    pub marker: String,
    pub task_id: String,
    pub description: String,
    pub owner_name: Option<String>,
    pub scheduled_date: Option<String>,
    pub deadline: Option<String>,
}

impl View for TaskBlock {
    type V = BlockView;

    open spec fn view(&self) -> BlockView {
        BlockView {
            marker: self.marker@,
            task_id: self.task_id@,
            description: self.description@,
            owner_name: crate::record::ov(self.owner_name),
            scheduled_date: crate::record::ov(self.scheduled_date),
            deadline: crate::record::ov(self.deadline),
        }
    }
}

/// The views of task blocks.
pub open spec fn blocks_view(s: Seq<TaskBlock>) -> Seq<BlockView> {
    s.map_values(|b: TaskBlock| b@)
}

/// Where `task-id: ` stands in a line, with the identifier after it, when
/// that identifier is not empty (the old block format).
pub open spec fn inline_task_id(line: Seq<char>) -> Option<(int, Seq<char>)> {
    match find(line, "task-id: "@) {
        Some(tp) => {
            let tid = or_empty(first_token(line.skip(tp + "task-id: "@.len())));
            if tid.len() > 0 { Some((tp, tid)) } else { None }
        },
        None => None,
    }
}

/// The trimmed text of `s` from byte offset `b` on; empty when no
/// character starts there.
pub open spec fn text_from_byte(s: Seq<char>, b: int) -> Seq<char> {
    match char_at_byte(s, b) {
        Some(k) => trim(s.skip(k)),
        None => Seq::empty(),
    }
}

/// A description without the owner reference, when there is an owner.
pub open spec fn without_owner(text: Seq<char>, owner: Option<Seq<char>>) -> Seq<char> {
    if owner is Some { strip_last_ref(text) } else { text }
}

/// The line is a list item (`- ` after the indentation) with a marker
/// word; gives the text after `- ` and the marker.
pub open spec fn list_item(line: Seq<char>) -> Option<(Seq<char>, Seq<char>)> {
    let trimmed = skip_ws(line);
    if starts_with(trimmed, "- "@) {
        let rest = trimmed.skip(2);
        let marker = or_empty(first_token(rest));
        if marker.len() > 0 { Some((rest, marker)) } else { None }
    } else {
        None
    }
}

/// The task block line `i` of `lines` starts, if any. The old format
/// carries `task-id: <id>` in the line, the new one `:task-id: <id>` in a
/// property drawer below it; the owner is the last page reference of the
/// line; the dates come from the lines below.
pub open spec fn block_at(lines: Seq<Seq<char>>, i: int) -> Option<BlockView> {
    let line = lines[i];
    match list_item(line) {
        Some((rest, marker)) => {
            let c = continuation(lines, i + 1);
            let owner = page_ref(line);
            match inline_task_id(line) {
                Some((tp, tid)) => Some(BlockView {
                    marker: marker,
                    task_id: tid,
                    description: without_owner(text_from_byte(line,
                        byte_len(line.take(tp)) + byte_len("task-id: "@) + byte_len(tid)), owner),
                    owner_name: owner,
                    scheduled_date: c.scheduled,
                    deadline: c.deadline,
                }),
                None => match c.task_id {
                    Some(tid) => Some(BlockView {
                        marker: marker,
                        task_id: tid,
                        description: without_owner(text_from_byte(rest, byte_len(marker)), owner),
                        owner_name: owner,
                        scheduled_date: c.scheduled,
                        deadline: c.deadline,
                    }),
                    None => None,
                },
            }
        },
        None => None,
    }
}

/// Line `i` starts a new-format block whose marker does not end on a
/// character boundary of the text after `- ` (cutting the text there
/// panics).
pub open spec fn marker_cut_fails(lines: Seq<Seq<char>>, i: int) -> bool {
    match list_item(lines[i]) {
        Some((rest, marker)) => inline_task_id(lines[i]) is None && continuation(lines, i + 1).task_id is Some
            && char_at_byte(rest, byte_len(marker)) is None,
        None => false,
    }
}

/// The task blocks of a page can be read.
pub open spec fn blocks_readable(content: Seq<char>) -> bool {
    let ls = lines_of(content);
    forall|i: int| 0 <= i < ls.len() ==> !#[trigger] marker_cut_fails(ls, i)
}

/// The block line `i` starts.
pub open spec fn block_of(lines: Seq<Seq<char>>) -> spec_fn(int) -> Option<BlockView> {
    |i: int| if 0 <= i < lines.len() { block_at(lines, i) } else { None }
}

/// The line numbers of `lines`.
pub open spec fn line_numbers(lines: Seq<Seq<char>>) -> Seq<int> {
    Seq::new(lines.len(), |i: int| i)
}

/// The task blocks of a page, in line order.
pub open spec fn task_blocks(content: Seq<char>) -> Seq<BlockView> {
    let ls = lines_of(content);
    line_numbers(ls).filter_map(block_of(ls))
}

/// Whether `v[lo..hi]` is `p`.
fn is_text(v: &Vec<char>, lo: usize, hi: usize, p: &str) -> (r: bool)
    requires
        lo <= hi <= v.len(),
    ensures
        r == (v@.subrange(lo as int, hi as int) == p@),
{
    let ok = has_prefix(v, lo, hi, p);
    let r = ok && hi - lo == p.unicode_len();
    proof {
        if ok && hi - lo == p@.len() {
            assert(v@.subrange(lo as int, hi as int).take(p@.len() as int) =~= v@.subrange(lo as int, hi as int));
        }
        if v@.subrange(lo as int, hi as int) == p@ {
            assert(v@.subrange(lo as int, hi as int).take(p@.len() as int) =~= p@);
        }
    }
    r
}

/// The lines of a text, held as bounds into its characters.
pub open spec fn bounds_hold(v: Seq<char>, lb: Seq<(usize, usize)>, ls: Seq<Seq<char>>) -> bool {
    &&& lb.len() == ls.len()
    &&& forall|k: int| 0 <= k < lb.len() ==> (#[trigger] lb[k]).0 <= lb[k].1 <= v.len()
        && v.subrange(lb[k].0 as int, lb[k].1 as int) == ls[k]
}

/// The view of optional strings.
pub open spec fn ov3(r: (Option<String>, Option<String>, Option<String>)) -> (Option<Seq<char>>, Option<Seq<char>>, Option<Seq<char>>) {
    (crate::record::ov(r.0), crate::record::ov(r.1), crate::record::ov(r.2))
}

/// The text after a prefix of `v[lo..hi]`, trimmed: its bounds.
fn rest_trimmed(v: &Vec<char>, lo: usize, hi: usize, p: &str) -> (r: (usize, usize))
    requires
        lo <= hi <= v.len(),
        starts_with(v@.subrange(lo as int, hi as int), p@),
    ensures
        lo <= r.0 <= r.1 <= hi,
        v@.subrange(r.0 as int, r.1 as int) == trim(v@.subrange(lo as int, hi as int).skip(p@.len() as int)),
{
    let k = p.unicode_len();
    proof { assert(v@.subrange(lo as int, hi as int).skip(k as int) =~= v@.subrange(lo + k, hi as int)); }
    trim_bounds(v, lo + k, hi)
}

/// Scans the lines that continue a block, from line `start` on: the task
/// identifier of its property drawer, its scheduled date and its deadline.
fn scan_block_continuation(v: &Vec<char>, lb: &Vec<(usize, usize)>, start: usize, Ghost(ls): Ghost<Seq<Seq<char>>>)
    -> (r: (Option<String>, Option<String>, Option<String>))
    requires
        bounds_hold(v@, lb@, ls),
    ensures
        ov3(r) == (continuation(ls, start as int).task_id, continuation(ls, start as int).scheduled, continuation(ls, start as int).deadline),
{
    let mut task_id: Option<String> = None;
    let mut scheduled: Option<String> = None;
    let mut deadline: Option<String> = None;
    let mut in_props = false;
    let mut j = start;
    while j < lb.len()
        invariant_except_break
            bounds_hold(v@, lb@, ls),
            start <= j,
            continuation(ls, start as int) == scan_from(ls, j as int, Scan {
                task_id: crate::record::ov(task_id), scheduled: crate::record::ov(scheduled),
                deadline: crate::record::ov(deadline), in_props: in_props, stopped: false }),
        ensures
            continuation(ls, start as int).task_id == crate::record::ov(task_id),
            continuation(ls, start as int).scheduled == crate::record::ov(scheduled),
            continuation(ls, start as int).deadline == crate::record::ov(deadline),
        decreases lb.len() - j,
    {
        let (a, b) = lb[j];
        let ghost st = Scan { task_id: crate::record::ov(task_id), scheduled: crate::record::ov(scheduled),
            deadline: crate::record::ov(deadline), in_props: in_props, stopped: false };
        let ghost line = ls[j as int];
        let (x, y) = trim_bounds(v, a, b);
        if in_props {
            if is_text(v, x, y, ":END:") {
                in_props = false;
            } else if has_prefix(v, x, y, ":task-id: ") {
                let (p, q) = rest_trimmed(v, x, y, ":task-id: ");
                if q > p {
                    task_id = Some(string_of(v, p, q));
                }
            }
        } else {
            if is_text(v, x, y, ":PROPERTIES:") {
                in_props = true;
            } else if has_prefix(v, x, y, "SCHEDULED: ") {
                let k = "SCHEDULED: ".unicode_len();
                proof { assert(v@.subrange(x as int, y as int).skip(k as int) =~= v@.subrange(x + k, y as int)); }
                scheduled = logseq_date_in(v, x + k, y);
            } else if has_prefix(v, x, y, "DEADLINE: ") {
                let k = "DEADLINE: ".unicode_len();
                proof { assert(v@.subrange(x as int, y as int).skip(k as int) =~= v@.subrange(x + k, y as int)); }
                deadline = logseq_date_in(v, x + k, y);
            } else if !has_prefix(v, a, b, " ") && !has_prefix(v, a, b, "\t") && y > x {
                proof {
                    let st2 = scan_step(st, line);
                    assert(st2.stopped);
                    assert(scan_from(ls, j + 1, st2) == st2);
                    assert(scan_from(ls, j as int, st) == scan_from(ls, j + 1, st2));
                }
                break;
            }
        }
        j = j + 1;
    }
    (task_id, scheduled, deadline)
}

/// The bounds of the list item `v[a..b]`: where the text after `- ` starts
/// and the marker's bounds.
fn list_item_in(v: &Vec<char>, a: usize, b: usize) -> (r: Option<(usize, usize, usize)>)
    requires
        a <= b <= v.len(),
    ensures
        match list_item(v@.subrange(a as int, b as int)) {
            Some((rest, marker)) => r matches Some((ra, mx, my)) && a <= ra <= mx <= my <= b
                && v@.subrange(ra as int, b as int) == rest && v@.subrange(mx as int, my as int) == marker
                && first_token(rest) == Some(marker) && skip_ws(rest) == v@.subrange(mx as int, b as int),
            None => r is None,
        },
{
    let ta = skip_ws_from(v, a, b);
    if !has_prefix(v, ta, b, "- ") {
        return None;
    }
    proof {
        reveal_strlit("- ");
        assert(v@.subrange(ta as int, b as int).skip(2) =~= v@.subrange(ta + 2, b as int));
    }
    match first_token_bounds(v, ta + 2, b) {
        Some((mx, my)) => Some((ta + 2, mx, my)),
        None => None,
    }
}

/// The description of a block: the trimmed text of `v[lo..hi]` from byte
/// offset `off` on, without the owner reference when there is an owner.
fn block_description(v: &Vec<char>, lo: usize, hi: usize, off: u128, has_owner: bool) -> (r: String)
    requires
        lo <= hi <= v.len(),
    ensures
        r@ == without_owner(text_from_byte(v@.subrange(lo as int, hi as int), off as int),
            if has_owner { Some(Seq::<char>::empty()) } else { None }),
{
    match char_at_byte_in(v, lo, hi, off) {
        Some(c) => {
            proof { assert(v@.subrange(lo as int, hi as int).skip(c as int) =~= v@.subrange(lo + c, hi as int)); }
            let (p, q) = trim_bounds(v, lo + c, hi);
            if has_owner {
                let e = strip_last_ref_in(v, p, q);
                string_of(v, p, e)
            } else {
                string_of(v, p, q)
            }
        },
        None => {
            proof {
                reveal_strlit("[[");
                let e = Seq::<char>::empty();
                assert(!crate::seqs::any_of(crate::chars::positions(e), crate::chars::occurs_in(e, "[["@))) by {
                    assert forall|k: int| 0 <= k < crate::chars::positions(e).len()
                        implies !crate::chars::occurs_in(e, "[["@)(#[trigger] crate::chars::positions(e)[k]) by {}
                }
            }
            String::new()
        },
    }
}

/// The task block line `i` starts, if any.
fn block_in(v: &Vec<char>, lb: &Vec<(usize, usize)>, i: usize, Ghost(ls): Ghost<Seq<Seq<char>>>) -> (r: Option<TaskBlock>)
    requires
        bounds_hold(v@, lb@, ls),
        i < lb.len(),
        !marker_cut_fails(ls, i as int),
    ensures
        match block_at(ls, i as int) {
            Some(bv) => r matches Some(b) && b@ == bv,
            None => r is None,
        },
{
    let (a, b) = lb[i];
    let ghost line = ls[i as int];
    let (ra, mx, my) = match list_item_in(v, a, b) {
        None => return None,
        Some(t) => t,
    };
    let marker = string_of(v, mx, my);
    let (ctid, csched, cdl) = scan_block_continuation(v, lb, i + 1, Ghost(ls));
    let owner = page_ref_in(v, a, b);
    let has_owner = owner.is_some();
    let k = "task-id: ".unicode_len();
    let inline: Option<(usize, usize, usize)> = match find_in(v, a, b, "task-id: ") {
        Some(tp) => {
            proof {
                assert(line.skip(tp + k) =~= v@.subrange(a + tp + k, b as int));
            }
            match first_token_bounds(v, a + tp + k, b) {
                Some((tx, ty)) => Some((tp, tx, ty)),
                None => None,
            }
        },
        None => None,
    };
    match inline {
        Some((tp, tx, ty)) => {
            let kc = chars_of("task-id: ");
            let off = byte_len_in(v, a, a + tp) + byte_len_in(&kc, 0, k) + byte_len_in(v, tx, ty);
            proof {
                assert(line.take(tp as int) =~= v@.subrange(a as int, a + tp));
                assert(kc@.subrange(0, k as int) =~= "task-id: "@);
                assert(off == byte_len(line.take(tp as int)) + byte_len("task-id: "@) + byte_len(v@.subrange(tx as int, ty as int)));
            }
            let desc = block_description(v, a, b, off, has_owner);
            Some(TaskBlock {
                marker,
                task_id: string_of(v, tx, ty),
                description: desc,
                owner_name: owner,
                scheduled_date: csched,
                deadline: cdl,
            })
        },
        None => match ctid {
            Some(tid) => {
                let off = byte_len_in(v, mx, my);
                let desc = block_description(v, ra, b, off, has_owner);
                Some(TaskBlock {
                    marker,
                    task_id: tid,
                    description: desc,
                    owner_name: owner,
                    scheduled_date: csched,
                    deadline: cdl,
                })
            },
            None => None,
        },
    }
}

/// Parses the task blocks of a Logseq page. Supports two formats:
/// `- MARKER task-id: <id> description [[owner]]`, and
/// `- MARKER description [[owner]]` followed by a property drawer holding
/// `:task-id: <id>`. Only blocks carrying a task identifier are read.
pub fn parse_task_block_lines(content: &str) -> (r: Vec<TaskBlock>)
    requires
        blocks_readable(content@),
    ensures
        blocks_view(r@) == task_blocks(content@),
{
    let v = chars_of(content);
    let lb = line_bounds(&v);
    let ghost ls = lines_of(v@);
    let ghost ns = line_numbers(ls);
    let ghost f = block_of(ls);
    let mut out: Vec<TaskBlock> = Vec::new();
    for i in 0..lb.len()
        invariant
            v@ == content@,
            ls == lines_of(v@),
            ns == line_numbers(ls),
            f == block_of(ls),
            bounds_hold(v@, lb@, ls),
            blocks_readable(content@),
            blocks_view(out@) == ns.take(i as int).filter_map(f),
    {
        proof {
            assert(ns.take(i + 1) =~= ns.take(i as int).push(i as int));
            crate::record::lemma_filter_map_push(ns.take(i as int), i as int, f);
            assert(!marker_cut_fails(ls, i as int));
        }
        let ghost before = blocks_view(out@);
        match block_in(&v, &lb, i, Ghost(ls)) {
            Some(b) => {
                out.push(b);
                proof { assert(blocks_view(out@) =~= before.push(f(i as int).unwrap())); }
            },
            None => {},
        }
    }
    proof { assert(ns.take(lb.len() as int) =~= ns); }
    out
}

/// Whether the task blocks of a page can be read (no block marker ends
/// inside a character of the text after `- `).
pub fn task_blocks_readable(content: &str) -> (r: bool)
    ensures
        r == blocks_readable(content@),
{
    let v = chars_of(content);
    let lb = line_bounds(&v);
    let ghost ls = lines_of(v@);
    for i in 0..lb.len()
        invariant
            v@ == content@,
            ls == lines_of(v@),
            bounds_hold(v@, lb@, ls),
            forall|k: int| 0 <= k < i ==> !#[trigger] marker_cut_fails(ls, k),
    {
        let (a, b) = lb[i];
        let ghost line = ls[i as int];
        match list_item_in(&v, a, b) {
            None => {},
            Some((ra, mx, my)) => {
                let mut inline = false;
                match find_in(&v, a, b, "task-id: ") {
                    Some(tp) => {
                        let k = "task-id: ".unicode_len();
                        proof { assert(line.skip(tp + k) =~= v@.subrange(a + tp + k, b as int)); }
                        inline = first_token_bounds(&v, a + tp + k, b).is_some();
                    },
                    None => {},
                }
                if !inline {
                    let (ctid, _, _) = scan_block_continuation(&v, &lb, i + 1, Ghost(ls));
                    if ctid.is_some() {
                        let off = byte_len_in(&v, mx, my);
                        if char_at_byte_in(&v, ra, b, off).is_none() {
                            proof { assert(marker_cut_fails(ls, i as int)); }
                            return false;
                        }
                    }
                }
            },
        }
    }
    true
}

} // verus!
