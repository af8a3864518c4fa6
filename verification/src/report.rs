//! Markdown reports on the project record: the full report by type, the
//! risk register, the stakeholder map and the weekly status, with the
//! decisions of a report request.
use vstd::prelude::*;
use crate::text::{str_eq, views, join, strictly_sorted, sorted_distinct, push_char};
use crate::payload::{Json, JView, OutEvent, ModuleEvent, appended_in, lemma_appended_in_none, lemma_appended_in_push, emit,
    js, jopt_v, payload1, payload2, payload5, get, as_u64, pstr_of, jpayload, jpstr, ju64};
use crate::record::{ItemView, RecordedItem, items_view, record_items, read_all_record_items, explicit_status, explicit_priority,
    current_status, current_priority, proposed_values, proposed_values_for, ov, event_is, is_event};
use crate::schema::{ProjectSchema, resolved_type, resolve_type, opt_str_view};
use crate::slug::{upper_chars, char_to_uppercase, decimal, decimal_string, count_of};
use crate::chars::{chars_of, string_of, byte_len, byte_len_in, char_at_byte, char_at_byte_in};
use crate::calendar::{date_text, format_date};

verus! {

// ─── Report items ─────────────────────────────────────────────────────────────

/// An item of a report: an item of the record with its effective status
/// and priority.
pub struct ItemRecord {
    pub item_id: String,
    pub item_type: String,
    pub description: String,
    pub session_id: String,
    pub status: Option<String>,
    pub priority: Option<String>,
}

/// A report item, as values.
pub ghost struct RecordView {
    pub item_id: Seq<char>,
    pub item_type: Seq<char>,
    pub description: Seq<char>,
    pub session_id: Seq<char>,
    pub status: Option<Seq<char>>,
    pub priority: Option<Seq<char>>,
}

impl View for ItemRecord {
    type V = RecordView;

    open spec fn view(&self) -> RecordView {
        RecordView {
            item_id: self.item_id@,
            item_type: self.item_type@,
            description: self.description@,
            session_id: self.session_id@,
            status: ov(self.status),
            priority: ov(self.priority),
        }
    }
}

/// The views of report items.
pub open spec fn records_view(s: Seq<ItemRecord>) -> Seq<RecordView> {
    s.map_values(|r: ItemRecord| r@)
}

/// The status a report shows for item `id`: the last recorded, else the
/// proposed one of its confirmed extraction.
pub open spec fn report_status(events: Seq<Json>, id: Seq<char>) -> Option<Seq<char>> {
    match explicit_status(events, id) {
        Some(x) => Some(x),
        None => proposed_values(events, id).0,
    }
}

/// The priority a report shows for item `id`: the last recorded, else the
/// proposed one.
pub open spec fn report_priority(events: Seq<Json>, id: Seq<char>) -> Option<Seq<char>> {
    match explicit_priority(events, id) {
        Some(x) => Some(x),
        None => proposed_values(events, id).1,
    }
}

/// The report item of a record item.
pub open spec fn report_row(events: Seq<Json>, it: ItemView) -> RecordView {
    RecordView {
        item_id: it.item_id,
        item_type: it.item_type,
        description: it.description,
        session_id: it.session_id,
        status: report_status(events, it.item_id),
        priority: report_priority(events, it.item_id),
    }
}

/// The report items of the record: every item of the record, in order.
pub open spec fn report_items(events: Seq<Json>) -> Seq<RecordView> {
    record_items(events).map_values(|it: ItemView| report_row(events, it))
}

/// The effective status and priority of an item in a report.
pub fn report_status_priority(events: &Vec<Json>, item_id: &str) -> (r: (Option<String>, Option<String>))
    ensures
        ov(r.0) == report_status(events@, item_id@),
        ov(r.1) == report_priority(events@, item_id@),
{
    let mut st = current_status(events, item_id);
    let mut pr = current_priority(events, item_id);
    if st.is_none() || pr.is_none() {
        let (ps, pp) = proposed_values_for(events, item_id);
        if st.is_none() { st = ps; }
        if pr.is_none() { pr = pp; }
    }
    (st, pr)
}

/// The items of a report: the confirmed items of each incorporated session
/// and the task instances, with their effective status and priority.
pub fn build_items(events: &Vec<Json>) -> (r: Vec<ItemRecord>)
    ensures
        records_view(r@) == report_items(events@),
{
    let items = read_all_record_items(events);
    let ghost src = items_view(items@);
    let mut out: Vec<ItemRecord> = Vec::new();
    for k in 0..items.len()
        invariant
            src == items_view(items@),
            src == record_items(events@),
            records_view(out@) == src.take(k as int).map_values(|it: ItemView| report_row(events@, it)),
    {
        let it = &items[k];
        let (st, pr) = report_status_priority(events, it.item_id.as_str());
        let ghost before = records_view(out@);
        out.push(ItemRecord {
            item_id: it.item_id.clone(),
            item_type: it.item_type.clone(),
            description: it.description.clone(),
            session_id: it.session_id.clone(),
            status: st,
            priority: pr,
        });
        proof {
            assert(src.take(k + 1) =~= src.take(k as int).push(src[k as int]));
            assert(records_view(out@) =~= before.push(report_row(events@, src[k as int])));
        }
    }
    proof { assert(src.take(items.len() as int) =~= src); }
    out
}

// ─── Table rows ───────────────────────────────────────────────────────────────

/// A value as a report shows it: the value, or `-` when there is none.
pub open spec fn shown(o: Option<Seq<char>>) -> Seq<char> {
    match o {
        Some(s) => s,
        None => "-"@,
    }
}

/// How a priority is shown.
pub fn pri_display(p: Option<&str>) -> (r: &str)
    ensures
        r@ == shown(opt_str_view(p)),
{
    match p {
        Some(s) => s,
        None => "-",
    }
}

/// How a status is shown.
pub fn sta_display(s: Option<&str>) -> (r: &str)
    ensures
        r@ == shown(opt_str_view(s)),
{
    match s {
        Some(x) => x,
        None => "-",
    }
}

/// The views of string slices.
pub open spec fn strs_view(cols: Seq<&str>) -> Seq<Seq<char>> {
    cols.map_values(|c: &str| c@)
}

/// A Markdown table row of the given cells.
pub open spec fn table_row(cols: Seq<Seq<char>>) -> Seq<char> {
    "| "@ + join(cols, " | "@) + " |"@
}

/// A Markdown table row of the given cells.
pub fn md_table_row(cols: &[&str]) -> (r: String)
    ensures
        r@ == table_row(strs_view(cols@)),
{
    let mut body = String::new();
    for i in 0..cols.len()
        invariant
            body@ == join(strs_view(cols@.subrange(0, i as int)), " | "@),
    {
        proof {
            assert(strs_view(cols@.subrange(0, i + 1)).drop_last() =~= strs_view(cols@.subrange(0, i as int)));
        }
        if i > 0 {
            body.append(" | ");
        } else {
            assert(strs_view(cols@.subrange(0, 1)) =~= seq![cols@[0]@]);
        }
        body.append(cols[i]);
    }
    proof { assert(cols@.subrange(0, cols.len() as int) =~= cols@); }
    let mut r = "| ".to_owned();
    r.append(body.as_str());
    r.append(" |");
    r
}

/// The line of an item in a priority, status and description table.
pub open spec fn item_line(r: RecordView) -> Seq<char> {
    table_row(seq![shown(r.priority), shown(r.status), r.description]) + "\n"@
}

/// The lines of items in a priority, status and description table.
pub open spec fn item_lines(rows: Seq<RecordView>) -> Seq<char>
    decreases rows.len(),
{
    if rows.len() == 0 { Seq::empty() } else { item_lines(rows.drop_last()) + item_line(rows.last()) }
}

/// The header of a priority, status and description table.
pub open spec fn item_header() -> Seq<char> {
    "| Priority | Status | Description |\n|---|---|---|\n"@
}

/// The text of an optional string.
pub fn opt_str(o: &Option<String>) -> (r: Option<&str>)
    ensures
        opt_str_view(r) == ov(*o),
{
    match o {
        Some(s) => Some(s.as_str()),
        None => None,
    }
}

/// Appends the line of an item to a table.
fn push_item_line(out: &mut String, r: &ItemRecord)
    ensures
        final(out)@ == old(out)@ + item_line(r@),
{
    let cols: [&str; 3] = [pri_display(opt_str(&r.priority)), sta_display(opt_str(&r.status)), r.description.as_str()];
    let line = md_table_row(&cols);
    proof {
        assert(strs_view(cols@) =~= seq![shown(r@.priority), shown(r@.status), r@.description]);
    }
    out.append(line.as_str());
    out.append("\n");
}

/// The lines of the selected items, in order.
fn item_lines_of(rows: &Vec<&ItemRecord>) -> (r: String)
    ensures
        r@ == item_lines(rows@.map_values(|x: &ItemRecord| x@)),
{
    let ghost rv = rows@.map_values(|x: &ItemRecord| x@);
    let mut out = String::new();
    for k in 0..rows.len()
        invariant
            rv == rows@.map_values(|x: &ItemRecord| x@),
            out@ == item_lines(rv.take(k as int)),
    {
        proof { assert(rv.take(k + 1).drop_last() =~= rv.take(k as int)); }
        push_item_line(&mut out, rows[k]);
    }
    proof { assert(rv.take(rows.len() as int) =~= rv); }
    out
}

// ─── Names ────────────────────────────────────────────────────────────────────

/// The text with its first character in upper case.
pub open spec fn capitalized(s: Seq<char>) -> Seq<char> {
    if s.len() == 0 { Seq::empty() } else { upper_chars(s[0]) + s.drop_first() }
}

/// The text with its first character in upper case.
pub fn capitalize(s: &str) -> (r: String)
    ensures
        r@ == capitalized(s@),
{
    let v = chars_of(s);
    if v.len() == 0 {
        String::new()
    } else {
        let mut r = char_to_uppercase(v[0]);
        let rest = string_of(&v, 1, v.len());
        proof { assert(v@.subrange(1, v.len() as int) =~= s@.drop_first()); }
        r.append(rest.as_str());
        r
    }
}

/// The name of the file a report of the given type is written to.
pub open spec fn report_file_name(report_type: Seq<char>) -> Seq<char> {
    if report_type == "weekly"@ {
        "Weekly Status.md"@
    } else if report_type == "risk-register"@ {
        "Risk Register.md"@
    } else if report_type == "stakeholders"@ {
        "Stakeholder Map.md"@
    } else if report_type == "full"@ {
        "Full Project Report.md"@
    } else {
        "Report.md"@
    }
}

/// The name of the file a report of the given type is written to.
pub fn report_filename(report_type: &str) -> (r: &'static str)
    ensures
        r@ == report_file_name(report_type@),
{
    if str_eq(report_type, "weekly") {
        "Weekly Status.md"
    } else if str_eq(report_type, "risk-register") {
        "Risk Register.md"
    } else if str_eq(report_type, "stakeholders") {
        "Stakeholder Map.md"
    } else if str_eq(report_type, "full") {
        "Full Project Report.md"
    } else {
        "Report.md"
    }
}

/// A session identifier can be shortened: it has at most eight bytes, or a
/// character starts at its eighth byte.
pub open spec fn shortenable(sid: Seq<char>) -> bool {
    byte_len(sid) <= 8 || char_at_byte(sid, 8) is Some
}

/// The first eight bytes of a session identifier (all of it when shorter).
pub open spec fn short_session(sid: Seq<char>) -> Seq<char> {
    if byte_len(sid) <= 8 { sid } else { sid.take(char_at_byte(sid, 8).unwrap()) }
}

/// Whether a session identifier can be shortened.
pub fn session_shortenable(sid: &str) -> (r: bool)
    ensures
        r == shortenable(sid@),
{
    let v = chars_of(sid);
    proof { assert(v@.subrange(0, v.len() as int) =~= sid@); }
    byte_len_in(&v, 0, v.len()) <= 8 || char_at_byte_in(&v, 0, v.len(), 8).is_some()
}

/// The first eight bytes of a session identifier.
pub fn short_session_id(sid: &str) -> (r: String)
    requires
        shortenable(sid@),
    ensures
        r@ == short_session(sid@),
{
    let v = chars_of(sid);
    proof { assert(v@.subrange(0, v.len() as int) =~= sid@); }
    if byte_len_in(&v, 0, v.len()) <= 8 {
        sid.to_owned()
    } else {
        match char_at_byte_in(&v, 0, v.len(), 8) {
            Some(k) => {
                let r = string_of(&v, 0, k);
                proof { assert(v@.subrange(0, k as int) =~= sid@.take(k as int)); }
                r
            },
            None => sid.to_owned(),
        }
    }
}

// ─── Selecting items ──────────────────────────────────────────────────────────

/// The views of selected report items.
pub open spec fn refs_view(v: Seq<&ItemRecord>) -> Seq<RecordView> {
    v.map_values(|x: &ItemRecord| x@)
}

/// The item is of the kind that `kind` resolves to in the schema (and the
/// kind is one of the schema).
pub open spec fn of_kind(schema: ProjectSchema, kind: Seq<char>, r: RecordView) -> bool {
    resolved_type(schema, kind) is Some && resolved_type(schema, r.item_type) == resolved_type(schema, kind)
}

/// The item is of the kind and its status is none of the closed ones.
pub open spec fn open_of_kind(schema: ProjectSchema, kind: Seq<char>, closed: Seq<Seq<char>>) -> spec_fn(RecordView) -> bool {
    |r: RecordView| of_kind(schema, kind, r) && !(r.status matches Some(st) && closed.contains(st))
}

/// Whether a status is one of the given ones.
fn status_among(status: &Option<String>, closed: &[&str]) -> (r: bool)
    ensures
        r == (ov(*status) matches Some(st) && strs_view(closed@).contains(st)),
{
    match status {
        Some(st) => {
            let mut i: usize = 0;
            while i < closed.len()
                invariant
                    i <= closed.len(),
                    ov(*status) == Some(st@),
                    forall|j: int| 0 <= j < i ==> closed@[j]@ != st@,
                decreases closed.len() - i,
            {
                if str_eq(closed[i], st.as_str()) {
                    proof {
                        assert(strs_view(closed@)[i as int] == st@);
                        assert(strs_view(closed@).contains(st@));
                    }
                    return true;
                }
                i = i + 1;
            }
            proof {
                assert forall|j: int| 0 <= j < strs_view(closed@).len() implies strs_view(closed@)[j] != st@ by {
                    assert(strs_view(closed@)[j] == closed@[j]@);
                }
            }
            false
        },
        None => false,
    }
}

/// Whether the item's type resolves to the same canonical type as `kind`.
fn is_of_kind(schema: &ProjectSchema, kind: &str, r: &ItemRecord) -> (b: bool)
    ensures
        b == of_kind(*schema, kind@, r@),
{
    match resolve_type(schema, kind) {
        Some(target) => match resolve_type(schema, r.item_type.as_str()) {
            Some(t) => str_eq(t, target),
            None => false,
        },
        None => false,
    }
}

/// The items of a kind whose status is none of the closed ones, in order.
fn select_open<'a>(items: &'a Vec<ItemRecord>, schema: &ProjectSchema, kind: &str, closed: &[&str]) -> (r: Vec<&'a ItemRecord>)
    ensures
        refs_view(r@) == records_view(items@).filter(open_of_kind(*schema, kind@, strs_view(closed@))),
{
    let ghost rv = records_view(items@);
    let ghost p = open_of_kind(*schema, kind@, strs_view(closed@));
    let mut out: Vec<&ItemRecord> = Vec::new();
    for i in 0..items.len()
        invariant
            rv == records_view(items@),
            p == open_of_kind(*schema, kind@, strs_view(closed@)),
            refs_view(out@) == rv.take(i as int).filter(p),
    {
        proof {
            assert(rv.take(i + 1).drop_last() =~= rv.take(i as int));
            assert(rv.take(i + 1).last() == items@[i as int]@);
            reveal(Seq::filter);
        }
        let keep = is_of_kind(schema, kind, &items[i]) && !status_among(&items[i].status, closed);
        let ghost before = refs_view(out@);
        if keep {
            out.push(&items[i]);
            proof { assert(refs_view(out@) =~= before.push(items@[i as int]@)); }
        }
    }
    proof { assert(rv.take(items.len() as int) =~= rv); }
    out
}

/// The note for an empty table, or nothing.
pub open spec fn empty_note(n: nat, note: Seq<char>) -> Seq<char> {
    if n == 0 { note } else { Seq::empty() }
}

// ─── Risk register and stakeholder map ───────────────────────────────────────

/// The risks of a report: the items of the kind `risk` resolves to.
pub open spec fn risks_of(schema: ProjectSchema, rows: Seq<RecordView>) -> Seq<RecordView> {
    rows.filter(open_of_kind(schema, "risk"@, Seq::empty()))
}

/// The text of the risk register.
pub open spec fn risk_register_text(schema: ProjectSchema, rows: Seq<RecordView>, now: u64) -> Seq<char> {
    let risks = risks_of(schema, rows);
    "# Risk Register\nGenerated: "@ + date_text(now) + "\n\n"@ + item_header() + item_lines(risks)
        + empty_note(risks.len(), "_No risks in project record._\n"@)
}

/// The risk register: the text and the number of risks.
pub fn report_risk_register(items: &Vec<ItemRecord>, schema: &ProjectSchema, now_ms: u64) -> (r: (String, usize))
    ensures
        r.0@ == risk_register_text(*schema, records_view(items@), now_ms),
        r.1 == risks_of(*schema, records_view(items@)).len(),
{
    let none: [&str; 0] = [];
    proof { assert(strs_view(none@) =~= Seq::<Seq<char>>::empty()); }
    let risks = select_open(items, schema, "risk", &none);
    let mut out = "# Risk Register\nGenerated: ".to_owned();
    let date = format_date(now_ms);
    out.append(date.as_str());
    out.append("\n\n");
    out.append("| Priority | Status | Description |\n|---|---|---|\n");
    let lines = item_lines_of(&risks);
    out.append(lines.as_str());
    if risks.len() == 0 {
        out.append("_No risks in project record._\n");
    }
    proof {
        reveal_strlit("");
        assert(out@ =~= risk_register_text(*schema, records_view(items@), now_ms));
    }
    (out, risks.len())
}

/// The line of a stakeholder: status and name.
pub open spec fn name_line(r: RecordView) -> Seq<char> {
    table_row(seq![shown(r.status), r.description]) + "\n"@
}

/// The lines of stakeholders.
pub open spec fn name_lines(rows: Seq<RecordView>) -> Seq<char>
    decreases rows.len(),
{
    if rows.len() == 0 { Seq::empty() } else { name_lines(rows.drop_last()) + name_line(rows.last()) }
}

/// The stakeholders of a report.
pub open spec fn stakeholders_of(schema: ProjectSchema, rows: Seq<RecordView>) -> Seq<RecordView> {
    rows.filter(open_of_kind(schema, "stakeholder"@, Seq::empty()))
}

/// The text of the stakeholder map.
pub open spec fn stakeholders_text(schema: ProjectSchema, rows: Seq<RecordView>, now: u64) -> Seq<char> {
    let people = stakeholders_of(schema, rows);
    "# Stakeholder Map\nGenerated: "@ + date_text(now) + "\n\n"@ + "| Status | Name |\n|---|---|\n"@ + name_lines(people)
        + empty_note(people.len(), "_No stakeholders in project record._\n"@)
}

/// The stakeholder map: the text and the number of stakeholders.
pub fn report_stakeholders(items: &Vec<ItemRecord>, schema: &ProjectSchema, now_ms: u64) -> (r: (String, usize))
    ensures
        r.0@ == stakeholders_text(*schema, records_view(items@), now_ms),
        r.1 == stakeholders_of(*schema, records_view(items@)).len(),
{
    let none: [&str; 0] = [];
    proof { assert(strs_view(none@) =~= Seq::<Seq<char>>::empty()); }
    let people = select_open(items, schema, "stakeholder", &none);
    let ghost pv = refs_view(people@);
    let mut out = "# Stakeholder Map\nGenerated: ".to_owned();
    let date = format_date(now_ms);
    out.append(date.as_str());
    out.append("\n\n");
    out.append("| Status | Name |\n|---|---|\n");
    let ghost head = out@;
    for k in 0..people.len()
        invariant
            pv == refs_view(people@),
            out@ == head + name_lines(pv.take(k as int)),
    {
        proof { assert(pv.take(k + 1).drop_last() =~= pv.take(k as int)); }
        let p = people[k];
        let cols: [&str; 2] = [sta_display(opt_str(&p.status)), p.description.as_str()];
        proof { assert(strs_view(cols@) =~= seq![shown(p@.status), p@.description]); }
        let line = md_table_row(&cols);
        out.append(line.as_str());
        out.append("\n");
        proof { assert(out@ =~= head + name_lines(pv.take(k + 1))); }
    }
    proof { assert(pv.take(people.len() as int) =~= pv); }
    if people.len() == 0 {
        out.append("_No stakeholders in project record._\n");
    }
    proof {
        reveal_strlit("");
        assert(out@ =~= stakeholders_text(*schema, records_view(items@), now_ms));
    }
    (out, people.len())
}

// ─── Weekly status ────────────────────────────────────────────────────────────

/// Seven days in milliseconds.
pub const SEVEN_DAYS_MS: u64 = 604800000;

/// The start of the week that ends at `now`: seven days earlier, or the
/// epoch.
pub open spec fn week_start(now: u64) -> u64 {
    if now >= SEVEN_DAYS_MS { (now - SEVEN_DAYS_MS) as u64 } else { 0 }
}

/// The time an event records, or zero.
pub open spec fn event_time(e: Json) -> u64 {
    match as_u64(get(e, "timestamp"@)) {
        Some(t) => t,
        None => 0,
    }
}

/// The session and item count of an incorporation recorded since `start`.
pub open spec fn recent_session(start: u64) -> spec_fn(Json) -> Option<(Seq<char>, u64)> {
    |e: Json| if event_is(e, "project_state"@, "ItemsIncorporated"@) && event_time(e) >= start {
        match pstr_of(e, "session_id"@) {
            Some(sid) => Some((sid, match as_u64(get(get(e, "payload"@), "incorporated_count"@)) {
                Some(c) => c,
                None => 0,
            })),
            None => None,
        }
    } else {
        None
    }
}

/// The sessions incorporated since `start`, with their item counts, in
/// order.
pub open spec fn recent_sessions(events: Seq<Json>, start: u64) -> Seq<(Seq<char>, u64)> {
    events.filter_map(recent_session(start))
}

/// The sum of the item counts.
pub open spec fn total_count(s: Seq<(Seq<char>, u64)>) -> nat
    decreases s.len(),
{
    if s.len() == 0 { 0 } else { total_count(s.drop_last()) + (s.last().1 as nat) }
}

/// The line of a recent session.
pub open spec fn session_line(p: (Seq<char>, u64)) -> Seq<char> {
    "- Session "@ + short_session(p.0) + ": "@ + decimal(p.1 as nat) + " item(s)\n"@
}

/// The lines of recent sessions.
pub open spec fn session_lines(s: Seq<(Seq<char>, u64)>) -> Seq<char>
    decreases s.len(),
{
    if s.len() == 0 { Seq::empty() } else { session_lines(s.drop_last()) + session_line(s.last()) }
}

/// The recent activity section's body.
pub open spec fn activity_text(recent: Seq<(Seq<char>, u64)>) -> Seq<char> {
    if recent.len() == 0 {
        "_No sessions incorporated in the last 7 days._\n"@
    } else {
        decimal(total_count(recent)) + " item(s) incorporated across "@ + decimal(recent.len()) + " session(s):\n\n"@
            + session_lines(recent)
    }
}

/// A table section: the header, the item lines and, when empty, the note.
pub open spec fn table_section(rows: Seq<RecordView>, note: Seq<char>) -> Seq<char> {
    item_header() + item_lines(rows) + empty_note(rows.len(), note)
}

/// The open tasks of a weekly status.
pub open spec fn open_tasks(schema: ProjectSchema, rows: Seq<RecordView>) -> Seq<RecordView> {
    rows.filter(open_of_kind(schema, "task"@, seq!["done"@, "cancelled"@]))
}

/// The open risks of a weekly status.
pub open spec fn open_risks(schema: ProjectSchema, rows: Seq<RecordView>) -> Seq<RecordView> {
    rows.filter(open_of_kind(schema, "risk"@, seq!["mitigated"@, "accepted"@, "closed"@]))
}

/// The milestones of a weekly status.
pub open spec fn milestones_of(schema: ProjectSchema, rows: Seq<RecordView>) -> Seq<RecordView> {
    rows.filter(open_of_kind(schema, "milestone"@, Seq::empty()))
}

/// The text of the weekly status.
pub open spec fn weekly_text(schema: ProjectSchema, rows: Seq<RecordView>, events: Seq<Json>, now: u64) -> Seq<char> {
    let start = week_start(now);
    "# Weekly Status\nGenerated: "@ + date_text(now) + "  (period: "@ + date_text(start) + " to "@ + date_text(now) + ")\n\n"@
        + "## Open Tasks\n\n"@ + table_section(open_tasks(schema, rows), "_No open tasks._\n"@)
        + "\n## Open Risks\n\n"@ + table_section(open_risks(schema, rows), "_No open risks._\n"@)
        + "\n## Milestones\n\n"@ + table_section(milestones_of(schema, rows), "_No milestones._\n"@)
        + "\n## Recent Activity (last 7 days)\n\n"@ + activity_text(recent_sessions(events, start))
}

/// Every recent session identifier can be shortened.
pub open spec fn recent_shortenable(events: Seq<Json>, now: u64) -> bool {
    forall|k: int| 0 <= k < recent_sessions(events, week_start(now)).len()
        ==> shortenable(#[trigger] recent_sessions(events, week_start(now))[k].0)
}

/// The views of session and count pairs.
pub open spec fn pairs_view(v: Seq<(String, u64)>) -> Seq<(Seq<char>, u64)> {
    v.map_values(|p: (String, u64)| (p.0@, p.1))
}

/// The sessions incorporated since `start`, with their item counts.
fn read_recent_sessions(events: &Vec<Json>, start: u64) -> (r: Vec<(String, u64)>)
    ensures
        pairs_view(r@) == recent_sessions(events@, start),
{
    let mut out: Vec<(String, u64)> = Vec::new();
    for i in 0..events.len()
        invariant
            pairs_view(out@) == events@.take(i as int).filter_map(recent_session(start)),
    {
        proof { assert(events@.take(i + 1).drop_last() =~= events@.take(i as int)); }
        let e = &events[i];
        let ts = match ju64(e, "timestamp") {
            Some(t) => t,
            None => 0,
        };
        let ghost before = pairs_view(out@);
        if is_event(e, "project_state", "ItemsIncorporated") && ts >= start {
            match jpstr(e, "session_id") {
                Some(sid) => {
                    let count = match jpayload(e) {
                        Some(p) => match ju64(p, "incorporated_count") {
                            Some(c) => c,
                            None => 0,
                        },
                        None => 0,
                    };
                    out.push((sid.to_owned(), count));
                    proof { assert(pairs_view(out@) =~= before + seq![(sid@, count)]); }
                },
                None => {},
            }
        }
    }
    proof { assert(events@.take(events.len() as int) =~= events@); }
    out
}

/// Appends a table section.
fn push_section(out: &mut String, rows: &Vec<&ItemRecord>, note: &str)
    ensures
        final(out)@ == old(out)@ + table_section(refs_view(rows@), note@),
{
    out.append("| Priority | Status | Description |\n|---|---|---|\n");
    let lines = item_lines_of(rows);
    out.append(lines.as_str());
    if rows.len() == 0 {
        out.append(note);
    }
    proof {
        reveal_strlit("");
    }
}

/// The recent activity section's body.
fn activity(recent: &Vec<(String, u64)>) -> (r: String)
    requires
        forall|k: int| 0 <= k < recent.len() ==> shortenable(#[trigger] recent@[k].0@),
    ensures
        r@ == activity_text(pairs_view(recent@)),
{
    let ghost pv = pairs_view(recent@);
    if recent.len() == 0 {
        return "_No sessions incorporated in the last 7 days._\n".to_owned();
    }
    let mut total: u128 = 0;
    let mut lines = String::new();
    for k in 0..recent.len()
        invariant
            pv == pairs_view(recent@),
            forall|j: int| 0 <= j < recent.len() ==> shortenable(#[trigger] recent@[j].0@),
            total == total_count(pv.take(k as int)),
            total <= k * 0xffff_ffff_ffff_ffffu128,
            lines@ == session_lines(pv.take(k as int)),
    {
        proof { assert(pv.take(k + 1).drop_last() =~= pv.take(k as int)); }
        let (sid, c) = (&recent[k].0, recent[k].1);
        total = total + c as u128;
        lines.append("- Session ");
        let short = short_session_id(sid.as_str());
        lines.append(short.as_str());
        lines.append(": ");
        let d = decimal_string(c as u128);
        lines.append(d.as_str());
        lines.append(" item(s)\n");
    }
    proof { assert(pv.take(recent.len() as int) =~= pv); }
    let mut r = decimal_string(total);
    r.append(" item(s) incorporated across ");
    let n = decimal_string(recent.len() as u128);
    r.append(n.as_str());
    r.append(" session(s):\n\n");
    r.append(lines.as_str());
    r
}

/// The weekly status: the text and the number of report items.
pub fn report_weekly(items: &Vec<ItemRecord>, events: &Vec<Json>, schema: &ProjectSchema, now_ms: u64) -> (r: (String, usize))
    requires
        recent_shortenable(events@, now_ms),
    ensures
        r.0@ == weekly_text(*schema, records_view(items@), events@, now_ms),
        r.1 == items.len(),
{
    let ghost rows = records_view(items@);
    let start = now_ms.saturating_sub(SEVEN_DAYS_MS);
    let task_closed: [&str; 2] = ["done", "cancelled"];
    let risk_closed: [&str; 3] = ["mitigated", "accepted", "closed"];
    let none: [&str; 0] = [];
    proof {
        assert(strs_view(task_closed@) =~= seq!["done"@, "cancelled"@]);
        assert(strs_view(risk_closed@) =~= seq!["mitigated"@, "accepted"@, "closed"@]);
        assert(strs_view(none@) =~= Seq::<Seq<char>>::empty());
    }
    let tasks = select_open(items, schema, "task", &task_closed);
    let risks = select_open(items, schema, "risk", &risk_closed);
    let milestones = select_open(items, schema, "milestone", &none);
    let recent = read_recent_sessions(events, start);
    proof {
        assert(start == week_start(now_ms));
        assert forall|k: int| 0 <= k < recent.len() implies shortenable(#[trigger] recent@[k].0@) by {
            assert(pairs_view(recent@)[k].0 == recent@[k].0@);
            assert(shortenable(recent_sessions(events@, week_start(now_ms))[k].0));
        }
    }

    let now_text = format_date(now_ms);
    let mut out = "# Weekly Status\nGenerated: ".to_owned();
    out.append(now_text.as_str());
    out.append("  (period: ");
    let start_text = format_date(start);
    out.append(start_text.as_str());
    out.append(" to ");
    out.append(now_text.as_str());
    out.append(")\n\n");
    out.append("## Open Tasks\n\n");
    push_section(&mut out, &tasks, "_No open tasks._\n");
    out.append("\n## Open Risks\n\n");
    push_section(&mut out, &risks, "_No open risks._\n");
    out.append("\n## Milestones\n\n");
    push_section(&mut out, &milestones, "_No milestones._\n");
    out.append("\n## Recent Activity (last 7 days)\n\n");
    let act = activity(&recent);
    out.append(act.as_str());
    proof {
        assert(start == week_start(now_ms));
        assert(out@ =~= weekly_text(*schema, rows, events@, now_ms));
    }
    (out, items.len())
}

/// The open tasks of a weekly status are exactly the task items, in order,
/// whose status is neither `done` nor `cancelled`: none listed is done or
/// cancelled, and every task item with another status, or none, is listed.
pub proof fn law_weekly_open_tasks(schema: ProjectSchema, rows: Seq<RecordView>)
    ensures
        forall|i: int| 0 <= i < open_tasks(schema, rows).len() ==> {
            let r = #[trigger] open_tasks(schema, rows)[i];
            &&& rows.contains(r)
            &&& of_kind(schema, "task"@, r)
            &&& r.status != Some("done"@)
            &&& r.status != Some("cancelled"@)
        },
        forall|r: RecordView| #[trigger] rows.contains(r) && of_kind(schema, "task"@, r) && r.status != Some("done"@)
            && r.status != Some("cancelled"@) ==> open_tasks(schema, rows).contains(r),
{
    broadcast use vstd::seq_lib::group_filter_ensures;
    let closed = seq!["done"@, "cancelled"@];
    assert(closed[0] == "done"@ && closed[1] == "cancelled"@);
    let p = open_of_kind(schema, "task"@, closed);
    assert forall|i: int| 0 <= i < open_tasks(schema, rows).len() implies {
        let r = #[trigger] open_tasks(schema, rows)[i];
        &&& rows.contains(r)
        &&& of_kind(schema, "task"@, r)
        &&& r.status != Some("done"@)
        &&& r.status != Some("cancelled"@)
    } by {
        let r = open_tasks(schema, rows)[i];
        assert(open_tasks(schema, rows) == rows.filter(p));
        assert(rows.filter(p)[i] == r);
        assert(p(r));
        assert(rows.filter(p).contains(r));
        rows.lemma_filter_contains_rev(p, r);
        if r.status == Some("done"@) { assert(closed.contains("done"@)); }
        if r.status == Some("cancelled"@) { assert(closed.contains("cancelled"@)); }
    }
    assert forall|r: RecordView| #[trigger] rows.contains(r) && of_kind(schema, "task"@, r) && r.status != Some("done"@)
        && r.status != Some("cancelled"@) implies open_tasks(schema, rows).contains(r) by {
        assert(open_tasks(schema, rows) == rows.filter(p));
        if let Some(st) = r.status {
            if closed.contains(st) {
                let k = choose|k: int| 0 <= k < closed.len() && closed[k] == st;
                assert(k == 0 || k == 1);
            }
        }
        assert(p(r));
    }
}

/// The open risks of a weekly status are exactly the risk items, in order,
/// whose status is none of `mitigated`, `accepted` and `closed`.
pub proof fn law_weekly_open_risks(schema: ProjectSchema, rows: Seq<RecordView>)
    ensures
        forall|i: int| 0 <= i < open_risks(schema, rows).len() ==> {
            let r = #[trigger] open_risks(schema, rows)[i];
            &&& rows.contains(r)
            &&& of_kind(schema, "risk"@, r)
            &&& r.status != Some("mitigated"@)
            &&& r.status != Some("accepted"@)
            &&& r.status != Some("closed"@)
        },
        forall|r: RecordView| #[trigger] rows.contains(r) && of_kind(schema, "risk"@, r) && r.status != Some("mitigated"@)
            && r.status != Some("accepted"@) && r.status != Some("closed"@) ==> open_risks(schema, rows).contains(r),
{
    broadcast use vstd::seq_lib::group_filter_ensures;
    let closed = seq!["mitigated"@, "accepted"@, "closed"@];
    assert(closed[0] == "mitigated"@ && closed[1] == "accepted"@ && closed[2] == "closed"@);
    let p = open_of_kind(schema, "risk"@, closed);
    assert forall|i: int| 0 <= i < open_risks(schema, rows).len() implies {
        let r = #[trigger] open_risks(schema, rows)[i];
        &&& rows.contains(r)
        &&& of_kind(schema, "risk"@, r)
        &&& r.status != Some("mitigated"@)
        &&& r.status != Some("accepted"@)
        &&& r.status != Some("closed"@)
    } by {
        let r = open_risks(schema, rows)[i];
        assert(open_risks(schema, rows) == rows.filter(p));
        assert(rows.filter(p)[i] == r);
        assert(p(r));
        assert(rows.filter(p).contains(r));
        rows.lemma_filter_contains_rev(p, r);
        if r.status == Some("mitigated"@) { assert(closed.contains("mitigated"@)); }
        if r.status == Some("accepted"@) { assert(closed.contains("accepted"@)); }
        if r.status == Some("closed"@) { assert(closed.contains("closed"@)); }
    }
    assert forall|r: RecordView| #[trigger] rows.contains(r) && of_kind(schema, "risk"@, r) && r.status != Some("mitigated"@)
        && r.status != Some("accepted"@) && r.status != Some("closed"@) implies open_risks(schema, rows).contains(r) by {
        assert(open_risks(schema, rows) == rows.filter(p));
        if let Some(st) = r.status {
            if closed.contains(st) {
                let k = choose|k: int| 0 <= k < closed.len() && closed[k] == st;
                assert(k == 0 || k == 1 || k == 2);
            }
        }
        assert(p(r));
    }
}

// ─── Full report ──────────────────────────────────────────────────────────────

/// The canonical name of a type, or the type itself when the schema does
/// not know it.
pub open spec fn canonical_of(schema: ProjectSchema, t: Seq<char>) -> Seq<char> {
    match resolved_type(schema, t) {
        Some(c) => c,
        None => t,
    }
}

/// The canonical types of the items, in order.
pub open spec fn canon_types(schema: ProjectSchema, rows: Seq<RecordView>) -> Seq<Seq<char>> {
    rows.map_values(|r: RecordView| canonical_of(schema, r.item_type))
}

/// The distinct canonical types of the items, in increasing order.
pub open spec fn type_order(schema: ProjectSchema, rows: Seq<RecordView>) -> Seq<Seq<char>> {
    choose|s: Seq<Seq<char>>| strictly_sorted(s) && s.to_set() == canon_types(schema, rows).to_set()
}

/// The item's canonical type is `t`.
pub open spec fn of_canon(schema: ProjectSchema, t: Seq<char>) -> spec_fn(RecordView) -> bool {
    |r: RecordView| canonical_of(schema, r.item_type) == t
}

/// The summary lines: each type with its number of items.
pub open spec fn summary_lines(schema: ProjectSchema, rows: Seq<RecordView>, types: Seq<Seq<char>>) -> Seq<char>
    decreases types.len(),
{
    if types.len() == 0 {
        Seq::empty()
    } else {
        summary_lines(schema, rows, types.drop_last()) + "| "@ + types.last() + " | "@
            + decimal(rows.filter(of_canon(schema, types.last())).len()) + " |\n"@
    }
}

/// The sections of the types: a heading and a table of its items each.
pub open spec fn type_sections(schema: ProjectSchema, rows: Seq<RecordView>, types: Seq<Seq<char>>) -> Seq<char>
    decreases types.len(),
{
    if types.len() == 0 {
        Seq::empty()
    } else {
        type_sections(schema, rows, types.drop_last()) + "\n## "@ + capitalized(types.last()) + "s\n\n"@ + item_header()
            + item_lines(rows.filter(of_canon(schema, types.last())))
    }
}

/// The distinct strings of `s`, in the order they first occur.
pub open spec fn first_seen(s: Seq<Seq<char>>) -> Seq<Seq<char>>
    decreases s.len(),
{
    if s.len() == 0 {
        s
    } else {
        let p = first_seen(s.drop_last());
        if p.contains(s.last()) { p } else { p.push(s.last()) }
    }
}

/// The sessions of the items, in order.
pub open spec fn sessions_in(rows: Seq<RecordView>) -> Seq<Seq<char>> {
    rows.map_values(|r: RecordView| r.session_id)
}

/// The session history lines: each session with its number of items.
pub open spec fn history_lines(rows: Seq<RecordView>, sids: Seq<Seq<char>>) -> Seq<char>
    decreases sids.len(),
{
    if sids.len() == 0 {
        Seq::empty()
    } else {
        history_lines(rows, sids.drop_last()) + "| "@ + short_session(sids.last()) + " | "@
            + decimal(count_of(sessions_in(rows), sids.last())) + " |\n"@
    }
}

/// The text of the full report.
pub open spec fn full_text(schema: ProjectSchema, rows: Seq<RecordView>, now: u64) -> Seq<char> {
    let types = type_order(schema, rows);
    "# Full Project Report\nGenerated: "@ + date_text(now) + "\n\n"@ + "## Summary\n\n"@ + "| Type | Count |\n|---|---|\n"@
        + summary_lines(schema, rows, types) + type_sections(schema, rows, types)
        + "\n## Session History\n\n"@ + "| Session | Items |\n|---|---|\n"@ + history_lines(rows, first_seen(sessions_in(rows)))
}

/// Every session of the items can be shortened.
pub open spec fn sessions_shortenable(rows: Seq<RecordView>) -> bool {
    forall|k: int| 0 <= k < rows.len() ==> shortenable(#[trigger] rows[k].session_id)
}

/// The canonical type of an item.
fn canonical_type(schema: &ProjectSchema, t: &str) -> (r: String)
    ensures
        r@ == canonical_of(*schema, t@),
{
    match resolve_type(schema, t) {
        Some(c) => c.to_owned(),
        None => t.to_owned(),
    }
}

/// The items whose canonical type is `t`, in order.
fn group_of<'a>(items: &'a Vec<ItemRecord>, schema: &ProjectSchema, t: &str) -> (r: Vec<&'a ItemRecord>)
    ensures
        refs_view(r@) == records_view(items@).filter(of_canon(*schema, t@)),
{
    let ghost rv = records_view(items@);
    let ghost p = of_canon(*schema, t@);
    let mut out: Vec<&ItemRecord> = Vec::new();
    for i in 0..items.len()
        invariant
            rv == records_view(items@),
            p == of_canon(*schema, t@),
            refs_view(out@) == rv.take(i as int).filter(p),
    {
        proof {
            assert(rv.take(i + 1).drop_last() =~= rv.take(i as int));
            assert(rv.take(i + 1).last() == items@[i as int]@);
            reveal(Seq::filter);
        }
        let c = canonical_type(schema, items[i].item_type.as_str());
        let ghost before = refs_view(out@);
        if str_eq(c.as_str(), t) {
            out.push(&items[i]);
            proof { assert(refs_view(out@) =~= before.push(items@[i as int]@)); }
        }
    }
    proof { assert(rv.take(items.len() as int) =~= rv); }
    out
}

/// The number of items of session `sid`.
fn session_count(items: &Vec<ItemRecord>, sid: &str) -> (r: usize)
    ensures
        r == count_of(sessions_in(records_view(items@)), sid@),
{
    let ghost sv = sessions_in(records_view(items@));
    let mut n: usize = 0;
    for i in 0..items.len()
        invariant
            sv == sessions_in(records_view(items@)),
            n == count_of(sv.take(i as int), sid@),
            n <= i,
    {
        proof {
            assert(sv.take(i + 1).drop_last() =~= sv.take(i as int));
            assert(sv.take(i + 1).last() == items@[i as int].session_id@);
        }
        if str_eq(items[i].session_id.as_str(), sid) {
            n = n + 1;
        }
    }
    proof { assert(sv.take(items.len() as int) =~= sv); }
    n
}

/// The sessions of the items in the order they first occur.
fn distinct_sessions(items: &Vec<ItemRecord>) -> (r: Vec<String>)
    ensures
        views(r@) == first_seen(sessions_in(records_view(items@))),
        forall|k: int| 0 <= k < r.len() ==> exists|i: int| 0 <= i < items.len() && (#[trigger] r@[k])@ == items@[i].session_id@,
{
    let ghost sv = sessions_in(records_view(items@));
    let mut seen: Vec<String> = Vec::new();
    for i in 0..items.len()
        invariant
            sv == sessions_in(records_view(items@)),
            views(seen@) == first_seen(sv.take(i as int)),
            forall|k: int| 0 <= k < seen.len() ==> exists|j: int| 0 <= j < items.len() && (#[trigger] seen@[k])@ == items@[j].session_id@,
    {
        proof {
            assert(sv.take(i + 1).drop_last() =~= sv.take(i as int));
            assert(sv.take(i + 1).last() == items@[i as int].session_id@);
        }
        let sid = items[i].session_id.as_str();
        let known = crate::seqs::contains_str(&seen, sid);
        proof {
            if known {
                let j = choose|j: int| 0 <= j < seen.len() && (#[trigger] seen@[j])@ == sid@;
                assert(views(seen@)[j] == sid@);
            } else {
                assert forall|j: int| 0 <= j < views(seen@).len() implies views(seen@)[j] != sid@ by {
                    assert(views(seen@)[j] == seen@[j]@);
                }
            }
        }
        let ghost before = views(seen@);
        if !known {
            seen.push(sid.to_owned());
            proof { assert(views(seen@) =~= before.push(sid@)); }
        }
    }
    proof { assert(sv.take(items.len() as int) =~= sv); }
    seen
}

/// The full report: the text and the number of items.
pub fn report_full(items: &Vec<ItemRecord>, schema: &ProjectSchema, now_ms: u64) -> (r: (String, usize))
    requires
        sessions_shortenable(records_view(items@)),
    ensures
        r.0@ == full_text(*schema, records_view(items@), now_ms),
        r.1 == items.len(),
{
    let ghost rows = records_view(items@);
    let mut canon: Vec<String> = Vec::new();
    for i in 0..items.len()
        invariant
            rows == records_view(items@),
            views(canon@) == canon_types(*schema, rows).take(i as int),
    {
        let c = canonical_type(schema, items[i].item_type.as_str());
        let ghost before = views(canon@);
        canon.push(c);
        proof {
            assert(views(canon@) =~= before.push(canonical_of(*schema, items@[i as int].item_type@)));
            assert(canon_types(*schema, rows).take(i + 1) =~= canon_types(*schema, rows).take(i as int).push(canonical_of(*schema, items@[i as int].item_type@)));
        }
    }
    proof { assert(canon_types(*schema, rows).take(items.len() as int) =~= canon_types(*schema, rows)); }
    let types = sorted_distinct(&canon);
    let ghost tv = views(types@);
    proof {
        let chosen = type_order(*schema, rows);
        assert(strictly_sorted(tv) && tv.to_set() == canon_types(*schema, rows).to_set());
        crate::text::lemma_strictly_sorted_unique(chosen, tv);
    }

    let mut out = "# Full Project Report\nGenerated: ".to_owned();
    let date = format_date(now_ms);
    out.append(date.as_str());
    out.append("\n\n");
    out.append("## Summary\n\n");
    out.append("| Type | Count |\n|---|---|\n");
    let ghost head = out@;
    for k in 0..types.len()
        invariant
            rows == records_view(items@),
            tv == views(types@),
            out@ == head + summary_lines(*schema, rows, tv.take(k as int)),
    {
        proof {
            assert(tv.take(k + 1).drop_last() =~= tv.take(k as int));
            assert(tv.take(k + 1).last() == types@[k as int]@);
        }
        let group = group_of(items, schema, types[k].as_str());
        out.append("| ");
        out.append(types[k].as_str());
        out.append(" | ");
        proof { assert(refs_view(group@).len() == group.len()); }
        let d = decimal_string(group.len() as u128);
        out.append(d.as_str());
        out.append(" |\n");
        proof { assert(out@ =~= head + summary_lines(*schema, rows, tv.take(k + 1))); }
    }
    proof { assert(tv.take(types.len() as int) =~= tv); }
    let ghost mid = out@;
    for k in 0..types.len()
        invariant
            rows == records_view(items@),
            tv == views(types@),
            out@ == mid + type_sections(*schema, rows, tv.take(k as int)),
    {
        proof {
            assert(tv.take(k + 1).drop_last() =~= tv.take(k as int));
            assert(tv.take(k + 1).last() == types@[k as int]@);
        }
        let group = group_of(items, schema, types[k].as_str());
        out.append("\n## ");
        let cap = capitalize(types[k].as_str());
        out.append(cap.as_str());
        out.append("s\n\n");
        out.append("| Priority | Status | Description |\n|---|---|---|\n");
        let lines = item_lines_of(&group);
        out.append(lines.as_str());
        proof { assert(out@ =~= mid + type_sections(*schema, rows, tv.take(k + 1))); }
    }
    proof { assert(tv.take(types.len() as int) =~= tv); }

    out.append("\n## Session History\n\n");
    out.append("| Session | Items |\n|---|---|\n");
    let sessions = distinct_sessions(items);
    let ghost sv = views(sessions@);
    let ghost tail = out@;
    for k in 0..sessions.len()
        invariant
            rows == records_view(items@),
            sessions_shortenable(rows),
            sv == views(sessions@),
            forall|j: int| 0 <= j < sessions.len() ==> exists|i: int| 0 <= i < items.len() && (#[trigger] sessions@[j])@ == items@[i].session_id@,
            out@ == tail + history_lines(rows, sv.take(k as int)),
    {
        proof {
            assert(sv.take(k + 1).drop_last() =~= sv.take(k as int));
            assert(sv.take(k + 1).last() == sessions@[k as int]@);
            let i = choose|i: int| 0 <= i < items.len() && (#[trigger] sessions@[k as int])@ == items@[i].session_id@;
            assert(rows[i].session_id == items@[i].session_id@);
        }
        out.append("| ");
        let short = short_session_id(sessions[k].as_str());
        out.append(short.as_str());
        out.append(" | ");
        let n = session_count(items, sessions[k].as_str());
        let d = decimal_string(n as u128);
        out.append(d.as_str());
        out.append(" |\n");
        proof { assert(out@ =~= tail + history_lines(rows, sv.take(k + 1))); }
    }
    proof {
        assert(sv.take(sessions.len() as int) =~= sv);
        assert(out@ =~= full_text(*schema, rows, now_ms));
    }
    (out, items.len())
}

// ─── Report requests ──────────────────────────────────────────────────────────

/// The module that records reports.
pub open spec fn report_module() -> Seq<char> {
    "report_export"@
}

/// A report event.
pub open spec fn report_ev(etype: Seq<char>, fields: Seq<(Seq<char>, JView)>) -> ModuleEvent {
    (report_module(), (etype, fields))
}

/// The four report type names differ from one another.
proof fn lemma_report_types_differ()
    ensures
        "weekly"@ != "risk-register"@,
        "weekly"@ != "stakeholders"@,
        "weekly"@ != "full"@,
        "risk-register"@ != "stakeholders"@,
        "risk-register"@ != "full"@,
        "stakeholders"@ != "full"@,
{
    reveal_strlit("weekly");
    reveal_strlit("risk-register");
    reveal_strlit("stakeholders");
    reveal_strlit("full");
    assert("weekly"@[0] != "risk-register"@[0]);
    assert("weekly"@[0] != "stakeholders"@[0]);
    assert("weekly"@[0] != "full"@[0]);
    assert("risk-register"@[0] != "stakeholders"@[0]);
    assert("risk-register"@[0] != "full"@[0]);
    assert("stakeholders"@[0] != "full"@[0]);
}

/// The report types there are.
pub open spec fn valid_report_type(t: Seq<char>) -> bool {
    t == "weekly"@ || t == "risk-register"@ || t == "stakeholders"@ || t == "full"@
}

/// The events of a report request: `ReportRequested`, then
/// `ReportFailedInvalidType` for an unknown report type.
pub open spec fn request_events(report_type: Seq<char>, graph_path: Option<Seq<char>>) -> Seq<ModuleEvent> {
    let req = report_ev("ReportRequested"@, seq![("report_type"@, JView::Str(report_type)), ("graph_path"@, jopt_v(graph_path))]);
    if valid_report_type(report_type) {
        seq![req]
    } else {
        seq![req, report_ev("ReportFailedInvalidType"@, seq![("failure_reason"@, JView::Str("invalid_report_type"@)),
            ("report_type"@, JView::Str(report_type))])]
    }
}

/// Records a report event.
fn emit_report(outbox: &mut Vec<OutEvent>, etype: &str, cid: &str, payload: Vec<(String, Json)>,
    Ghost(start): Ghost<Seq<OutEvent>>, Ghost(evs): Ghost<Seq<ModuleEvent>>)
    requires
        appended_in(start, old(outbox)@, cid@, evs),
    ensures
        appended_in(start, final(outbox)@, cid@, evs.push(report_ev(etype@, crate::payload::pv(payload@)))),
{
    let ghost mid = outbox@;
    emit(outbox, etype, "report_export", cid, payload);
    proof { lemma_appended_in_push(start, mid, outbox@, cid@, evs, report_ev(etype@, crate::payload::pv(payload@))); }
}

/// Records a report request and checks its type; returns whether the type
/// is one there is.
pub fn request_report(report_type: &str, graph_path: Option<&str>, cid: &str, outbox: &mut Vec<OutEvent>) -> (r: bool)
    ensures
        r == valid_report_type(report_type@),
        appended_in(old(outbox)@, final(outbox)@, cid@, request_events(report_type@, opt_str_view(graph_path))),
{
    let ghost start = outbox@;
    proof { lemma_appended_in_none(start, cid@); }
    let gp = crate::record::own(graph_path);
    emit_report(outbox, "ReportRequested", cid, payload2("report_type", js(report_type), "graph_path", crate::payload::jo(&gp)),
        Ghost(start), Ghost(Seq::empty()));
    let valid = str_eq(report_type, "weekly") || str_eq(report_type, "risk-register") || str_eq(report_type, "stakeholders")
        || str_eq(report_type, "full");
    if !valid {
        let ghost req = report_ev("ReportRequested"@, seq![("report_type"@, JView::Str(report_type@)),
            ("graph_path"@, jopt_v(opt_str_view(graph_path)))]);
        let ghost reqs = seq![req];
        proof { assert(Seq::<ModuleEvent>::empty().push(req) =~= reqs); }
        emit_report(outbox, "ReportFailedInvalidType", cid,
            payload2("failure_reason", js("invalid_report_type"), "report_type", js(report_type)), Ghost(start), Ghost(reqs));
    } else {
        proof {
            assert(Seq::<ModuleEvent>::empty().push(report_ev("ReportRequested"@, seq![("report_type"@, JView::Str(report_type@)),
                ("graph_path"@, jopt_v(opt_str_view(graph_path)))])) =~= request_events(report_type@, opt_str_view(graph_path)));
        }
    }
    valid
}

/// The items a report covers: those whose type the schema knows.
pub open spec fn recognized(schema: ProjectSchema, rows: Seq<RecordView>) -> Seq<RecordView> {
    rows.filter(|r: RecordView| resolved_type(schema, r.item_type) is Some)
}

/// The event recorded for an item of unknown type.
pub open spec fn unknown_record_event(schema: ProjectSchema) -> spec_fn(RecordView) -> Option<ModuleEvent> {
    |r: RecordView| if resolved_type(schema, r.item_type) is None {
        Some((crate::schema::schema_module(), ("SchemaTypeUnknown"@, seq![("item_id"@, JView::Str(r.item_id)),
            ("unknown_type"@, JView::Str(r.item_type))])))
    } else {
        None
    }
}

/// The text of a report of the given type on the given items.
pub open spec fn report_text(schema: ProjectSchema, report_type: Seq<char>, rows: Seq<RecordView>, events: Seq<Json>, now: u64) -> Seq<char> {
    if report_type == "full"@ {
        full_text(schema, rows, now)
    } else if report_type == "risk-register"@ {
        risk_register_text(schema, rows, now)
    } else if report_type == "stakeholders"@ {
        stakeholders_text(schema, rows, now)
    } else {
        weekly_text(schema, rows, events, now)
    }
}

/// The number of items a report of the given type counts.
pub open spec fn report_count(schema: ProjectSchema, report_type: Seq<char>, rows: Seq<RecordView>) -> nat {
    if report_type == "risk-register"@ {
        risks_of(schema, rows).len()
    } else if report_type == "stakeholders"@ {
        stakeholders_of(schema, rows).len()
    } else {
        rows.len()
    }
}

/// `s` without the trailing slashes.
pub open spec fn without_slashes(s: Seq<char>) -> Seq<char>
    decreases s.len(),
{
    if s.len() > 0 && s.last() == '/' { without_slashes(s.drop_last()) } else { s }
}

/// The path a report of the given type is written to in the graph.
pub open spec fn report_path(graph_path: Seq<char>, report_type: Seq<char>) -> Seq<char> {
    without_slashes(graph_path) + "/"@ + report_file_name(report_type)
}

/// The session identifiers the report shortens can be shortened.
pub open spec fn report_shortenable(schema: ProjectSchema, events: Seq<Json>, report_type: Seq<char>, now: u64) -> bool {
    &&& (report_type == "full"@ ==> sessions_shortenable(recognized(schema, report_items(events))))
    &&& (report_type == "weekly"@ ==> recent_shortenable(events, now))
}

/// The events of composing a report: `ReportFailedEmptyRecord` for an
/// empty record, `ReportFailedOutputNotFound` when the graph path is no
/// directory, otherwise `SchemaTypeUnknown` for each item of unknown type.
pub open spec fn compose_events(schema: ProjectSchema, events: Seq<Json>, graph_path: Option<Seq<char>>, graph_is_dir: bool) -> Seq<ModuleEvent> {
    if report_items(events).len() == 0 {
        seq![report_ev("ReportFailedEmptyRecord"@, seq![("failure_reason"@, JView::Str("empty_record"@))])]
    } else if graph_path is Some && !graph_is_dir {
        seq![report_ev("ReportFailedOutputNotFound"@, seq![("failure_reason"@, JView::Str("output_not_found"@)),
            ("graph_path"@, JView::Str(graph_path.unwrap()))])]
    } else {
        report_items(events).filter_map(unknown_record_event(schema))
    }
}

/// A composed report: its text, the number of items it counts and the
/// file it goes to (none for standard output).
pub struct ReportPlan {
    pub content: String,
    pub item_count: usize,
    pub report_file: Option<String>,
}

/// The path to write a report to.
fn report_file_path(graph_path: &str, report_type: &str) -> (r: String)
    ensures
        r@ == report_path(graph_path@, report_type@),
{
    let v = chars_of(graph_path);
    let mut end = v.len();
    proof { assert(v@.take(end as int) =~= graph_path@); }
    while end > 0 && v[end - 1] == '/'
        invariant
            end <= v.len(),
            v@ == graph_path@,
            without_slashes(v@.take(end as int)) == without_slashes(graph_path@),
        decreases end,
    {
        proof { assert(v@.take(end as int).drop_last() =~= v@.take(end - 1)); }
        end = end - 1;
    }
    proof {
        if end == v.len() { assert(v@.take(end as int) =~= graph_path@); }
    }
    let mut r = string_of(&v, 0, end);
    proof { assert(v@.subrange(0, end as int) =~= v@.take(end as int)); }
    r.append("/");
    r.append(report_filename(report_type));
    r
}

/// Whether the report's session identifiers can be shortened.
pub fn report_ids_shortenable(schema: &ProjectSchema, events: &Vec<Json>, report_type: &str, now_ms: u64) -> (r: bool)
    ensures
        r == report_shortenable(*schema, events@, report_type@, now_ms),
{
    proof { lemma_report_types_differ(); }
    if str_eq(report_type, "full") {
        let items = build_items(events);
        let kept = keep_recognized(&items, schema);
        let mut k: usize = 0;
        while k < kept.len()
            invariant
                k <= kept.len(),
                records_view(items@) == report_items(events@),
                records_view(kept@) == recognized(*schema, records_view(items@)),
                report_type@ == "full"@,
                forall|j: int| 0 <= j < k ==> shortenable(#[trigger] kept@[j].session_id@),
            decreases kept.len() - k,
        {
            if !session_shortenable(kept[k].session_id.as_str()) {
                proof { assert(records_view(kept@)[k as int].session_id == kept@[k as int].session_id@); }
                return false;
            }
            k = k + 1;
        }
        proof {
            assert forall|j: int| 0 <= j < records_view(kept@).len() implies shortenable(#[trigger] records_view(kept@)[j].session_id) by {
                assert(records_view(kept@)[j].session_id == kept@[j].session_id@);
            }
        }
        true
    } else if str_eq(report_type, "weekly") {
        let start = now_ms.saturating_sub(SEVEN_DAYS_MS);
        let recent = read_recent_sessions(events, start);
        proof { assert(start == week_start(now_ms)); }
        let mut k: usize = 0;
        while k < recent.len()
            invariant
                k <= recent.len(),
                start == week_start(now_ms),
                pairs_view(recent@) == recent_sessions(events@, start),
                report_type@ == "weekly"@,
                forall|j: int| 0 <= j < k ==> shortenable(#[trigger] recent@[j].0@),
            decreases recent.len() - k,
        {
            if !session_shortenable(recent[k].0.as_str()) {
                proof { assert(pairs_view(recent@)[k as int].0 == recent@[k as int].0@); }
                return false;
            }
            k = k + 1;
        }
        proof {
            assert(start == week_start(now_ms));
            assert forall|j: int| 0 <= j < pairs_view(recent@).len() implies shortenable(#[trigger] pairs_view(recent@)[j].0) by {
                assert(pairs_view(recent@)[j].0 == recent@[j].0@);
            }
        }
        true
    } else {
        true
    }
}

/// A copy of a report item.
fn copy_record(r: &ItemRecord) -> (c: ItemRecord)
    ensures
        c@ == r@,
{
    ItemRecord {
        item_id: r.item_id.clone(),
        item_type: r.item_type.clone(),
        description: r.description.clone(),
        session_id: r.session_id.clone(),
        status: r.status.clone(),
        priority: r.priority.clone(),
    }
}

/// The items whose type the schema knows.
fn keep_recognized(items: &Vec<ItemRecord>, schema: &ProjectSchema) -> (r: Vec<ItemRecord>)
    ensures
        records_view(r@) == recognized(*schema, records_view(items@)),
{
    let ghost rv = records_view(items@);
    let ghost p = |r: RecordView| resolved_type(*schema, r.item_type) is Some;
    let mut out: Vec<ItemRecord> = Vec::new();
    for i in 0..items.len()
        invariant
            rv == records_view(items@),
            p == (|r: RecordView| resolved_type(*schema, r.item_type) is Some),
            records_view(out@) == rv.take(i as int).filter(p),
    {
        proof {
            assert(rv.take(i + 1).drop_last() =~= rv.take(i as int));
            assert(rv.take(i + 1).last() == items@[i as int]@);
            reveal(Seq::filter);
        }
        let ghost before = records_view(out@);
        if resolve_type(schema, items[i].item_type.as_str()).is_some() {
            out.push(copy_record(&items[i]));
            proof { assert(records_view(out@) =~= before.push(items@[i as int]@)); }
        }
    }
    proof { assert(rv.take(items.len() as int) =~= rv); }
    out
}

/// Composes a report of a valid type on the record: fails on an empty
/// record or a graph path that is no directory, leaves out (and records)
/// the items of unknown type, and gives the text, the count and the file
/// path. Appends the events of `compose_events`.
pub fn compose_report(schema: &ProjectSchema, events: &Vec<Json>, report_type: &str, graph_path: Option<&str>, graph_is_dir: bool,
    now_ms: u64, cid: &str, outbox: &mut Vec<OutEvent>) -> (r: Option<ReportPlan>)
    requires
        valid_report_type(report_type@),
        report_shortenable(*schema, events@, report_type@, now_ms),
    ensures
        appended_in(old(outbox)@, final(outbox)@, cid@, compose_events(*schema, events@, opt_str_view(graph_path), graph_is_dir)),
        r is None <==> (report_items(events@).len() == 0 || (graph_path is Some && !graph_is_dir)),
        r matches Some(plan) ==> {
            let rows = recognized(*schema, report_items(events@));
            &&& plan.content@ == report_text(*schema, report_type@, rows, events@, now_ms)
            &&& plan.item_count == report_count(*schema, report_type@, rows)
            &&& ov(plan.report_file) == match graph_path {
                Some(gp) => Some(report_path(gp@, report_type@)),
                None => None::<Seq<char>>,
            }
        },
{
    let ghost start = outbox@;
    proof { lemma_appended_in_none(start, cid@); }
    let items = build_items(events);
    let ghost iv = records_view(items@);
    if items.len() == 0 {
        emit_report(outbox, "ReportFailedEmptyRecord", cid, payload1("failure_reason", js("empty_record")),
            Ghost(start), Ghost(Seq::empty()));
        proof { assert(Seq::<ModuleEvent>::empty().push(compose_events(*schema, events@, opt_str_view(graph_path), graph_is_dir)[0])
            =~= compose_events(*schema, events@, opt_str_view(graph_path), graph_is_dir)); }
        return None;
    }
    match graph_path {
        Some(gp) => {
            if !graph_is_dir {
                emit_report(outbox, "ReportFailedOutputNotFound", cid,
                    payload2("failure_reason", js("output_not_found"), "graph_path", js(gp)), Ghost(start), Ghost(Seq::empty()));
                proof { assert(Seq::<ModuleEvent>::empty().push(compose_events(*schema, events@, opt_str_view(graph_path), graph_is_dir)[0])
                    =~= compose_events(*schema, events@, opt_str_view(graph_path), graph_is_dir)); }
                return None;
            }
        },
        None => {},
    }
    let ghost fu = unknown_record_event(*schema);
    for i in 0..items.len()
        invariant
            iv == records_view(items@),
            iv == report_items(events@),
            fu == unknown_record_event(*schema),
            appended_in(start, outbox@, cid@, iv.take(i as int).filter_map(fu)),
    {
        proof {
            assert(iv.take(i + 1) =~= iv.take(i as int).push(iv[i as int]));
            crate::record::lemma_filter_map_push(iv.take(i as int), iv[i as int], fu);
            assert(iv[i as int] == items@[i as int]@);
        }
        let it = &items[i];
        if resolve_type(schema, it.item_type.as_str()).is_none() {
            let ghost mid = outbox@;
            crate::schema::emit_type_unknown(outbox, it.item_id.as_str(), it.item_type.as_str(), cid);
            proof { lemma_appended_in_push(start, mid, outbox@, cid@, iv.take(i as int).filter_map(fu), fu(iv[i as int]).unwrap()); }
        }
    }
    proof { assert(iv.take(items.len() as int) =~= iv); }
    let kept = keep_recognized(&items, schema);
    let ghost rows = recognized(*schema, report_items(events@));
    proof {
        assert(rows == records_view(kept@));
        lemma_report_types_differ();
    }
    let (content, item_count) = if str_eq(report_type, "full") {
        report_full(&kept, schema, now_ms)
    } else if str_eq(report_type, "risk-register") {
        report_risk_register(&kept, schema, now_ms)
    } else if str_eq(report_type, "stakeholders") {
        report_stakeholders(&kept, schema, now_ms)
    } else {
        let (c, n) = report_weekly(&kept, events, schema, now_ms);
        proof {
            assert(report_type@ == "weekly"@);
            assert(n == rows.len());
            assert(n == report_count(*schema, report_type@, rows));
        }
        (c, n)
    };
    let report_file = match graph_path {
        Some(gp) => Some(report_file_path(gp, report_type)),
        None => None,
    };
    proof {
        let rows = recognized(*schema, report_items(events@));
        assert(rows == records_view(kept@));
        assert(content@ == report_text(*schema, report_type@, rows, events@, now_ms));
        assert(rows.len() == kept.len());
        assert(item_count == report_count(*schema, report_type@, rows));
    }
    Some(ReportPlan { content, item_count, report_file })
}

/// The event of a generated report.
pub open spec fn generated_event(report_type: Seq<char>, graph_path: Option<Seq<char>>, report_file: Option<Seq<char>>,
    item_count: nat, now: u64) -> ModuleEvent {
    report_ev("ReportGenerated"@, seq![("report_type"@, JView::Str(report_type)),
        ("output_destination"@, JView::Str(match graph_path {
            Some(gp) => gp,
            None => "stdout"@,
        })),
        ("report_file"@, jopt_v(report_file)), ("item_count"@, JView::Num(item_count as u64)), ("generated_at"@, JView::Num(now))])
}

/// Records that a report was generated: its type, where it went (the
/// graph path, or standard output), its file, its item count and when.
pub fn report_generated(report_type: &str, graph_path: Option<&str>, plan: &ReportPlan, now_ms: u64, cid: &str,
    outbox: &mut Vec<OutEvent>)
    ensures
        appended_in(old(outbox)@, final(outbox)@, cid@,
            seq![generated_event(report_type@, opt_str_view(graph_path), ov(plan.report_file), plan.item_count as nat, now_ms)]),
{
    let ghost start = outbox@;
    proof { lemma_appended_in_none(start, cid@); }
    let destination = match graph_path {
        Some(gp) => gp,
        None => "stdout",
    };
    let file = crate::payload::jo(&plan.report_file);
    proof { assert(crate::payload::jv(file) == jopt_v(ov(plan.report_file))); }
    let payload = payload5("report_type", js(report_type), "output_destination", js(destination), "report_file", file,
            "item_count", Json::Num(plan.item_count as u64), "generated_at", Json::Num(now_ms));
    proof {
        assert(report_ev("ReportGenerated"@, crate::payload::pv(payload@)) == generated_event(report_type@, opt_str_view(graph_path),
            ov(plan.report_file), plan.item_count as nat, now_ms));
    }
    emit_report(outbox, "ReportGenerated", cid, payload, Ghost(start), Ghost(Seq::empty()));
    proof {
        assert(Seq::<ModuleEvent>::empty().push(generated_event(report_type@, opt_str_view(graph_path), ov(plan.report_file),
            plan.item_count as nat, now_ms)) =~= seq![generated_event(report_type@, opt_str_view(graph_path), ov(plan.report_file),
            plan.item_count as nat, now_ms)]);
    }
}

} // verus!
