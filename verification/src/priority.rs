//! The priority-ranked view of the record: each item's effective status and
//! priority, the filters by type, status and priority, and the ranking by
//! priority, then status.
use vstd::prelude::*;
use crate::text::{str_eq, views};
use crate::seqs::holds;
use crate::payload::{Json, JView, OutEvent, ModuleEvent, appended_in, lemma_appended_in_none, lemma_appended_in_push, emit,
    js, jo, jv, jopt_v, pv, payload1, payload3, payload6};
use crate::record::{ItemView, RecordedItem, items_view, record_items, read_all_record_items, explicit_status, explicit_priority,
    current_status, current_priority, proposed_values, proposed_values_for, task_marker, current_task_marker, ov,
    lemma_filter_map_push};
use crate::schema::{ProjectSchema, resolved_type, resolve_type, block_type_named, is_block_type, marker_status, marker_to_status,
    opt_str_view, all_status_names};
use crate::status::valid_priority;

verus! {

/// The rank of a priority: high first, then medium, low, none.
pub open spec fn priority_rank_of(p: Option<Seq<char>>) -> nat {
    match p {
        Some(x) => if x == "high"@ { 1 } else if x == "medium"@ { 2 } else if x == "low"@ { 3 } else { 4 },
        None => 4,
    }
}

/// The rank of a status: active work first, then work to start, waiting,
/// finished, and anything else.
pub open spec fn status_rank_of(s: Option<Seq<char>>) -> nat {
    match s {
        Some(x) => if x == "doing"@ || x == "in_progress"@ || x == "active"@ {
            1
        } else if x == "todo"@ || x == "open"@ || x == "pending"@ {
            2
        } else if x == "waiting"@ {
            3
        } else if x == "done"@ || x == "achieved"@ || x == "resolved"@ || x == "mitigated"@ || x == "accepted"@
            || x == "cancelled"@ || x == "missed"@ || x == "closed"@ || x == "inactive"@ {
            4
        } else {
            5
        },
        None => 5,
    }
}

/// The rank of a priority.
pub fn priority_rank(priority: Option<&str>) -> (r: u8)
    ensures
        r == priority_rank_of(opt_str_view(priority)),
{
    match priority {
        Some(p) => if str_eq(p, "high") { 1 } else if str_eq(p, "medium") { 2 } else if str_eq(p, "low") { 3 } else { 4 },
        None => 4,
    }
}

/// The rank of a status.
pub fn status_rank(status: Option<&str>) -> (r: u8)
    ensures
        r == status_rank_of(opt_str_view(status)),
{
    match status {
        Some(x) => if str_eq(x, "doing") || str_eq(x, "in_progress") || str_eq(x, "active") {
            1
        } else if str_eq(x, "todo") || str_eq(x, "open") || str_eq(x, "pending") {
            2
        } else if str_eq(x, "waiting") {
            3
        } else if str_eq(x, "done") || str_eq(x, "achieved") || str_eq(x, "resolved") || str_eq(x, "mitigated")
            || str_eq(x, "accepted") || str_eq(x, "cancelled") || str_eq(x, "missed") || str_eq(x, "closed")
            || str_eq(x, "inactive") {
            4
        } else {
            5
        },
        None => 5,
    }
}

/// The status of a task's current marker, for an item of a block type.
pub open spec fn marker_derived(schema: ProjectSchema, events: Seq<Json>, it: ItemView) -> Option<Seq<char>> {
    if block_type_named(schema, it.item_type) {
        match task_marker(events, it.item_id) {
            Some(m) => marker_status(schema, m),
            None => None,
        }
    } else {
        None
    }
}

/// The effective status of an item in the view: the last recorded, else
/// (for a block type) that of its task's current marker, else the proposed.
pub open spec fn view_status(schema: ProjectSchema, events: Seq<Json>, it: ItemView) -> Option<Seq<char>> {
    match explicit_status(events, it.item_id) {
        Some(x) => Some(x),
        None => match marker_derived(schema, events, it) {
            Some(x) => Some(x),
            None => proposed_values(events, it.item_id).0,
        },
    }
}

/// The effective priority of an item in the view: the last recorded, else
/// the proposed.
pub open spec fn view_priority(events: Seq<Json>, it: ItemView) -> Option<Seq<char>> {
    match explicit_priority(events, it.item_id) {
        Some(x) => Some(x),
        None => proposed_values(events, it.item_id).1,
    }
}

/// The effective status and priority of an item.
pub fn effective_status_priority(events: &Vec<Json>, item_id: &str, item_type: &str, schema: &ProjectSchema) -> (r: (Option<String>, Option<String>))
    ensures
        ({
            let it = ItemView { item_id: item_id@, item_type: item_type@, description: Seq::empty(), uncertain: false,
                uncertainty_reason: None, session_id: Seq::empty(), parent_item_id: None, current_marker: None };
            ov(r.0) == view_status(*schema, events@, it) && ov(r.1) == view_priority(events@, it)
        }),
{
    let mut st = current_status(events, item_id);
    let mut pr = current_priority(events, item_id);
    if st.is_none() && is_block_type(schema, item_type) {
        match current_task_marker(events, item_id) {
            Some(m) => match marker_to_status(schema, m.as_str()) {
                Some(mapped) => { st = Some(mapped.to_owned()); },
                None => {},
            },
            None => {},
        }
    }
    if st.is_none() || pr.is_none() {
        let (ps, pp) = proposed_values_for(events, item_id);
        if st.is_none() { st = ps; }
        if pr.is_none() { pr = pp; }
    }
    (st, pr)
}

/// Whether a status is one of the vocabulary's statuses.
pub fn status_in_vocabulary(schema: &ProjectSchema, status: &str) -> (r: bool)
    ensures
        r == holds(schema.statuses@, status@),
{
    let names = all_status_names(schema);
    let mut i: usize = 0;
    while i < names.len()
        invariant
            i <= names.len() == schema.statuses.len(),
            forall|j: int| 0 <= j < names.len() ==> (#[trigger] names@[j])@ == schema.statuses@[j]@,
            forall|j: int| 0 <= j < i ==> schema.statuses@[j]@ != status@,
        decreases names.len() - i,
    {
        if str_eq(names[i], status) {
            proof { assert(schema.statuses@[i as int]@ == status@); }
            return true;
        }
        i = i + 1;
    }
    false
}

// ─── The view ─────────────────────────────────────────────────────────────────

/// A row of the view.
pub struct ItemSummary {
    pub item_id: String,
    pub item_type: String,
    pub description: String,
    pub session_id: String,
    pub status: Option<String>,
    pub priority: Option<String>,
}

/// A row of the view, as values.
pub ghost struct SummaryView {
    pub item_id: Seq<char>,
    pub item_type: Seq<char>,
    pub description: Seq<char>,
    pub session_id: Seq<char>,
    pub status: Option<Seq<char>>,
    pub priority: Option<Seq<char>>,
}

impl View for ItemSummary {
    type V = SummaryView;

    open spec fn view(&self) -> SummaryView {
        SummaryView {
            item_id: self.item_id@,
            item_type: self.item_type@,
            description: self.description@,
            session_id: self.session_id@,
            status: ov(self.status),
            priority: ov(self.priority),
        }
    }
}

/// The views of rows.
pub open spec fn summaries_view(s: Seq<ItemSummary>) -> Seq<SummaryView> {
    s.map_values(|x: ItemSummary| x@)
}

/// The row of an item.
pub open spec fn summary_of(schema: ProjectSchema, events: Seq<Json>, it: ItemView) -> SummaryView {
    SummaryView {
        item_id: it.item_id,
        item_type: it.item_type,
        description: it.description,
        session_id: it.session_id,
        status: view_status(schema, events, it),
        priority: view_priority(events, it),
    }
}

/// The filters a view asks for.
pub ghost struct Filters {
    pub item_type: Option<Seq<char>>,
    pub status: Option<Seq<char>>,
    pub priority: Option<Seq<char>>,
}

/// A row passes every filter: its type resolves to the filter type's
/// concept, and its status and priority equal the filter values.
pub open spec fn passes_filters(schema: ProjectSchema, f: Filters, s: SummaryView) -> bool {
    &&& (f.item_type matches Some(t) ==> resolved_type(schema, s.item_type) == resolved_type(schema, t))
    &&& (f.status matches Some(x) ==> s.status == Some(x))
    &&& (f.priority matches Some(x) ==> s.priority == Some(x))
}

/// The row of an item of a known type that passes the filters.
pub open spec fn shown(schema: ProjectSchema, events: Seq<Json>, f: Filters) -> spec_fn(ItemView) -> Option<SummaryView> {
    |it: ItemView| if resolved_type(schema, it.item_type) is Some && passes_filters(schema, f, summary_of(schema, events, it)) {
        Some(summary_of(schema, events, it))
    } else {
        None
    }
}

/// The ranking key of a row: priority rank, then status rank.
pub open spec fn rank_key(s: SummaryView) -> nat {
    priority_rank_of(s.priority) * 10 + status_rank_of(s.status)
}

/// The row has ranking key `v`.
pub open spec fn key_is(v: nat) -> spec_fn(SummaryView) -> bool {
    |s: SummaryView| rank_key(s) == v
}

/// The rows with ranking keys below `v`, key after key, each key's rows in
/// the order they came in.
pub open spec fn ranked_below(rows: Seq<SummaryView>, v: nat) -> Seq<SummaryView>
    decreases v,
{
    if v == 0 { Seq::empty() } else { ranked_below(rows, (v - 1) as nat) + rows.filter(key_is((v - 1) as nat)) }
}

/// The rows in stable order of priority rank, then status rank.
pub open spec fn ranked(rows: Seq<SummaryView>) -> Seq<SummaryView> {
    ranked_below(rows, 50)
}

/// The rows of the view: the items of known types that pass the filters,
/// ranked.
pub open spec fn view_rows(schema: ProjectSchema, events: Seq<Json>, f: Filters) -> Seq<SummaryView> {
    ranked(record_items(events).filter_map(shown(schema, events, f)))
}

/// A filter value as JSON.
pub open spec fn fjson(o: Option<Seq<char>>) -> JView {
    jopt_v(o)
}

/// A row as JSON.
pub open spec fn row_json(s: SummaryView) -> JView {
    JView::Obj(seq![("item_id"@, JView::Str(s.item_id)), ("item_type"@, JView::Str(s.item_type)),
        ("description"@, JView::Str(s.description)), ("priority"@, jopt_v(s.priority)), ("status"@, jopt_v(s.status)),
        ("session_id"@, JView::Str(s.session_id))])
}

/// A view event.
pub open spec fn view_ev(etype: Seq<char>, fields: Seq<(Seq<char>, JView)>) -> ModuleEvent {
    ("priority_view"@, (etype, fields))
}

/// The failure on an invalid filter.
pub open spec fn invalid_filter(field: Seq<char>, value: Seq<char>) -> ModuleEvent {
    view_ev("PriorityViewFailedInvalidFilter"@, seq![("failure_reason"@, JView::Str("invalid_filter"@)),
        ("filter_field"@, JView::Str(field)), ("filter_value"@, JView::Str(value))])
}

/// The event recorded for an item of unknown type.
pub open spec fn unknown_type_event(schema: ProjectSchema) -> spec_fn(ItemView) -> Option<ModuleEvent> {
    |it: ItemView| if resolved_type(schema, it.item_type) is None {
        Some((crate::schema::schema_module(), ("SchemaTypeUnknown"@, seq![("item_id"@, JView::Str(it.item_id)),
            ("unknown_type"@, JView::Str(it.item_type))])))
    } else {
        None
    }
}

/// The events of a view request: `PriorityViewRequested`; then
/// `PriorityViewFailedEmptyRecord` for an empty record, or
/// `PriorityViewFailedInvalidFilter` for the first filter (type, status,
/// priority) the vocabulary does not know; otherwise `SchemaTypeUnknown` for
/// each item of unknown type and `PriorityViewReturned` with the rows.
pub open spec fn view_events(schema: ProjectSchema, events: Seq<Json>, f: Filters) -> Seq<ModuleEvent> {
    let req = view_ev("PriorityViewRequested"@, seq![("filter_type"@, fjson(f.item_type)), ("filter_status"@, fjson(f.status)),
        ("filter_priority"@, fjson(f.priority))]);
    if record_items(events).len() == 0 {
        seq![req, view_ev("PriorityViewFailedEmptyRecord"@, seq![("failure_reason"@, JView::Str("empty_record"@))])]
    } else if f.item_type matches Some(t) && resolved_type(schema, t) is None {
        seq![req, invalid_filter("type"@, f.item_type.unwrap())]
    } else if f.status matches Some(x) && !holds(schema.statuses@, x) {
        seq![req, invalid_filter("status"@, f.status.unwrap())]
    } else if f.priority matches Some(x) && !valid_priority(x) {
        seq![req, invalid_filter("priority"@, f.priority.unwrap())]
    } else {
        let rows = view_rows(schema, events, f);
        seq![req] + record_items(events).filter_map(unknown_type_event(schema))
            + seq![view_ev("PriorityViewReturned"@, seq![("item_count"@, JView::Num(rows.len() as u64)),
                ("filters_applied"@, JView::Obj(seq![("type"@, fjson(f.item_type)), ("status"@, fjson(f.status)),
                    ("priority"@, fjson(f.priority))])),
                ("items"@, JView::List(rows.map_values(|s: SummaryView| row_json(s))))])]
    }
}

/// The outcome of a view request.
pub enum ViewOutcome {
    EmptyRecord,
    /// The named filter (`type`, `status` or `priority`) is not valid.
    InvalidFilter { field: String, value: String },
    /// The rows shown, ranked.
    Rows { rows: Vec<ItemSummary> },
}


/// A copy of a row.
fn copy_summary(s: &ItemSummary) -> (r: ItemSummary)
    ensures
        r@ == s@,
{
    ItemSummary {
        item_id: s.item_id.clone(),
        item_type: s.item_type.clone(),
        description: s.description.clone(),
        session_id: s.session_id.clone(),
        status: s.status.clone(),
        priority: s.priority.clone(),
    }
}

/// The ranking key of a row.
fn rank_key_exec(s: &ItemSummary) -> (r: u8)
    ensures
        r == rank_key(s@),
        r < 50,
{
    let p = priority_rank(match &s.priority { Some(x) => Some(x.as_str()), None => None });
    let t = status_rank(match &s.status { Some(x) => Some(x.as_str()), None => None });
    p * 10 + t
}

/// Ranks rows stably by priority rank, then status rank.
fn rank_rows(rows: &Vec<ItemSummary>) -> (r: Vec<ItemSummary>)
    ensures
        summaries_view(r@) == ranked(summaries_view(rows@)),
{
    let ghost rv = summaries_view(rows@);
    let mut out: Vec<ItemSummary> = Vec::new();
    let mut v: u8 = 0;
    while v < 50
        invariant
            v <= 50,
            rv == summaries_view(rows@),
            summaries_view(out@) == ranked_below(rv, v as nat),
        decreases 50 - v,
    {
        let ghost head = summaries_view(out@);
        let ghost p = key_is(v as nat);
        for i in 0..rows.len()
            invariant
                rv == summaries_view(rows@),
                p == key_is(v as nat),
                summaries_view(out@) == head + rv.take(i as int).filter(p),
        {
            proof {
                assert(rv.take(i + 1).drop_last() =~= rv.take(i as int));
                assert(rv.take(i + 1).last() == rows@[i as int]@);
                reveal(Seq::filter);
            }
            let ghost before = summaries_view(out@);
            if rank_key_exec(&rows[i]) == v {
                out.push(copy_summary(&rows[i]));
                proof { assert(summaries_view(out@) =~= before.push(rows@[i as int]@)); }
            }
        }
        proof { assert(rv.take(rows.len() as int) =~= rv); }
        v = v + 1;
    }
    out
}

/// The row of an item.
fn summary_row(schema: &ProjectSchema, events: &Vec<Json>, it: &RecordedItem) -> (r: ItemSummary)
    ensures
        r@ == summary_of(*schema, events@, it@),
{
    let (status, priority) = effective_status_priority(events, it.item_id.as_str(), it.item_type.as_str(), schema);
    ItemSummary {
        item_id: it.item_id.clone(),
        item_type: it.item_type.clone(),
        description: it.description.clone(),
        session_id: it.session_id.clone(),
        status,
        priority,
    }
}

/// Whether a row passes the filters.
fn passes(schema: &ProjectSchema, s: &ItemSummary, ft: Option<&str>, fs: Option<&str>, fp: Option<&str>) -> (r: bool)
    ensures
        r == passes_filters(*schema, Filters { item_type: opt_str_view(ft), status: opt_str_view(fs), priority: opt_str_view(fp) }, s@),
{
    let ok_type = match ft {
        Some(t) => {
            let a = resolve_type(schema, s.item_type.as_str());
            let b = resolve_type(schema, t);
            match (a, b) {
                (Some(x), Some(y)) => str_eq(x, y),
                (None, None) => true,
                _ => false,
            }
        },
        None => true,
    };
    let ok_status = match fs {
        Some(x) => match &s.status { Some(y) => str_eq(y.as_str(), x), None => false },
        None => true,
    };
    let ok_priority = match fp {
        Some(x) => match &s.priority { Some(y) => str_eq(y.as_str(), x), None => false },
        None => true,
    };
    ok_type && ok_status && ok_priority
}

/// A row as JSON.
fn row_to_json(s: &ItemSummary) -> (r: Json)
    ensures
        jv(r) == row_json(s@),
{
    let p = payload6("item_id", js(s.item_id.as_str()), "item_type", js(s.item_type.as_str()),
        "description", js(s.description.as_str()), "priority", jo(&s.priority), "status", jo(&s.status),
        "session_id", js(s.session_id.as_str()));
    let ghost pvw = pv(p@);
    let r = Json::Obj(p);
    proof {
        match jv(r) {
            JView::Obj(x) => { assert(x =~= pvw); },
            _ => {},
        }
    }
    r
}

/// Records a view event.
fn emit_view(outbox: &mut Vec<OutEvent>, etype: &str, cid: &str, payload: Vec<(String, Json)>,
    Ghost(start): Ghost<Seq<OutEvent>>, Ghost(evs): Ghost<Seq<ModuleEvent>>)
    requires
        appended_in(start, old(outbox)@, cid@, evs),
    ensures
        appended_in(start, final(outbox)@, cid@, evs.push(view_ev(etype@, pv(payload@)))),
{
    let ghost mid = outbox@;
    emit(outbox, etype, "priority_view", cid, payload);
    proof { lemma_appended_in_push(start, mid, outbox@, cid@, evs, view_ev(etype@, pv(payload@))); }
}

/// Shows the record's items ranked by priority, then status, filtered by
/// type, status and priority (all given filters must hold). Appends the
/// events of `view_events`.
pub fn view_items(schema: &ProjectSchema, events: &Vec<Json>, filter_type: Option<&str>, filter_status: Option<&str>,
    filter_priority: Option<&str>, cid: &str, outbox: &mut Vec<OutEvent>) -> (r: ViewOutcome)
    ensures
        ({
            let f = Filters { item_type: opt_str_view(filter_type), status: opt_str_view(filter_status), priority: opt_str_view(filter_priority) };
            &&& appended_in(old(outbox)@, final(outbox)@, cid@, view_events(*schema, events@, f))
            &&& (r is EmptyRecord <==> record_items(events@).len() == 0)
            &&& (r matches ViewOutcome::Rows { rows } ==> summaries_view(rows@) == view_rows(*schema, events@, f))
        }),
{
    let ghost f = Filters { item_type: opt_str_view(filter_type), status: opt_str_view(filter_status), priority: opt_str_view(filter_priority) };
    let ghost start = outbox@;
    proof { lemma_appended_in_none(start, cid@); }
    let ghost req = view_ev("PriorityViewRequested"@, seq![("filter_type"@, fjson(f.item_type)), ("filter_status"@, fjson(f.status)),
        ("filter_priority"@, fjson(f.priority))]);
    let ft = crate::record::own(filter_type);
    let fs = crate::record::own(filter_status);
    let fp = crate::record::own(filter_priority);
    emit_view(outbox, "PriorityViewRequested", cid, payload3("filter_type", jo(&ft), "filter_status", jo(&fs), "filter_priority", jo(&fp)),
        Ghost(start), Ghost(Seq::empty()));
    let ghost reqs = seq![req];
    proof { assert(Seq::<ModuleEvent>::empty().push(req) =~= reqs); }
    let items = read_all_record_items(events);
    if items.len() == 0 {
        emit_view(outbox, "PriorityViewFailedEmptyRecord", cid, payload1("failure_reason", js("empty_record")), Ghost(start), Ghost(reqs));
        return ViewOutcome::EmptyRecord;
    }
    match filter_type {
        Some(t) => {
            if resolve_type(schema, t).is_none() {
                emit_view(outbox, "PriorityViewFailedInvalidFilter", cid,
                    payload3("failure_reason", js("invalid_filter"), "filter_field", js("type"), "filter_value", js(t)),
                    Ghost(start), Ghost(reqs));
                return ViewOutcome::InvalidFilter { field: "type".to_owned(), value: t.to_owned() };
            }
        },
        None => {},
    }
    match filter_status {
        Some(x) => {
            if !status_in_vocabulary(schema, x) {
                emit_view(outbox, "PriorityViewFailedInvalidFilter", cid,
                    payload3("failure_reason", js("invalid_filter"), "filter_field", js("status"), "filter_value", js(x)),
                    Ghost(start), Ghost(reqs));
                return ViewOutcome::InvalidFilter { field: "status".to_owned(), value: x.to_owned() };
            }
        },
        None => {},
    }
    match filter_priority {
        Some(x) => {
            if !crate::status::is_valid_priority(x) {
                emit_view(outbox, "PriorityViewFailedInvalidFilter", cid,
                    payload3("failure_reason", js("invalid_filter"), "filter_field", js("priority"), "filter_value", js(x)),
                    Ghost(start), Ghost(reqs));
                return ViewOutcome::InvalidFilter { field: "priority".to_owned(), value: x.to_owned() };
            }
        },
        None => {},
    }
    let ghost iv = items_view(items@);
    let ghost fsh = shown(*schema, events@, f);
    let ghost fu = unknown_type_event(*schema);
    let mut rows: Vec<ItemSummary> = Vec::new();
    for i in 0..items.len()
        invariant
            iv == items_view(items@),
            iv == record_items(events@),
            fsh == shown(*schema, events@, f),
            fu == unknown_type_event(*schema),
            f == (Filters { item_type: opt_str_view(filter_type), status: opt_str_view(filter_status), priority: opt_str_view(filter_priority) }),
            summaries_view(rows@) == iv.take(i as int).filter_map(fsh),
            appended_in(start, outbox@, cid@, seq![req] + iv.take(i as int).filter_map(fu)),
    {
        proof {
            assert(iv.take(i + 1) =~= iv.take(i as int).push(iv[i as int]));
            lemma_filter_map_push(iv.take(i as int), iv[i as int], fsh);
            lemma_filter_map_push(iv.take(i as int), iv[i as int], fu);
            assert(iv[i as int] == items@[i as int]@);
        }
        let it = &items[i];
        let ghost before = summaries_view(rows@);
        if resolve_type(schema, it.item_type.as_str()).is_none() {
            let ghost mid = outbox@;
            crate::schema::emit_type_unknown(outbox, it.item_id.as_str(), it.item_type.as_str(), cid);
            proof {
                lemma_appended_in_push(start, mid, outbox@, cid@, seq![req] + iv.take(i as int).filter_map(fu), fu(iv[i as int]).unwrap());
                assert((seq![req] + iv.take(i as int).filter_map(fu)).push(fu(iv[i as int]).unwrap())
                    =~= seq![req] + iv.take(i as int).filter_map(fu).push(fu(iv[i as int]).unwrap()));
            }
        } else {
            let row = summary_row(schema, events, it);
            if passes(schema, &row, filter_type, filter_status, filter_priority) {
                rows.push(row);
                proof { assert(summaries_view(rows@) =~= before.push(fsh(iv[i as int]).unwrap())); }
            }
        }
    }
    proof { assert(iv.take(items.len() as int) =~= iv); }
    let ranked_rows = rank_rows(&rows);
    let ghost rr = summaries_view(ranked_rows@);
    let mut vals: Vec<Json> = Vec::new();
    for k in 0..ranked_rows.len()
        invariant
            rr == summaries_view(ranked_rows@),
            vals.len() == k,
            forall|m: int| 0 <= m < k ==> jv(#[trigger] vals@[m]) == row_json(rr[m]),
    {
        vals.push(row_to_json(&ranked_rows[k]));
    }
    let ghost vv = vals@;
    let lst = Json::List(vals);
    proof {
        match jv(lst) {
            JView::List(x) => { assert(x =~= rr.map_values(|s: SummaryView| row_json(s))); },
            _ => {},
        }
    }
    let filters = payload3("type", jo(&ft), "status", jo(&fs), "priority", jo(&fp));
    let ghost fpv = pv(filters@);
    let fobj = Json::Obj(filters);
    proof {
        match jv(fobj) {
            JView::Obj(x) => { assert(x =~= fpv); },
            _ => {},
        }
    }
    emit_view(outbox, "PriorityViewReturned", cid,
        payload3("item_count", Json::Num(ranked_rows.len() as u64), "filters_applied", fobj, "items", lst),
        Ghost(start), Ghost(reqs + iv.filter_map(fu)));
    ViewOutcome::Rows { rows: ranked_rows }
}

// ─── Laws ─────────────────────────────────────────────────────────────────────

proof fn lemma_ranked_below(rows: Seq<SummaryView>, v: nat)
    ensures
        forall|i: int| 0 <= i < ranked_below(rows, v).len() ==> rank_key(#[trigger] ranked_below(rows, v)[i]) < v,
        forall|i: int, j: int| 0 <= i < j < ranked_below(rows, v).len()
            ==> rank_key(#[trigger] ranked_below(rows, v)[i]) <= rank_key(#[trigger] ranked_below(rows, v)[j]),
        forall|i: int| 0 <= i < ranked_below(rows, v).len() ==> rows.contains(#[trigger] ranked_below(rows, v)[i]),
    decreases v,
{
    broadcast use vstd::seq_lib::group_filter_ensures;
    if v > 0 {
        let w = (v - 1) as nat;
        lemma_ranked_below(rows, w);
        let a = ranked_below(rows, w);
        let b = rows.filter(key_is(w));
        assert(ranked_below(rows, v) == a + b);
        assert forall|i: int| 0 <= i < b.len() implies rank_key(#[trigger] b[i]) == w by {
            assert(key_is(w)(b[i]));
        }
        assert forall|i: int| 0 <= i < (a + b).len() implies rows.contains(#[trigger] (a + b)[i]) by {
            if i >= a.len() {
                assert((a + b)[i] == b[i - a.len()]);
                assert(b.contains(b[i - a.len()]));
                rows.lemma_filter_contains_rev(key_is(w), b[i - a.len()]);
            }
        }
    }
}

/// The view is ranked: the rows stand in order of priority rank (high,
/// medium, low, none), then status rank (active, to start, waiting,
/// finished, other).
pub proof fn law_view_is_ranked(schema: ProjectSchema, events: Seq<Json>, f: Filters)
    ensures
        forall|i: int, j: int| 0 <= i < j < view_rows(schema, events, f).len() ==>
            rank_key(#[trigger] view_rows(schema, events, f)[i]) <= rank_key(#[trigger] view_rows(schema, events, f)[j]),
{
    lemma_ranked_below(record_items(events).filter_map(shown(schema, events, f)), 50);
}

/// Priority `a` ranks no lower than priority `b` in the order high, medium,
/// low, then any other or none.
pub open spec fn ranks_no_lower(a: Option<Seq<char>>, b: Option<Seq<char>>) -> bool {
    &&& b == Some("high"@) ==> a == Some("high"@)
    &&& b == Some("medium"@) ==> a == Some("high"@) || a == Some("medium"@)
    &&& b == Some("low"@) ==> a == Some("high"@) || a == Some("medium"@) || a == Some("low"@)
}

/// The ranks of priorities: high before medium, medium before low, low
/// before any other priority or none, which all rank alike.
pub proof fn law_priority_ranks(x: Seq<char>)
    ensures
        priority_rank_of(Some("high"@)) < priority_rank_of(Some("medium"@)),
        priority_rank_of(Some("medium"@)) < priority_rank_of(Some("low"@)),
        priority_rank_of(Some("low"@)) < priority_rank_of(None),
        x != "high"@ && x != "medium"@ && x != "low"@ ==> priority_rank_of(Some(x)) == priority_rank_of(None),
{
    lemma_priority_names();
}

proof fn lemma_priority_names()
    ensures
        "high"@ != "medium"@,
        "high"@ != "low"@,
        "medium"@ != "low"@,
{
    reveal_strlit("high");
    reveal_strlit("medium");
    reveal_strlit("low");
    assert("high"@[0] != "medium"@[0]);
    assert("high"@[0] != "low"@[0]);
    assert("medium"@[0] != "low"@[0]);
}

proof fn lemma_key_orders_priority(a: SummaryView, b: SummaryView)
    requires
        rank_key(a) <= rank_key(b),
    ensures
        ranks_no_lower(a.priority, b.priority),
{
    lemma_priority_names();
    let pa = priority_rank_of(a.priority) as int;
    let pb = priority_rank_of(b.priority) as int;
    let sa = status_rank_of(a.status) as int;
    let sb = status_rank_of(b.status) as int;
    assert(1 <= sa <= 5 && 1 <= sb <= 5);
    assert(pa * 10 + sa <= pb * 10 + sb);
    assert(pa <= pb) by (nonlinear_arith)
        requires pa * 10 + sa <= pb * 10 + sb, 1 <= sa <= 5, 1 <= sb <= 5;
}

/// The view ranks priorities high, medium, low, then any other or none:
/// a row with priority high stands only after rows with priority high, a
/// row with priority medium only after rows with priority high or medium,
/// and a row with priority low only after rows with priority high, medium
/// or low.
pub proof fn law_view_priority_order(schema: ProjectSchema, events: Seq<Json>, f: Filters)
    ensures
        forall|i: int, j: int| 0 <= i < j < view_rows(schema, events, f).len() ==>
            ranks_no_lower(#[trigger] view_rows(schema, events, f)[i].priority, #[trigger] view_rows(schema, events, f)[j].priority),
{
    law_view_is_ranked(schema, events, f);
    assert forall|i: int, j: int| 0 <= i < j < view_rows(schema, events, f).len() implies
        ranks_no_lower(#[trigger] view_rows(schema, events, f)[i].priority, #[trigger] view_rows(schema, events, f)[j].priority) by {
        lemma_key_orders_priority(view_rows(schema, events, f)[i], view_rows(schema, events, f)[j]);
    }
}

/// The status is one of active work.
pub open spec fn status_active(s: Option<Seq<char>>) -> bool {
    s == Some("doing"@) || s == Some("in_progress"@) || s == Some("active"@)
}

/// The status is one of work to start.
pub open spec fn status_to_start(s: Option<Seq<char>>) -> bool {
    s == Some("todo"@) || s == Some("open"@) || s == Some("pending"@)
}

/// The status is one of finished work.
pub open spec fn status_finished(s: Option<Seq<char>>) -> bool {
    s == Some("done"@) || s == Some("achieved"@) || s == Some("resolved"@) || s == Some("mitigated"@)
        || s == Some("accepted"@) || s == Some("cancelled"@) || s == Some("missed"@) || s == Some("closed"@)
        || s == Some("inactive"@)
}

/// Status `a` ranks no lower than status `b` in the order active work, work
/// to start, waiting, finished work, then any other or none.
pub open spec fn status_no_lower(a: Option<Seq<char>>, b: Option<Seq<char>>) -> bool {
    &&& status_active(b) ==> status_active(a)
    &&& status_to_start(b) ==> status_active(a) || status_to_start(a)
    &&& b == Some("waiting"@) ==> status_active(a) || status_to_start(a) || a == Some("waiting"@)
    &&& status_finished(b) ==> status_active(a) || status_to_start(a) || a == Some("waiting"@) || status_finished(a)
}

proof fn lemma_key_orders_status(a: SummaryView, b: SummaryView)
    requires
        rank_key(a) <= rank_key(b),
        priority_rank_of(a.priority) == priority_rank_of(b.priority),
    ensures
        status_no_lower(a.status, b.status),
{
    let sa = status_rank_of(a.status) as int;
    let sb = status_rank_of(b.status) as int;
    assert(sa <= sb);
}

/// Among rows of equally ranked priority the view ranks statuses active
/// work first, then work to start, waiting, finished work, and any other
/// or none.
pub proof fn law_view_status_order(schema: ProjectSchema, events: Seq<Json>, f: Filters)
    ensures
        forall|i: int, j: int| 0 <= i < j < view_rows(schema, events, f).len()
            && priority_rank_of(#[trigger] view_rows(schema, events, f)[i].priority)
                == priority_rank_of(#[trigger] view_rows(schema, events, f)[j].priority) ==>
            status_no_lower(view_rows(schema, events, f)[i].status, view_rows(schema, events, f)[j].status),
{
    law_view_is_ranked(schema, events, f);
    assert forall|i: int, j: int| 0 <= i < j < view_rows(schema, events, f).len()
        && priority_rank_of(#[trigger] view_rows(schema, events, f)[i].priority)
            == priority_rank_of(#[trigger] view_rows(schema, events, f)[j].priority) implies
        status_no_lower(view_rows(schema, events, f)[i].status, view_rows(schema, events, f)[j].status) by {
        lemma_key_orders_status(view_rows(schema, events, f)[i], view_rows(schema, events, f)[j]);
    }
}

/// The filters are conjunctive: every row of the view is the row of an item
/// of the record whose type the vocabulary knows, and passes every filter
/// given.
pub proof fn law_view_rows_pass_filters(schema: ProjectSchema, events: Seq<Json>, f: Filters)
    ensures
        forall|i: int| 0 <= i < view_rows(schema, events, f).len() ==> passes_filters(schema, f, #[trigger] view_rows(schema, events, f)[i]),
{
    let items = record_items(events);
    let shown_rows = items.filter_map(shown(schema, events, f));
    lemma_ranked_below(shown_rows, 50);
    lemma_filter_map_shown(items, schema, events, f);
    assert forall|i: int| 0 <= i < view_rows(schema, events, f).len() implies passes_filters(schema, f, #[trigger] view_rows(schema, events, f)[i]) by {
        let x = view_rows(schema, events, f)[i];
        assert(view_rows(schema, events, f) == ranked_below(shown_rows, 50));
        assert(ranked_below(shown_rows, 50)[i] == x);
        assert(shown_rows.contains(x));
        let j = choose|j: int| 0 <= j < shown_rows.len() && shown_rows[j] == x;
        assert(passes_filters(schema, f, shown_rows[j]));
    }
}

proof fn lemma_filter_map_shown(items: Seq<ItemView>, schema: ProjectSchema, events: Seq<Json>, f: Filters)
    ensures
        forall|i: int| 0 <= i < items.filter_map(shown(schema, events, f)).len()
            ==> passes_filters(schema, f, #[trigger] items.filter_map(shown(schema, events, f))[i]),
    decreases items.len(),
{
    if items.len() > 0 {
        lemma_filter_map_shown(items.drop_last(), schema, events, f);
        lemma_filter_map_push(items.drop_last(), items.last(), shown(schema, events, f));
        assert(items.drop_last().push(items.last()) =~= items);
    }
}

} // verus!
