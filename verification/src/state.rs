//! The project state: incorporating a confirmed extraction session into
//! the project record (once only), finding the latest session still to
//! incorporate, and viewing the record's items by canonical type.
use vstd::prelude::*;
use crate::text::{str_eq, views};
use crate::seqs::{last_index, is_last, lemma_last_index, contains_str};
use crate::payload::{Json, JView, OutEvent, EventSpec, ModuleEvent, jv, pv, jopt_v, str_of, pstr_of, get, as_u64, jstr, jpstr,
    jpayload, ju64, appended, appended_in, lemma_appended_none, lemma_appended_push, lemma_appended_in_none, lemma_appended_in_push,
    emit, js, jo, payload1, payload2, payload3, payload7};
use crate::record::{ItemView, RecordedItem, items_view, event_is, is_event, or_empty, own_or_empty, extracted_entries, accepted_ids,
    session_items, task_items, read_task_items, find_confirmed_items, SessionReadError, lemma_filter_map_push};
use crate::schema::{ProjectSchema, resolved_type, resolve_type};
use crate::report::total_count;

verus! {

// ─── Incorporated sessions ────────────────────────────────────────────────────

/// The module that keeps the project state.
pub open spec fn state_module() -> Seq<char> {
    "project_state"@
}

/// The session an incorporation of the project state names (empty when it
/// names none) and the number of items it incorporated (zero when it gives
/// none).
pub open spec fn incorporation_entry(e: Json) -> Option<(Seq<char>, u64)> {
    if event_is(e, "project_state"@, "ItemsIncorporated"@) {
        Some((or_empty(pstr_of(e, "session_id"@)), match as_u64(get(get(e, "payload"@), "incorporated_count"@)) {
            Some(c) => c,
            None => 0,
        }))
    } else {
        None
    }
}

/// The incorporations of the record, in order.
pub open spec fn incorporations_of(events: Seq<Json>) -> Seq<(Seq<char>, u64)> {
    events.filter_map(|e: Json| incorporation_entry(e))
}

/// The views of session and count pairs.
pub open spec fn sessions_view(v: Seq<(String, u64)>) -> Seq<(Seq<char>, u64)> {
    v.map_values(|p: (String, u64)| (p.0@, p.1))
}

/// The incorporated sessions with their item counts, in order.
pub fn read_incorporated_sessions(events: &Vec<Json>) -> (r: Vec<(String, u64)>)
    ensures
        sessions_view(r@) == incorporations_of(events@),
{
    let mut out: Vec<(String, u64)> = Vec::new();
    for i in 0..events.len()
        invariant
            sessions_view(out@) == events@.take(i as int).filter_map(|e: Json| incorporation_entry(e)),
    {
        proof { assert(events@.take(i + 1).drop_last() =~= events@.take(i as int)); }
        let e = &events[i];
        let ghost before = sessions_view(out@);
        if is_event(e, "project_state", "ItemsIncorporated") {
            let sid = own_or_empty(jpstr(e, "session_id"));
            let count = match jpayload(e) {
                Some(p) => match ju64(p, "incorporated_count") {
                    Some(c) => c,
                    None => 0,
                },
                None => 0,
            };
            let ghost entry = (sid@, count);
            out.push((sid, count));
            proof { assert(sessions_view(out@) =~= before + seq![entry]); }
        }
    }
    proof { assert(events@.take(events.len() as int) =~= events@); }
    out
}

/// The session identifiers of incorporations.
pub open spec fn session_ids(s: Seq<(Seq<char>, u64)>) -> Seq<Seq<char>> {
    s.map_values(|p: (Seq<char>, u64)| p.0)
}

// ─── Incorporating a session ──────────────────────────────────────────────────

/// How reading a session's items goes: its confirmed items, or why they
/// cannot be read.
pub open spec fn session_read(events: Seq<Json>, sid: Seq<char>) -> Result<Seq<ItemView>, SessionReadError> {
    if extracted_entries(events, sid) is None {
        Err(SessionReadError::NoItemsExtracted)
    } else if accepted_ids(events, sid) is None {
        Err(SessionReadError::NoExtractionConfirmed)
    } else {
        Ok(session_items(events, sid))
    }
}

/// The counts of an incorporation fit: the record's total stays within
/// `u64`, and the number of sessions within `usize`.
pub open spec fn incorporation_fits(events: Seq<Json>, sid: Seq<char>) -> bool {
    &&& total_count(incorporations_of(events)) + session_items(events, sid).len() <= u64::MAX
    &&& incorporations_of(events).len() < usize::MAX
}

/// The outcome of an incorporation.
pub enum Incorporation {
    /// The session was incorporated before.
    Duplicate,
    /// The session's items were added: how many, the record's size now,
    /// and the number of sessions incorporated now.
    Incorporated { count: u64, total: u64, sessions: usize },
}

/// The request to incorporate a session.
pub open spec fn incorporation_requested(sid: Seq<char>) -> EventSpec {
    ("IncorporationRequested"@, seq![("session_id"@, JView::Str(sid))])
}

/// Incorporates a confirmed extraction session into the project record:
/// refuses a session incorporated before; fails when the session's
/// extraction or confirmation is missing; otherwise records the number of
/// items it adds and the record's new size.
pub fn incorporate(events: &Vec<Json>, session_id: &str, cid: &str, outbox: &mut Vec<OutEvent>) -> (r: Result<Incorporation, SessionReadError>)
    requires
        incorporation_fits(events@, session_id@),
    ensures
        ({
            let prior = incorporations_of(events@);
            let req = incorporation_requested(session_id@);
            if session_ids(prior).contains(session_id@) {
                &&& r matches Ok(Incorporation::Duplicate)
                &&& appended(old(outbox)@, final(outbox)@, state_module(), cid@, seq![req, ("IncorporationFailedDuplicate"@,
                    seq![("failure_reason"@, JView::Str("session_already_incorporated"@)), ("session_id"@, JView::Str(session_id@))])])
            } else {
                match session_read(events@, session_id@) {
                    Err(e) => r == Err::<Incorporation, SessionReadError>(e)
                        && appended(old(outbox)@, final(outbox)@, state_module(), cid@, seq![req]),
                    Ok(items) => {
                        let total = total_count(prior) + items.len();
                        &&& r matches Ok(Incorporation::Incorporated { count, total: t, sessions })
                            && count == items.len() && t == total && sessions == prior.len() + 1
                        &&& appended(old(outbox)@, final(outbox)@, state_module(), cid@, seq![req, ("ItemsIncorporated"@,
                            seq![("session_id"@, JView::Str(session_id@)), ("incorporated_count"@, JView::Num(items.len() as u64)),
                                ("total_record_size"@, JView::Num(total as u64))])])
                    },
                }
            }
        }),
{
    let ghost start = outbox@;
    let ghost req = incorporation_requested(session_id@);
    proof { lemma_appended_none(start, state_module(), cid@); }
    emit(outbox, "IncorporationRequested", "project_state", cid, payload1("session_id", js(session_id)));
    proof {
        lemma_appended_push(start, start, outbox@, state_module(), cid@, Seq::empty(), req);
        assert(Seq::<EventSpec>::empty().push(req) =~= seq![req]);
    }
    let prior = read_incorporated_sessions(events);
    let ghost pv_ = sessions_view(prior@);
    let mut dup = false;
    let mut total: u64 = 0;
    for k in 0..prior.len()
        invariant
            pv_ == sessions_view(prior@),
            pv_ == incorporations_of(events@),
            incorporation_fits(events@, session_id@),
            dup == session_ids(pv_.take(k as int)).contains(session_id@),
            total == total_count(pv_.take(k as int)),
    {
        proof {
            assert(pv_.take(k + 1).drop_last() =~= pv_.take(k as int));
            assert(session_ids(pv_.take(k + 1)) =~= session_ids(pv_.take(k as int)).push(prior@[k as int].0@));
            lemma_total_prefix(pv_, k as int + 1);
        }
        let ghost ids0 = session_ids(pv_.take(k as int));
        let ghost ids1 = session_ids(pv_.take(k + 1));
        let same = str_eq(prior[k].0.as_str(), session_id);
        proof {
            if same {
                assert(ids1[k as int] == session_id@);
            } else if !dup {
                assert forall|m: int| 0 <= m < ids1.len() implies ids1[m] != session_id@ by {
                    if m < k {
                        assert(ids1[m] == ids0[m]);
                    }
                }
            } else {
                let m = choose|m: int| 0 <= m < ids0.len() && ids0[m] == session_id@;
                assert(ids1[m] == ids0[m]);
            }
        }
        if same {
            dup = true;
        }
        total = total + prior[k].1;
    }
    proof {
        assert(pv_.take(prior.len() as int) =~= pv_);
    }
    if dup {
        let ghost mid = outbox@;
        let ghost failed: EventSpec = ("IncorporationFailedDuplicate"@,
            seq![("failure_reason"@, JView::Str("session_already_incorporated"@)), ("session_id"@, JView::Str(session_id@))]);
        emit(outbox, "IncorporationFailedDuplicate", "project_state", cid,
            payload2("failure_reason", js("session_already_incorporated"), "session_id", js(session_id)));
        proof {
            lemma_appended_push(start, mid, outbox@, state_module(), cid@, seq![req], failed);
            assert(seq![req].push(failed) =~= seq![req, failed]);
        }
        return Ok(Incorporation::Duplicate);
    }
    let items = match find_confirmed_items(events, session_id) {
        Ok(v) => v,
        Err(e) => return Err(e),
    };
    let count = items.len() as u64;
    let new_total = total + count;
    let ghost mid = outbox@;
    let ghost done: EventSpec = ("ItemsIncorporated"@, seq![("session_id"@, JView::Str(session_id@)),
        ("incorporated_count"@, JView::Num(count)), ("total_record_size"@, JView::Num(new_total))]);
    emit(outbox, "ItemsIncorporated", "project_state", cid,
        payload3("session_id", js(session_id), "incorporated_count", Json::Num(count), "total_record_size", Json::Num(new_total)));
    proof {
        lemma_appended_push(start, mid, outbox@, state_module(), cid@, seq![req], done);
        assert(seq![req].push(done) =~= seq![req, done]);
    }
    Ok(Incorporation::Incorporated { count, total: new_total, sessions: prior.len() + 1 })
}

/// The total of a prefix is at most the whole total.
proof fn lemma_total_prefix(s: Seq<(Seq<char>, u64)>, k: int)
    requires
        0 <= k <= s.len(),
    ensures
        total_count(s.take(k)) <= total_count(s),
    decreases s.len() - k,
{
    if k < s.len() {
        lemma_total_prefix(s, k + 1);
        assert(s.take(k + 1).drop_last() =~= s.take(k));
    } else {
        assert(s.take(k) =~= s);
    }
}

/// Whether incorporating the session keeps the counts within bounds.
pub fn incorporation_within_bounds(events: &Vec<Json>, session_id: &str) -> (r: bool)
    ensures
        r == incorporation_fits(events@, session_id@),
{
    let prior = read_incorporated_sessions(events);
    let ghost pv_ = sessions_view(prior@);
    let mut total: u128 = 0;
    for k in 0..prior.len()
        invariant
            pv_ == sessions_view(prior@),
            total == total_count(pv_.take(k as int)),
            total <= k * 0xffff_ffff_ffff_ffffu128,
    {
        proof { assert(pv_.take(k + 1).drop_last() =~= pv_.take(k as int)); }
        total = total + prior[k].1 as u128;
    }
    proof { assert(pv_.take(prior.len() as int) =~= pv_); }
    let items = crate::record::confirmed_items_for_session(events, session_id);
    proof { assert(items_view(items@).len() == items.len()); }
    total + (items.len() as u128) <= 0xffff_ffff_ffff_ffffu128 && prior.len() < usize::MAX
}

// ─── The latest session to incorporate ────────────────────────────────────────

/// The session an `ExtractionConfirmed` event confirms, whichever module
/// recorded it.
pub open spec fn confirmation_of(e: Json) -> Option<Seq<char>> {
    if str_of(e, "event_type"@) == Some("ExtractionConfirmed"@) { str_of(e, "correlation_id"@) } else { None }
}

/// The confirmed sessions, in order.
pub open spec fn confirmed_sessions(events: Seq<Json>) -> Seq<Seq<char>> {
    events.filter_map(|e: Json| confirmation_of(e))
}

/// The session is not among the incorporated ones.
pub open spec fn not_among(done: Seq<Seq<char>>) -> spec_fn(Seq<char>) -> bool {
    |s: Seq<char>| !done.contains(s)
}

/// The most recently confirmed session not yet incorporated, if any.
pub open spec fn latest_pending(events: Seq<Json>) -> Option<Seq<char>> {
    let c = confirmed_sessions(events);
    match last_index(c, not_among(session_ids(incorporations_of(events)))) {
        Some(k) => Some(c[k]),
        None => None,
    }
}

/// The confirmed sessions.
fn read_confirmed_sessions(events: &Vec<Json>) -> (r: Vec<String>)
    ensures
        views(r@) == confirmed_sessions(events@),
{
    let mut out: Vec<String> = Vec::new();
    for i in 0..events.len()
        invariant
            views(out@) == events@.take(i as int).filter_map(|e: Json| confirmation_of(e)),
    {
        proof { assert(events@.take(i + 1).drop_last() =~= events@.take(i as int)); }
        let e = &events[i];
        let ghost before = views(out@);
        let hit = match jstr(e, "event_type") {
            Some(t) => str_eq(t, "ExtractionConfirmed"),
            None => false,
        };
        if hit {
            match jstr(e, "correlation_id") {
                Some(c) => {
                    out.push(c.to_owned());
                    proof { assert(views(out@) =~= before + seq![c@]); }
                },
                None => {},
            }
        }
    }
    proof { assert(events@.take(events.len() as int) =~= events@); }
    out
}

/// The most recently confirmed session that has not been incorporated.
pub fn latest_unincorporated(events: &Vec<Json>) -> (r: Option<String>)
    ensures
        match r {
            Some(s) => latest_pending(events@) == Some(s@),
            None => latest_pending(events@) is None,
        },
{
    let confirmed = read_confirmed_sessions(events);
    let prior = read_incorporated_sessions(events);
    let mut done: Vec<String> = Vec::new();
    for k in 0..prior.len()
        invariant
            views(done@) == session_ids(sessions_view(prior@)).take(k as int),
    {
        let ghost before = views(done@);
        done.push(prior[k].0.clone());
        proof {
            assert(views(done@) =~= before.push(prior@[k as int].0@));
            assert(session_ids(sessions_view(prior@)).take(k + 1) =~= session_ids(sessions_view(prior@)).take(k as int).push(prior@[k as int].0@));
        }
    }
    proof { assert(session_ids(sessions_view(prior@)).take(prior.len() as int) =~= session_ids(sessions_view(prior@))); }
    let ghost c = views(confirmed@);
    let ghost p = not_among(views(done@));
    let mut k = confirmed.len();
    while k > 0
        invariant
            k <= confirmed.len(),
            c == views(confirmed@),
            c == confirmed_sessions(events@),
            p == not_among(session_ids(incorporations_of(events@))),
            views(done@) == session_ids(incorporations_of(events@)),
            forall|j: int| k <= j < c.len() ==> !p(#[trigger] c[j]),
        decreases k,
    {
        let known = contains_str(&done, confirmed[k - 1].as_str());
        proof {
            if known {
                let m = choose|m: int| 0 <= m < done.len() && (#[trigger] done@[m])@ == confirmed@[k - 1]@;
                assert(views(done@)[m] == c[k - 1]);
            } else {
                assert forall|m: int| 0 <= m < views(done@).len() implies views(done@)[m] != c[k - 1] by {
                    assert(views(done@)[m] == done@[m]@);
                }
            }
        }
        if !known {
            proof {
                assert(is_last(c, p, k - 1));
                lemma_last_index(c, p, k - 1);
            }
            return Some(confirmed[k - 1].clone());
        }
        k = k - 1;
    }
    proof {
        assert(!crate::seqs::any_of(c, p));
    }
    None
}

// ─── Viewing the record ───────────────────────────────────────────────────────

/// Records a query of the record.
pub fn record_queried(cid: &str, outbox: &mut Vec<OutEvent>)
    ensures
        appended(old(outbox)@, final(outbox)@, state_module(), cid@, seq![("RecordQueried"@, Seq::empty())]),
{
    let ghost start = outbox@;
    proof { lemma_appended_none(start, state_module(), cid@); }
    let empty: Vec<(String, Json)> = Vec::new();
    proof { assert(pv(empty@) =~= Seq::<(Seq<char>, JView)>::empty()); }
    emit(outbox, "RecordQueried", "project_state", cid, empty);
    proof {
        lemma_appended_push(start, start, outbox@, state_module(), cid@, Seq::empty(), ("RecordQueried"@, Seq::empty()));
        assert(Seq::<EventSpec>::empty().push(("RecordQueried"@, Seq::<(Seq<char>, JView)>::empty()))
            =~= seq![("RecordQueried"@, Seq::<(Seq<char>, JView)>::empty())]);
    }
}

/// Records that the vocabulary could not be loaded for a query.
pub fn record_query_schema_invalid(cid: &str, outbox: &mut Vec<OutEvent>)
    ensures
        appended(old(outbox)@, final(outbox)@, state_module(), cid@, seq![("RecordQueryFailedSchemaInvalid"@,
            seq![("failure_reason"@, JView::Str("schema_load_failed"@))])]),
{
    let ghost start = outbox@;
    let ghost e: EventSpec = ("RecordQueryFailedSchemaInvalid"@, seq![("failure_reason"@, JView::Str("schema_load_failed"@))]);
    proof { lemma_appended_none(start, state_module(), cid@); }
    emit(outbox, "RecordQueryFailedSchemaInvalid", "project_state", cid, payload1("failure_reason", js("schema_load_failed")));
    proof {
        lemma_appended_push(start, start, outbox@, state_module(), cid@, Seq::empty(), e);
        assert(Seq::<EventSpec>::empty().push(e) =~= seq![e]);
    }
}

/// Reading the items of the given sessions in turn: all of them, or why
/// the first that cannot be read cannot.
pub open spec fn read_sessions(events: Seq<Json>, sids: Seq<Seq<char>>) -> Result<Seq<ItemView>, SessionReadError>
    decreases sids.len(),
{
    if sids.len() == 0 {
        Ok(Seq::empty())
    } else {
        match read_sessions(events, sids.drop_last()) {
            Err(e) => Err(e),
            Ok(a) => match session_read(events, sids.last()) {
                Err(e) => Err(e),
                Ok(b) => Ok(a + b),
            },
        }
    }
}

/// The JSON object of a shown item, with its canonical type.
pub open spec fn shown_item_json(it: ItemView, canonical: Seq<char>) -> JView {
    JView::Obj(seq![("item_id"@, JView::Str(it.item_id)), ("item_type"@, JView::Str(canonical)),
        ("description"@, JView::Str(it.description)), ("uncertain"@, JView::Bool(it.uncertain)),
        ("uncertainty_reason"@, jopt_v(it.uncertainty_reason)), ("session_id"@, JView::Str(it.session_id)),
        ("parent_item_id"@, jopt_v(it.parent_item_id))])
}

/// A shown item with its canonical type, when the vocabulary knows its
/// type.
pub open spec fn shown_item(s: ProjectSchema) -> spec_fn(ItemView) -> Option<(ItemView, Seq<char>)> {
    |it: ItemView| match resolved_type(s, it.item_type) {
        Some(c) => Some((it, c)),
        None => None,
    }
}

/// The event recorded for an item of unknown type.
pub open spec fn unknown_item_event(s: ProjectSchema) -> spec_fn(ItemView) -> Option<ModuleEvent> {
    |it: ItemView| if resolved_type(s, it.item_type) is None {
        Some((crate::schema::schema_module(), ("SchemaTypeUnknown"@, seq![("item_id"@, JView::Str(it.item_id)),
            ("unknown_type"@, JView::Str(it.item_type))])))
    } else {
        None
    }
}

/// The items of the record a query shows (all of them before leaving out
/// unknown types): those of the incorporated sessions, then the tasks.
pub open spec fn queried_items(events: Seq<Json>) -> Result<Seq<ItemView>, SessionReadError> {
    match read_sessions(events, session_ids(incorporations_of(events))) {
        Err(e) => Err(e),
        Ok(a) => Ok(a + task_items(events)),
    }
}

/// The events of a query of a record that is not empty: `SchemaTypeUnknown`
/// for each item of unknown type, then `RecordReturned` with the shown
/// items, the record's size and the number of sessions.
pub open spec fn returned_events(s: ProjectSchema, all: Seq<ItemView>, session_count: nat) -> Seq<ModuleEvent> {
    all.filter_map(unknown_item_event(s)) + seq![(state_module(), ("RecordReturned"@, seq![
        ("items"@, JView::List(all.filter_map(shown_item(s)).map_values(|p: (ItemView, Seq<char>)| shown_item_json(p.0, p.1)))),
        ("total_count"@, JView::Num(all.len() as u64)), ("session_count"@, JView::Num(session_count as u64))]))]
}

/// The record as a query shows it: the items whose type the vocabulary
/// knows, each with its canonical type, the record's size and the number
/// of sessions.
pub struct RecordListing {
    pub items: Vec<(RecordedItem, String)>,
    pub total_count: usize,
    pub session_count: usize,
}

/// The views of shown items.
pub open spec fn shown_view(v: Seq<(RecordedItem, String)>) -> Seq<(ItemView, Seq<char>)> {
    v.map_values(|p: (RecordedItem, String)| (p.0@, p.1@))
}

/// A copy of a record item.
fn copy_item(it: &RecordedItem) -> (r: RecordedItem)
    ensures
        r@ == it@,
{
    RecordedItem {
        item_id: it.item_id.clone(),
        item_type: it.item_type.clone(),
        description: it.description.clone(),
        uncertain: it.uncertain,
        uncertainty_reason: it.uncertainty_reason.clone(),
        session_id: it.session_id.clone(),
        parent_item_id: it.parent_item_id.clone(),
        current_marker: it.current_marker.clone(),
    }
}

/// The JSON object of a shown item.
fn shown_to_json(it: &RecordedItem, canonical: &str) -> (r: Json)
    ensures
        jv(r) == shown_item_json(it@, canonical@),
{
    let fields = payload7("item_id", js(it.item_id.as_str()), "item_type", js(canonical), "description", js(it.description.as_str()),
        "uncertain", Json::Bool(it.uncertain), "uncertainty_reason", jo(&it.uncertainty_reason), "session_id", js(it.session_id.as_str()),
        "parent_item_id", jo(&it.parent_item_id));
    let ghost fv = pv(fields@);
    let r = Json::Obj(fields);
    proof {
        match jv(r) {
            JView::Obj(x) => { assert(x =~= fv); },
            _ => {},
        }
    }
    r
}

/// Shows the project record: fails when a session's items cannot be read
/// (recording nothing); records `RecordQueryFailedEmpty` when there are
/// neither incorporated sessions nor tasks; otherwise leaves out (and
/// records) the items of unknown type and records the rest.
pub fn view_record(schema: &ProjectSchema, events: &Vec<Json>, cid: &str, outbox: &mut Vec<OutEvent>)
    -> (r: Result<Option<RecordListing>, SessionReadError>)
    ensures
        ({
            let sessions = incorporations_of(events@);
            if sessions.len() == 0 && task_items(events@).len() == 0 {
                r matches Ok(None) && appended(old(outbox)@, final(outbox)@, state_module(), cid@,
                    seq![("RecordQueryFailedEmpty"@, seq![("failure_reason"@, JView::Str("record_empty"@))])])
            } else {
                match queried_items(events@) {
                    Err(e) => r == Err::<Option<RecordListing>, SessionReadError>(e) && final(outbox)@ == old(outbox)@,
                    Ok(all) => {
                        &&& r matches Ok(Some(listing)) && shown_view(listing.items@) == all.filter_map(shown_item(*schema))
                            && listing.total_count == all.len() && listing.session_count == sessions.len()
                        &&& appended_in(old(outbox)@, final(outbox)@, cid@, returned_events(*schema, all, sessions.len()))
                    },
                }
            }
        }),
{
    let ghost start = outbox@;
    let sessions = read_incorporated_sessions(events);
    let tasks = read_task_items(events);
    if sessions.len() == 0 && tasks.len() == 0 {
        let ghost e: EventSpec = ("RecordQueryFailedEmpty"@, seq![("failure_reason"@, JView::Str("record_empty"@))]);
        proof { lemma_appended_none(start, state_module(), cid@); }
        emit(outbox, "RecordQueryFailedEmpty", "project_state", cid, payload1("failure_reason", js("record_empty")));
        proof {
            lemma_appended_push(start, start, outbox@, state_module(), cid@, Seq::empty(), e);
            assert(Seq::<EventSpec>::empty().push(e) =~= seq![e]);
        }
        return Ok(None);
    }
    let ghost sids = session_ids(sessions_view(sessions@));
    let mut all: Vec<RecordedItem> = Vec::new();
    proof {
        assert(sids.take(0) =~= Seq::<Seq<char>>::empty());
        assert(items_view(all@) =~= Seq::<ItemView>::empty());
    }
    for k in 0..sessions.len()
        invariant
            sids == session_ids(sessions_view(sessions@)),
            sessions_view(sessions@) == incorporations_of(events@),
            read_sessions(events@, sids.take(k as int)) == Ok::<Seq<ItemView>, SessionReadError>(items_view(all@)),
            outbox@ == start,
            start == old(outbox)@,
            !(incorporations_of(events@).len() == 0 && task_items(events@).len() == 0),
    {
        proof {
            assert(sids.take(k + 1).drop_last() =~= sids.take(k as int));
            assert(sids.take(k + 1).last() == sessions@[k as int].0@);
        }
        match find_confirmed_items(events, sessions[k].0.as_str()) {
            Ok(mut more) => {
                let ghost before = items_view(all@);
                let ghost added = items_view(more@);
                all.append(&mut more);
                proof { assert(items_view(all@) =~= before + added); }
            },
            Err(e) => {
                proof {
                    assert(session_read(events@, sessions@[k as int].0@) == Err::<Seq<ItemView>, SessionReadError>(e));
                    assert(read_sessions(events@, sids.take(k + 1)) == Err::<Seq<ItemView>, SessionReadError>(e));
                    lemma_read_sessions_err(events@, sids, k as int + 1);
                    assert(queried_items(events@) == Err::<Seq<ItemView>, SessionReadError>(e));
                }
                return Err(e);
            },
        }
    }
    proof { assert(sids.take(sessions.len() as int) =~= sids); }
    let ghost before_tasks = items_view(all@);
    let mut tasks = tasks;
    let ghost tv = items_view(tasks@);
    all.append(&mut tasks);
    proof { assert(items_view(all@) =~= before_tasks + tv); }
    let ghost av = items_view(all@);
    let ghost fu = unknown_item_event(*schema);
    let ghost fs = shown_item(*schema);
    proof { lemma_appended_in_none(start, cid@); }
    let mut shown: Vec<(RecordedItem, String)> = Vec::new();
    let mut vals: Vec<Json> = Vec::new();
    for i in 0..all.len()
        invariant
            av == items_view(all@),
            fu == unknown_item_event(*schema),
            fs == shown_item(*schema),
            shown_view(shown@) == av.take(i as int).filter_map(fs),
            vals.len() == shown.len(),
            forall|m: int| 0 <= m < vals.len() ==> jv(#[trigger] vals@[m]) == shown_item_json(shown_view(shown@)[m].0, shown_view(shown@)[m].1),
            appended_in(start, outbox@, cid@, av.take(i as int).filter_map(fu)),
    {
        proof {
            assert(av.take(i + 1) =~= av.take(i as int).push(av[i as int]));
            lemma_filter_map_push(av.take(i as int), av[i as int], fu);
            lemma_filter_map_push(av.take(i as int), av[i as int], fs);
            assert(av[i as int] == all@[i as int]@);
        }
        let it = &all[i];
        match resolve_type(schema, it.item_type.as_str()) {
            Some(c) => {
                let ghost before = shown_view(shown@);
                vals.push(shown_to_json(it, c));
                shown.push((copy_item(it), c.to_owned()));
                proof { assert(shown_view(shown@) =~= before.push((it@, c@))); }
            },
            None => {
                let ghost mid = outbox@;
                crate::schema::emit_type_unknown(outbox, it.item_id.as_str(), it.item_type.as_str(), cid);
                proof { lemma_appended_in_push(start, mid, outbox@, cid@, av.take(i as int).filter_map(fu), fu(av[i as int]).unwrap()); }
            },
        }
    }
    proof { assert(av.take(all.len() as int) =~= av); }
    let ghost sv = shown_view(shown@);
    let lst = Json::List(vals);
    proof {
        match jv(lst) {
            JView::List(x) => { assert(x =~= sv.map_values(|p: (ItemView, Seq<char>)| shown_item_json(p.0, p.1))); },
            _ => {},
        }
    }
    let total = all.len();
    let session_count = sessions.len();
    let ghost mid = outbox@;
    let ghost ret: ModuleEvent = (state_module(), ("RecordReturned"@, seq![
        ("items"@, JView::List(sv.map_values(|p: (ItemView, Seq<char>)| shown_item_json(p.0, p.1)))),
        ("total_count"@, JView::Num(total as u64)), ("session_count"@, JView::Num(session_count as u64))]));
    emit(outbox, "RecordReturned", "project_state", cid,
        payload3("items", lst, "total_count", Json::Num(total as u64), "session_count", Json::Num(session_count as u64)));
    proof { lemma_appended_in_push(start, mid, outbox@, cid@, av.filter_map(fu), ret); }
    Ok(Some(RecordListing { items: shown, total_count: total, session_count }))
}

/// Reading sessions fails for good once a prefix fails.
proof fn lemma_read_sessions_err(events: Seq<Json>, sids: Seq<Seq<char>>, k: int)
    requires
        0 < k <= sids.len(),
        read_sessions(events, sids.take(k)) is Err,
    ensures
        read_sessions(events, sids) == read_sessions(events, sids.take(k)),
    decreases sids.len() - k,
{
    if k < sids.len() {
        assert(sids.take(k + 1).drop_last() =~= sids.take(k));
        lemma_read_sessions_err(events, sids, k + 1);
    } else {
        assert(sids.take(k) =~= sids);
    }
}

// ─── Laws ─────────────────────────────────────────────────────────────────────

/// A session is incorporated once: once the log holds the record of the
/// project state's `ItemsIncorporated` event for session `sid`, the session
/// is among the incorporated ones, so incorporating it again is refused as
/// a duplicate and it is no longer a session still to incorporate.
pub proof fn law_incorporated_once(events: Seq<Json>, ev: OutEvent, j: Json, sid: Seq<char>, n: u64, t: u64)
    requires
        crate::payload::ev_is(ev, "ItemsIncorporated"@, state_module(), ev.correlation_id@, seq![("session_id"@, JView::Str(sid)),
            ("incorporated_count"@, JView::Num(n)), ("total_record_size"@, JView::Num(t))]),
        crate::payload::logs(j, ev),
    ensures
        session_ids(incorporations_of(events.push(j))).contains(sid),
        forall|k: int| 0 <= k < confirmed_sessions(events.push(j)).len() && confirmed_sessions(events.push(j))[k] == sid
            ==> !not_among(session_ids(incorporations_of(events.push(j))))(#[trigger] confirmed_sessions(events.push(j))[k]),
{
    let fields = seq![("session_id"@, JView::Str(sid)), ("incorporated_count"@, JView::Num(n)), ("total_record_size"@, JView::Num(t))];
    crate::payload::lemma_logged_pstr(j, ev, "session_id"@);
    crate::payload::lemma_vstr_at(fields, 0);
    assert(pstr_of(j, "session_id"@) == Some(sid));
    assert(event_is(j, "project_state"@, "ItemsIncorporated"@));
    crate::record::lemma_filter_map_push(events, j, |e: Json| incorporation_entry(e));
    let inc = incorporations_of(events.push(j));
    assert(inc.last().0 == sid);
    assert(session_ids(inc)[inc.len() - 1] == sid);
}

} // verus!
