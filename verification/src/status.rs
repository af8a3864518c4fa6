//! Item status and priority: setting them, and reading the effective status
//! of an item (explicit, derived from its task marker, or proposed).
use vstd::prelude::*;
use crate::text::{views, str_eq, extract_marker, first_token};
use crate::seqs::{lookup, holds, contains_str, find_key, first_index, is_first, any_of, lemma_first_index};
use crate::payload::{logs, lemma_logged_pstr, lemma_vstr_at, pstr_of, jv, Json, JView, OutEvent, ev_is, jopt_v, js, jo, add_field, emit, pv, payload1, payload2, payload3, payload4, payload5, payload6, lemma_two_appended};
use crate::schema::{ProjectSchema, resolve_type, resolved_type, marker_to_status, marker_status, is_block_type, block_type_named, opt_str_view};
use crate::record::{ItemView, RecordedItem, items_view, record_items, read_all_record_items, find_item, has_id, explicit_status,
    explicit_priority, current_status, current_priority, proposed_values, proposed_values_for, task_marker, current_task_marker, ov,
    leaves_record, lemma_record_items_push, lemma_filter_map_push, update_of};

verus! {

/// `status` is one of the statuses the vocabulary allows for the type
/// named `t` (after alias resolution); a type that lists no allowed
/// statuses allows none.
pub open spec fn status_allowed(s: ProjectSchema, t: Seq<char>, status: Seq<char>) -> bool {
    match resolved_type(s, t) {
        Some(c) => match lookup(s.page_types@, c) {
            Some(def) => def.allowed_statuses.len() > 0 && holds(def.allowed_statuses@, status),
            None => false,
        },
        None => false,
    }
}

/// The statuses the vocabulary allows for the type named `t`.
pub open spec fn vocabulary_statuses(s: ProjectSchema, t: Seq<char>) -> Seq<Seq<char>> {
    match resolved_type(s, t) {
        Some(c) => match lookup(s.page_types@, c) {
            Some(def) => views(def.allowed_statuses@),
            None => Seq::empty(),
        },
        None => Seq::empty(),
    }
}

/// Checks if `status` is valid for `item_type` per the active vocabulary.
pub fn vocabulary_allows_status(schema: &ProjectSchema, item_type: &str, status: &str) -> (r: bool)
    ensures
        r == status_allowed(*schema, item_type@, status@),
{
    let canonical = match resolve_type(schema, item_type) {
        Some(t) => t,
        None => return false,
    };
    match find_key(&schema.page_types, canonical) {
        Some(i) => {
            let def = &schema.page_types[i].1;
            def.allowed_statuses.len() > 0 && contains_str(&def.allowed_statuses, status)
        },
        None => false,
    }
}

/// The statuses valid for `item_type` in the active vocabulary.
pub fn valid_statuses_from_vocabulary(schema: &ProjectSchema, item_type: &str) -> (r: Vec<String>)
    ensures
        views(r@) == vocabulary_statuses(*schema, item_type@),
{
    let canonical = match resolve_type(schema, item_type) {
        Some(t) => t,
        None => return Vec::new(),
    };
    match find_key(&schema.page_types, canonical) {
        Some(i) => schema.page_types[i].1.allowed_statuses.clone(),
        None => Vec::new(),
    }
}

/// The priorities an item can have.
pub open spec fn valid_priority(p: Seq<char>) -> bool {
    p == "high"@ || p == "medium"@ || p == "low"@
}

/// Whether `p` is one of `high`, `medium`, `low`.
pub fn is_valid_priority(p: &str) -> (r: bool)
    ensures
        r == valid_priority(p@),
{
    str_eq(p, "high") || str_eq(p, "medium") || str_eq(p, "low")
}

/// The outcome of setting an item's status.
pub enum StatusUpdate {
    /// No item of the record has the identifier.
    ItemNotFound,
    /// The status is not one the vocabulary allows for the item's type;
    /// `valid` lists those it allows.
    InvalidStatus { item_type: String, valid: Vec<String> },
    /// The status was recorded; `previous` is the status recorded before.
    Updated { item_type: String, previous: Option<String> },
}

/// The module that records status and priority updates.
pub open spec fn status_module() -> Seq<char> {
    "item_status"@
}

/// The item the record lists first with identifier `id`.
pub open spec fn record_item(events: Seq<Json>, id: Seq<char>) -> Option<ItemView> {
    match first_index(record_items(events), has_id(id)) {
        Some(k) => Some(record_items(events)[k]),
        None => None,
    }
}

/// The item of the record with identifier `id`, by its position.
fn lookup_item(events: &Vec<Json>, id: &str) -> (r: Option<RecordedItem>)
    ensures
        match record_item(events@, id@) {
            Some(it) => r matches Some(x) && x@ == it,
            None => r is None,
        },
        r matches Some(x) ==> x.item_id@ == id@,
{
    let mut items = read_all_record_items(events);
    match find_item(&items, id) {
        Some(k) => {
            proof { lemma_first_index(items_view(items@), has_id(id@), k as int); }
            let x = items.swap_remove(k);
            Some(x)
        },
        None => None,
    }
}

/// Sets the status of an item of the record.
///
/// Records `StatusUpdateRequested`, then: `StatusUpdateFailedItemNotFound`
/// when the record has no such item; `StatusUpdateFailedInvalidStatus` when
/// the vocabulary does not allow the status for the item's type; otherwise
/// `ItemStatusUpdated` with the status recorded before.
pub fn set_status(schema: &ProjectSchema, events: &Vec<Json>, item_id: &str, status: &str, cid: &str, outbox: &mut Vec<OutEvent>) -> (r: StatusUpdate)
    ensures
        final(outbox)@.len() == old(outbox)@.len() + 2,
        final(outbox)@.subrange(0, old(outbox)@.len() as int) == old(outbox)@,
        ev_is(final(outbox)@[old(outbox)@.len() as int], "StatusUpdateRequested"@, status_module(), cid@,
            seq![("item_id"@, JView::Str(item_id@)), ("requested_status"@, JView::Str(status@))]),
        match record_item(events@, item_id@) {
            None => r is ItemNotFound && ev_is(final(outbox)@.last(), "StatusUpdateFailedItemNotFound"@, status_module(), cid@,
                seq![("failure_reason"@, JView::Str("item_not_found"@)), ("item_id"@, JView::Str(item_id@))]),
            Some(it) => if !status_allowed(*schema, it.item_type, status@) {
                &&& r matches StatusUpdate::InvalidStatus { item_type, valid }
                    && item_type@ == it.item_type && views(valid@) == vocabulary_statuses(*schema, it.item_type)
                &&& ev_is(final(outbox)@.last(), "StatusUpdateFailedInvalidStatus"@, status_module(), cid@,
                    seq![("failure_reason"@, JView::Str("invalid_status_for_type"@)), ("item_id"@, JView::Str(item_id@)),
                        ("item_type"@, JView::Str(it.item_type)), ("requested_status"@, JView::Str(status@))])
            } else {
                &&& r matches StatusUpdate::Updated { item_type, previous }
                    && item_type@ == it.item_type && ov(previous) == explicit_status(events@, item_id@)
                &&& ev_is(final(outbox)@.last(), "ItemStatusUpdated"@, status_module(), cid@,
                    seq![("item_id"@, JView::Str(item_id@)), ("item_type"@, JView::Str(it.item_type)),
                        ("new_status"@, JView::Str(status@)), ("previous_status"@, jopt_v(explicit_status(events@, item_id@)))])
            },
        },
{
    let ghost start = outbox@;
    emit(outbox, "StatusUpdateRequested", "item_status", cid, payload2("item_id", js(item_id), "requested_status", js(status)));
    let ghost mid = outbox@;
    proof { assert(mid[start.len() as int] == mid.last()); }
    let item = match lookup_item(events, item_id) {
        Some(i) => i,
        None => {
            emit(outbox, "StatusUpdateFailedItemNotFound", "item_status", cid,
                payload2("failure_reason", js("item_not_found"), "item_id", js(item_id)));
            proof { lemma_two_appended(start, mid, outbox@); }
            return StatusUpdate::ItemNotFound;
        },
    };
    if !vocabulary_allows_status(schema, item.item_type.as_str(), status) {
        let valid = valid_statuses_from_vocabulary(schema, item.item_type.as_str());
        emit(outbox, "StatusUpdateFailedInvalidStatus", "item_status", cid,
            payload4("failure_reason", js("invalid_status_for_type"), "item_id", js(item_id),
                "item_type", js(item.item_type.as_str()), "requested_status", js(status)));
        proof { lemma_two_appended(start, mid, outbox@); }
        return StatusUpdate::InvalidStatus { item_type: item.item_type, valid };
    }
    let previous = current_status(events, item_id);
    emit(outbox, "ItemStatusUpdated", "item_status", cid,
        payload4("item_id", js(item_id), "item_type", js(item.item_type.as_str()),
            "new_status", js(status), "previous_status", jo(&previous)));
    proof { lemma_two_appended(start, mid, outbox@); }
    StatusUpdate::Updated { item_type: item.item_type, previous }
}


/// The outcome of setting an item's priority.
pub enum PriorityUpdate {
    /// No item of the record has the identifier.
    ItemNotFound,
    /// The priority is not `high`, `medium` or `low`.
    InvalidPriority { item_type: String },
    /// The priority was recorded; `previous` is the priority recorded before.
    Updated { item_type: String, previous: Option<String> },
}

/// Sets the priority of an item of the record.
///
/// Records `PriorityUpdateRequested`, then:
/// `PriorityUpdateFailedItemNotFound` when the record has no such item;
/// `PriorityUpdateFailedInvalidValue` when the priority is not `high`,
/// `medium` or `low`; otherwise `ItemPriorityUpdated` with the priority
/// recorded before.
pub fn set_priority(events: &Vec<Json>, item_id: &str, priority: &str, cid: &str, outbox: &mut Vec<OutEvent>) -> (r: PriorityUpdate)
    ensures
        final(outbox)@.len() == old(outbox)@.len() + 2,
        final(outbox)@.subrange(0, old(outbox)@.len() as int) == old(outbox)@,
        ev_is(final(outbox)@[old(outbox)@.len() as int], "PriorityUpdateRequested"@, status_module(), cid@,
            seq![("item_id"@, JView::Str(item_id@)), ("requested_priority"@, JView::Str(priority@))]),
        match record_item(events@, item_id@) {
            None => r is ItemNotFound && ev_is(final(outbox)@.last(), "PriorityUpdateFailedItemNotFound"@, status_module(), cid@,
                seq![("failure_reason"@, JView::Str("item_not_found"@)), ("item_id"@, JView::Str(item_id@))]),
            Some(it) => if !valid_priority(priority@) {
                &&& r matches PriorityUpdate::InvalidPriority { item_type } && item_type@ == it.item_type
                &&& ev_is(final(outbox)@.last(), "PriorityUpdateFailedInvalidValue"@, status_module(), cid@,
                    seq![("failure_reason"@, JView::Str("invalid_priority_value"@)), ("item_id"@, JView::Str(item_id@)),
                        ("requested_priority"@, JView::Str(priority@))])
            } else {
                &&& r matches PriorityUpdate::Updated { item_type, previous }
                    && item_type@ == it.item_type && ov(previous) == explicit_priority(events@, item_id@)
                &&& ev_is(final(outbox)@.last(), "ItemPriorityUpdated"@, status_module(), cid@,
                    seq![("item_id"@, JView::Str(item_id@)), ("new_priority"@, JView::Str(priority@)),
                        ("previous_priority"@, jopt_v(explicit_priority(events@, item_id@)))])
            },
        },
{
    let ghost start = outbox@;
    emit(outbox, "PriorityUpdateRequested", "item_status", cid, payload2("item_id", js(item_id), "requested_priority", js(priority)));
    let ghost mid = outbox@;
    proof { assert(mid[start.len() as int] == mid.last()); }
    let item = match lookup_item(events, item_id) {
        Some(i) => i,
        None => {
            emit(outbox, "PriorityUpdateFailedItemNotFound", "item_status", cid,
                payload2("failure_reason", js("item_not_found"), "item_id", js(item_id)));
            proof { lemma_two_appended(start, mid, outbox@); }
            return PriorityUpdate::ItemNotFound;
        },
    };
    if !is_valid_priority(priority) {
        emit(outbox, "PriorityUpdateFailedInvalidValue", "item_status", cid,
            payload3("failure_reason", js("invalid_priority_value"), "item_id", js(item_id), "requested_priority", js(priority)));
        proof { lemma_two_appended(start, mid, outbox@); }
        return PriorityUpdate::InvalidPriority { item_type: item.item_type };
    }
    let previous = current_priority(events, item_id);
    emit(outbox, "ItemPriorityUpdated", "item_status", cid,
        payload3("item_id", js(item_id), "new_priority", js(priority), "previous_priority", jo(&previous)));
    proof { lemma_two_appended(start, mid, outbox@); }
    PriorityUpdate::Updated { item_type: item.item_type, previous }
}

/// Where an effective status comes from.
#[derive(PartialEq, Eq, Structural, Clone, Copy)]
pub enum StatusSource {
    /// The last status recorded for the item.
    Explicit,
    /// The vocabulary mapping of the item's task marker.
    MarkerDerived,
    /// The status proposed by the item's confirmed extraction.
    Proposed,
}

/// The name a status source is reported under.
pub open spec fn source_name(s: StatusSource) -> Seq<char> {
    match s {
        StatusSource::Explicit => "explicit"@,
        StatusSource::MarkerDerived => "marker_derived"@,
        StatusSource::Proposed => "proposed"@,
    }
}

/// The name a status source is reported under.
pub fn source_label(s: StatusSource) -> (r: &'static str)
    ensures
        r@ == source_name(s),
{
    match s {
        StatusSource::Explicit => "explicit",
        StatusSource::MarkerDerived => "marker_derived",
        StatusSource::Proposed => "proposed",
    }
}

/// The proposed status with its source, if there is one.
pub open spec fn proposed_with_source(ps: Option<Seq<char>>) -> (Option<Seq<char>>, Option<StatusSource>) {
    (ps, if ps is Some { Some(StatusSource::Proposed) } else { None })
}

/// The status a marker stands for, as a marker-derived status; else the
/// proposed status.
pub open spec fn via_marker(s: ProjectSchema, m: Option<Seq<char>>, ps: Option<Seq<char>>) -> (Option<Seq<char>>, Option<StatusSource>) {
    match m {
        Some(mm) => match marker_status(s, mm) {
            Some(st) => (Some(st), Some(StatusSource::MarkerDerived)),
            None => proposed_with_source(ps),
        },
        None => proposed_with_source(ps),
    }
}

/// The effective status of an item and its source, highest first: the
/// explicit status; for block-type items the status of the task's current
/// marker, for other items the status of the first word of the
/// description when it is a marker; the proposed status; none.
pub open spec fn effective_status(s: ProjectSchema, events: Seq<Json>, it: ItemView) -> (Option<Seq<char>>, Option<StatusSource>) {
    let ps = proposed_values(events, it.item_id).0;
    match explicit_status(events, it.item_id) {
        Some(x) => (Some(x), Some(StatusSource::Explicit)),
        None => if block_type_named(s, it.item_type) {
            via_marker(s, task_marker(events, it.item_id), ps)
        } else {
            via_marker(s, first_token(it.description), ps)
        },
    }
}

/// The status the marker stands for, else the proposed status.
fn status_via_marker(schema: &ProjectSchema, m: Option<String>, ps: &Option<String>) -> (r: (Option<String>, Option<StatusSource>))
    ensures
        (ov(r.0), r.1) == via_marker(*schema, ov(m), ov(*ps)),
{
    match m {
        Some(mm) => match marker_to_status(schema, mm.as_str()) {
            Some(st) => (Some(st.to_owned()), Some(StatusSource::MarkerDerived)),
            None => (ps.clone(), if ps.is_some() { Some(StatusSource::Proposed) } else { None }),
        },
        None => (ps.clone(), if ps.is_some() { Some(StatusSource::Proposed) } else { None }),
    }
}

/// The outcome of querying an item's status and priority.
pub enum ItemQuery {
    /// No item of the record has the identifier.
    ItemNotFound,
    /// The item with its effective status (and where it comes from), its
    /// explicit and proposed priorities, and whether an explicit status is
    /// no longer allowed by the vocabulary.
    Found {
        item: RecordedItem,
        status: Option<String>,
        source: Option<StatusSource>,
        explicit_priority: Option<String>,
        proposed_priority: Option<String>,
        unrecognized: bool,
    },
}

/// Queries the current status and priority of an item.
///
/// Records `ItemStatusQueried`, then `ItemStatusQueryFailedItemNotFound`
/// when the record has no such item; otherwise `ItemStatusUnrecognized`
/// when the effective status is an explicit one the vocabulary no longer
/// allows for the item's type, then `ItemStatusReturned` with the
/// effective status, the effective priority (explicit, else proposed) and
/// the status source.
pub fn query_item(schema: &ProjectSchema, events: &Vec<Json>, item_id: &str, cid: &str, outbox: &mut Vec<OutEvent>) -> (r: ItemQuery)
    ensures
        final(outbox)@.subrange(0, old(outbox)@.len() as int) == old(outbox)@,
        final(outbox)@.len() > old(outbox)@.len(),
        ev_is(final(outbox)@[old(outbox)@.len() as int], "ItemStatusQueried"@, status_module(), cid@,
            seq![("item_id"@, JView::Str(item_id@))]),
        match record_item(events@, item_id@) {
            None => r is ItemNotFound && final(outbox)@.len() == old(outbox)@.len() + 2
                && ev_is(final(outbox)@.last(), "ItemStatusQueryFailedItemNotFound"@, status_module(), cid@,
                    seq![("failure_reason"@, JView::Str("item_not_found"@)), ("item_id"@, JView::Str(item_id@))]),
            Some(it) => {
                let (st, src) = effective_status(*schema, events@, it);
                let unrec = src == Some(StatusSource::Explicit) && !status_allowed(*schema, it.item_type, st.unwrap());
                let prio = match explicit_priority(events@, item_id@) {
                    Some(p) => Some(p),
                    None => proposed_values(events@, item_id@).1,
                };
                &&& r matches ItemQuery::Found { item, status, source, explicit_priority: ep, proposed_priority: pp, unrecognized }
                    && item@ == it && ov(status) == st && source == src && unrecognized == unrec
                    && ov(ep) == explicit_priority(events@, item_id@) && ov(pp) == proposed_values(events@, item_id@).1
                &&& final(outbox)@.len() == old(outbox)@.len() + if unrec { 3int } else { 2int }
                &&& unrec ==> ev_is(final(outbox)@[old(outbox)@.len() + 1int], "ItemStatusUnrecognized"@, status_module(), cid@,
                    seq![("item_id"@, JView::Str(item_id@)), ("item_type"@, JView::Str(it.item_type)), ("recorded_status"@, JView::Str(st.unwrap()))])
                &&& ev_is(final(outbox)@.last(), "ItemStatusReturned"@, status_module(), cid@,
                    seq![("item_id"@, JView::Str(item_id@)), ("item_type"@, JView::Str(it.item_type)),
                        ("current_status"@, jopt_v(st)), ("current_priority"@, jopt_v(prio)),
                        ("status_source"@, jopt_v(match src { Some(x) => Some(source_name(x)), None => None }))])
            },
        },
{
    let ghost start = outbox@;
    emit(outbox, "ItemStatusQueried", "item_status", cid, payload1("item_id", js(item_id)));
    let ghost mid = outbox@;
    proof { assert(mid[start.len() as int] == mid.last()); }
    let item = match lookup_item(events, item_id) {
        Some(i) => i,
        None => {
            emit(outbox, "ItemStatusQueryFailedItemNotFound", "item_status", cid,
                payload2("failure_reason", js("item_not_found"), "item_id", js(item_id)));
            proof { lemma_two_appended(start, mid, outbox@); }
            return ItemQuery::ItemNotFound;
        },
    };
    let explicit_status_v = current_status(events, item_id);
    let explicit_priority_v = current_priority(events, item_id);
    let (prop_status, prop_priority) = proposed_values_for(events, item_id);
    let (status, source): (Option<String>, Option<StatusSource>) = match explicit_status_v {
        Some(s) => (Some(s), Some(StatusSource::Explicit)),
        None => if is_block_type(schema, item.item_type.as_str()) {
            let m = current_task_marker(events, item_id);
            status_via_marker(schema, m, &prop_status)
        } else {
            let m = extract_marker(item.description.as_str());
            status_via_marker(schema, m, &prop_status)
        },
    };
    let unrecognized = match source {
        Some(StatusSource::Explicit) => match &status {
            Some(s) => !vocabulary_allows_status(schema, item.item_type.as_str(), s.as_str()),
            None => false,
        },
        _ => false,
    };
    let ghost mid2 = outbox@;
    if unrecognized {
        let st = status.as_ref().unwrap();
        emit(outbox, "ItemStatusUnrecognized", "item_status", cid,
            payload3("item_id", js(item_id), "item_type", js(item.item_type.as_str()), "recorded_status", js(st.as_str())));
        proof { lemma_two_appended(start, mid, outbox@); }
    }
    let ghost mid3 = outbox@;
    let priority: Option<String> = match &explicit_priority_v {
        Some(p) => Some(p.clone()),
        None => prop_priority.clone(),
    };
    let src_json = match source {
        Some(x) => js(source_label(x)),
        None => Json::Null,
    };
    let status_json = jo(&status);
    let priority_json = jo(&priority);
    let type_json = js(item.item_type.as_str());
    assert(jv(status_json) == jopt_v(ov(status)));
    assert(jv(priority_json) == jopt_v(ov(priority)));
    emit(outbox, "ItemStatusReturned", "item_status", cid,
        payload5("item_id", js(item_id), "item_type", type_json,
            "current_status", status_json, "current_priority", priority_json, "status_source", src_json));
    assert(pv(outbox@.last().payload@) =~= seq![("item_id"@, JView::Str(item_id@)), ("item_type"@, JView::Str(item@.item_type)),
                        ("current_status"@, jopt_v(ov(status))), ("current_priority"@, jopt_v(ov(priority))),
                        ("status_source"@, jopt_v(match source { Some(x) => Some(source_name(x)), None => None }))]);
    proof {
        assert(outbox@.subrange(0, start.len() as int) =~= mid3.subrange(0, start.len() as int));
        assert(outbox@[start.len() as int] == mid3[start.len() as int]);
        assert(mid3.subrange(0, start.len() as int) =~= mid2.subrange(0, start.len() as int));
        assert(mid3[start.len() as int] == mid2[start.len() as int]);
        if unrecognized {
            assert(outbox@[start.len() + 1int] == mid3[start.len() + 1int]);
        }
    }
    assert((ov(status), source) == effective_status(*schema, events@, item@));
    ItemQuery::Found {
        item,
        status,
        source,
        explicit_priority: explicit_priority_v,
        proposed_priority: prop_priority,
        unrecognized,
    }
}



// ─── Laws ─────────────────────────────────────────────────────────────────────

/// The fields of an `ItemStatusUpdated` event.
pub open spec fn status_updated_fields(id: Seq<char>, t: Seq<char>, st: Seq<char>, prev: JView) -> Seq<(Seq<char>, JView)> {
    seq![("item_id"@, JView::Str(id)), ("item_type"@, JView::Str(t)), ("new_status"@, JView::Str(st)), ("previous_status"@, prev)]
}

/// The fields of an `ItemPriorityUpdated` event.
pub open spec fn priority_updated_fields(id: Seq<char>, p: Seq<char>, prev: JView) -> Seq<(Seq<char>, JView)> {
    seq![("item_id"@, JView::Str(id)), ("new_priority"@, JView::Str(p)), ("previous_priority"@, prev)]
}

/// Read after write of a status: once the log holds the record of an
/// `ItemStatusUpdated` event of item `id`, the record's items are the same,
/// the item's explicit status is the status set, its effective status is
/// that status with source explicit, its priority is unchanged, and the
/// explicit status of every other item is unchanged.
pub proof fn law_status_read_after_write(schema: ProjectSchema, events: Seq<Json>, ev: OutEvent, j: Json,
    id: Seq<char>, t: Seq<char>, st: Seq<char>, prev: JView, other: Seq<char>)
    requires
        ev_is(ev, "ItemStatusUpdated"@, status_module(), ev.correlation_id@, status_updated_fields(id, t, st, prev)),
        logs(j, ev),
    ensures
        record_items(events.push(j)) == record_items(events),
        explicit_status(events.push(j), id) == Some(st),
        forall|it: ItemView| it.item_id == id ==> #[trigger] effective_status(schema, events.push(j), it) == (Some(st), Some(StatusSource::Explicit)),
        explicit_priority(events.push(j), id) == explicit_priority(events, id),
        other != id ==> explicit_status(events.push(j), other) == explicit_status(events, other),
{
    reveal_strlit("ItemStatusUpdated");
    reveal_strlit("ItemPriorityUpdated");
    reveal_strlit("ItemsIncorporated");
    reveal_strlit("TaskAdded");
    reveal_strlit("ItemsExtracted");
    reveal_strlit("ExtractionConfirmed");
    reveal_strlit("item_id");
    reveal_strlit("item_type");
    reveal_strlit("new_status");
    reveal_strlit("item_status");
    let fields = status_updated_fields(id, t, st, prev);
    lemma_logged_pstr(j, ev, "item_id"@);
    lemma_logged_pstr(j, ev, "new_status"@);
    lemma_vstr_at(fields, 0);
    assert(fields[0].0[0] != fields[2].0[0]);
    assert(fields[1].0[0] != fields[2].0[0]);
    lemma_vstr_at(fields, 2);
    assert(pstr_of(j, "item_id"@) == Some(id));
    assert(pstr_of(j, "new_status"@) == Some(st));
    assert("ItemStatusUpdated"@[4] != "ItemsIncorporated"@[4]);
    assert("ItemStatusUpdated"@[4] != "ItemsExtracted"@[4]);
    assert("ItemStatusUpdated"@[4] != "ItemPriorityUpdated"@[4]);
    assert("ItemStatusUpdated"@[0] != "TaskAdded"@[0]);
    assert("ItemStatusUpdated"@[0] != "ExtractionConfirmed"@[0]);
    assert(leaves_record(j));
    lemma_record_items_push(events, j);
    lemma_filter_map_push(events, j, update_of(id, "ItemStatusUpdated"@, "new_status"@));
    lemma_filter_map_push(events, j, update_of(id, "ItemPriorityUpdated"@, "new_priority"@));
    lemma_filter_map_push(events, j, update_of(other, "ItemStatusUpdated"@, "new_status"@));
}

/// Read after write of a priority: once the log holds the record of an
/// `ItemPriorityUpdated` event of item `id`, the record's items are the
/// same, the item's explicit priority is the priority set, its explicit
/// status is unchanged, and the explicit priority of every other item is
/// unchanged.
pub proof fn law_priority_read_after_write(events: Seq<Json>, ev: OutEvent, j: Json,
    id: Seq<char>, p: Seq<char>, prev: JView, other: Seq<char>)
    requires
        ev_is(ev, "ItemPriorityUpdated"@, status_module(), ev.correlation_id@, priority_updated_fields(id, p, prev)),
        logs(j, ev),
    ensures
        record_items(events.push(j)) == record_items(events),
        explicit_priority(events.push(j), id) == Some(p),
        explicit_status(events.push(j), id) == explicit_status(events, id),
        other != id ==> explicit_priority(events.push(j), other) == explicit_priority(events, other),
{
    reveal_strlit("ItemStatusUpdated");
    reveal_strlit("ItemPriorityUpdated");
    reveal_strlit("ItemsIncorporated");
    reveal_strlit("TaskAdded");
    reveal_strlit("ItemsExtracted");
    reveal_strlit("ExtractionConfirmed");
    reveal_strlit("item_id");
    reveal_strlit("new_priority");
    let fields = priority_updated_fields(id, p, prev);
    lemma_logged_pstr(j, ev, "item_id"@);
    lemma_logged_pstr(j, ev, "new_priority"@);
    lemma_vstr_at(fields, 0);
    assert(fields[0].0[0] != fields[1].0[0]);
    lemma_vstr_at(fields, 1);
    assert("ItemPriorityUpdated"@[4] != "ItemsIncorporated"@[4]);
    assert("ItemPriorityUpdated"@[4] != "ItemsExtracted"@[4]);
    assert("ItemStatusUpdated"@[4] != "ItemPriorityUpdated"@[4]);
    assert("ItemPriorityUpdated"@[0] != "TaskAdded"@[0]);
    assert("ItemPriorityUpdated"@[0] != "ExtractionConfirmed"@[0]);
    assert(leaves_record(j));
    lemma_record_items_push(events, j);
    lemma_filter_map_push(events, j, update_of(id, "ItemPriorityUpdated"@, "new_priority"@));
    lemma_filter_map_push(events, j, update_of(id, "ItemStatusUpdated"@, "new_status"@));
    lemma_filter_map_push(events, j, update_of(other, "ItemPriorityUpdated"@, "new_priority"@));
}

} // verus!
