//! Task instances: adding a task of the vocabulary's task block type under
//! an item of the project record, with its initial marker.
use vstd::prelude::*;
use crate::text::{str_eq, str_lt, seq_le, views};
use crate::seqs::{has_key, contains_key, contains_str};
use crate::payload::{Json, JView, OutEvent, EventSpec, pv, jopt_v, str_of, pstr_of, jpstr, appended, lemma_appended_none, ev_is, logs,
    lemma_appended_push, emit, js, jo, payload1, payload2, payload3, payload5};
use crate::record::{ItemView, items_of_sessions, sessions_of, event_is, is_event, read_session_items, items_view, own};
use crate::schema::{ProjectSchema, task_block_index, canonical_task_block_type, opt_str_view};
use crate::extract::new_item_id;

verus! {

/// The module that keeps task instances.
pub open spec fn task_module() -> Seq<char> {
    "task_model"@
}

/// Records one task event.
fn emit_task(outbox: &mut Vec<OutEvent>, etype: &str, cid: &str, payload: Vec<(String, Json)>)
    ensures
        appended(old(outbox)@, final(outbox)@, task_module(), cid@, seq![(etype@, pv(payload@))]),
{
    let ghost start = outbox@;
    proof { lemma_appended_none(start, task_module(), cid@); }
    emit(outbox, etype, "task_model", cid, payload);
    proof {
        lemma_appended_push(start, start, outbox@, task_module(), cid@, Seq::empty(), (etype@, pv(payload@)));
        assert(Seq::<EventSpec>::empty().push((etype@, pv(payload@))) =~= seq![(etype@, pv(payload@))]);
    }
}

/// Records a request to add a task: description, parent and the marker
/// asked for (if any).
pub fn task_add_requested(description: &str, parent_id: &str, requested_marker: Option<&str>, cid: &str, outbox: &mut Vec<OutEvent>)
    ensures
        appended(old(outbox)@, final(outbox)@, task_module(), cid@, seq![("TaskAddRequested"@,
            seq![("description"@, JView::Str(description@)), ("parent_item_id"@, JView::Str(parent_id@)),
                ("requested_marker"@, jopt_v(opt_str_view(requested_marker)))])]),
{
    let m = own(requested_marker);
    emit_task(outbox, "TaskAddRequested", cid,
        payload3("description", js(description), "parent_item_id", js(parent_id), "requested_marker", jo(&m)));
}

/// Records that the vocabulary could not be loaded for adding a task.
pub fn task_add_schema_invalid(cid: &str, outbox: &mut Vec<OutEvent>)
    ensures
        appended(old(outbox)@, final(outbox)@, task_module(), cid@, seq![("TaskAddFailedSchemaInvalid"@,
            seq![("failure_reason"@, JView::Str("schema_invalid"@))])]),
{
    emit_task(outbox, "TaskAddFailedSchemaInvalid", cid, payload1("failure_reason", js("schema_invalid")));
}

/// The marker a new task starts with: the one asked for when the task
/// type has it, else the first marker the vocabulary defines for it.
pub open spec fn initial_marker_is(markers: Seq<(String, String)>, requested: Option<Seq<char>>, k: Seq<char>) -> bool {
    match requested {
        Some(r) if has_key(markers, r) => k == r,
        _ => markers.len() > 0 && k == markers[0].0@,
    }
}

/// The task type a new task gets, with its initial marker; when the
/// vocabulary has no task block type, records the failure and gives none.
pub fn task_type_and_marker(schema: &ProjectSchema, requested_marker: Option<&str>, cid: &str, outbox: &mut Vec<OutEvent>)
    -> (r: Option<(String, String)>)
    ensures
        match task_block_index(*schema) {
            None => r is None && appended(old(outbox)@, final(outbox)@, task_module(), cid@, seq![("TaskAddFailedTaskTypeNotDefined"@,
                seq![("failure_reason"@, JView::Str("task_type_not_defined"@))])]),
            Some(i) => r matches Some((t, m)) && t@ == schema.block_types@[i].0@
                && initial_marker_is(schema.block_types@[i].1.markers@, opt_str_view(requested_marker), m@)
                && final(outbox)@ == old(outbox)@,
        },
{
    match canonical_task_block_type(schema) {
        None => {
            emit_task(outbox, "TaskAddFailedTaskTypeNotDefined", cid, payload1("failure_reason", js("task_type_not_defined")));
            None
        },
        Some((t, markers)) => {
            proof {
                if crate::seqs::any_of(schema.block_types@, crate::schema::has_markers()) {
                    crate::seqs::lemma_first_index_some(schema.block_types@, crate::schema::has_markers());
                }
            }
            let marker = match requested_marker {
                Some(req) => {
                    if contains_key(markers, req) {
                        req.to_owned()
                    } else {
                        markers[0].0.clone()
                    }
                },
                None => markers[0].0.clone(),
            };
            Some((t.to_owned(), marker))
        },
    }
}

/// The identifier of a task a `TaskAdded` event of the task model adds,
/// when it names one.
pub open spec fn added_task_id(e: Json) -> Option<Seq<char>> {
    if event_is(e, "task_model"@, "TaskAdded"@) {
        match pstr_of(e, "task_id"@) {
            Some(t) => if t.len() > 0 { Some(t) } else { None },
            None => None,
        }
    } else {
        None
    }
}

/// The identifiers of the items of the record: the confirmed items of the
/// incorporated sessions, then the tasks.
pub open spec fn record_item_ids(events: Seq<Json>) -> Seq<Seq<char>> {
    items_of_sessions(events, sessions_of(events)).map_values(|it: ItemView| it.item_id)
        + events.filter_map(|e: Json| added_task_id(e))
}

/// The identifiers of the items of the record.
pub fn all_record_item_ids(events: &Vec<Json>) -> (r: Vec<String>)
    ensures
        views(r@) == record_item_ids(events@),
{
    let items = read_session_items(events);
    let ghost iv = items_view(items@);
    let mut ids: Vec<String> = Vec::new();
    for k in 0..items.len()
        invariant
            iv == items_view(items@),
            views(ids@) == iv.take(k as int).map_values(|it: ItemView| it.item_id),
    {
        let ghost before = views(ids@);
        ids.push(items[k].item_id.clone());
        proof {
            assert(views(ids@) =~= before.push(items@[k as int].item_id@));
            assert(iv.take(k + 1).map_values(|it: ItemView| it.item_id) =~= iv.take(k as int).map_values(|it: ItemView| it.item_id).push(items@[k as int].item_id@));
        }
    }
    proof { assert(iv.take(items.len() as int) =~= iv); }
    let ghost head = views(ids@);
    for i in 0..events.len()
        invariant
            views(ids@) == head + events@.take(i as int).filter_map(|e: Json| added_task_id(e)),
    {
        proof { assert(events@.take(i + 1).drop_last() =~= events@.take(i as int)); }
        let e = &events[i];
        let ghost before = views(ids@);
        if is_event(e, "task_model", "TaskAdded") {
            match jpstr(e, "task_id") {
                Some(t) => {
                    if t.unicode_len() > 0 {
                        ids.push(t.to_owned());
                        proof { assert(views(ids@) =~= before.push(t@)); }
                    }
                },
                None => {},
            }
        }
    }
    proof { assert(events@.take(events.len() as int) =~= events@); }
    ids
}

/// The event of an added task.
pub open spec fn task_added_event(task_id: Seq<char>, item_type: Seq<char>, description: Seq<char>, parent_id: Seq<char>,
    marker: Seq<char>) -> EventSpec {
    ("TaskAdded"@, seq![("task_id"@, JView::Str(task_id)), ("item_type"@, JView::Str(item_type)),
        ("description"@, JView::Str(description)), ("parent_item_id"@, JView::Str(parent_id)),
        ("initial_marker"@, JView::Str(marker))])
}

/// Adds a task of type `item_type` with marker `marker` under `parent_id`:
/// records the failure when the parent is not an item of the record, else
/// the task with a fresh identifier, which it returns.
pub fn add_task(events: &Vec<Json>, item_type: &str, marker: &str, description: &str, parent_id: &str, cid: &str,
    outbox: &mut Vec<OutEvent>) -> (r: Option<String>)
    ensures
        r is None <==> !record_item_ids(events@).contains(parent_id@),
        r is None ==> appended(old(outbox)@, final(outbox)@, task_module(), cid@, seq![("TaskAddFailedParentNotFound"@,
            seq![("failure_reason"@, JView::Str("parent_not_found"@)), ("parent_item_id"@, JView::Str(parent_id@))])]),
        r matches Some(id) ==> crate::extract::uuid_text(id@) && appended(old(outbox)@, final(outbox)@, task_module(), cid@,
            seq![task_added_event(id@, item_type@, description@, parent_id@, marker@)]),
{
    let known = all_record_item_ids(events);
    let found = contains_str(&known, parent_id);
    proof {
        if found {
            let k = choose|k: int| 0 <= k < known.len() && (#[trigger] known@[k])@ == parent_id@;
            assert(views(known@)[k] == parent_id@);
        } else {
            assert forall|k: int| 0 <= k < views(known@).len() implies views(known@)[k] != parent_id@ by {
                assert(views(known@)[k] == known@[k]@);
            }
        }
    }
    if !found {
        emit_task(outbox, "TaskAddFailedParentNotFound", cid,
            payload2("failure_reason", js("parent_not_found"), "parent_item_id", js(parent_id)));
        return None;
    }
    let task_id = new_item_id();
    emit_task(outbox, "TaskAdded", cid, payload5("task_id", js(task_id.as_str()), "item_type", js(item_type),
        "description", js(description), "parent_item_id", js(parent_id), "initial_marker", js(marker)));
    Some(task_id)
}

/// A task added under an item of the record becomes an item of the
/// record: once the log holds the record of the `TaskAdded` event that
/// `add_task` appends (its identifier not empty), the identifiers of the
/// record are those before, then the task's.
pub proof fn law_added_task_joins_record(events: Seq<Json>, ev: OutEvent, j: Json,
    tid: Seq<char>, ty: Seq<char>, d: Seq<char>, p: Seq<char>, m: Seq<char>)
    requires
        ev_is(ev, "TaskAdded"@, task_module(), ev.correlation_id@, task_added_event(tid, ty, d, p, m).1),
        logs(j, ev),
        tid.len() > 0,
    ensures
        record_item_ids(events.push(j)) == record_item_ids(events).push(tid),
{
    reveal_strlit("TaskAdded");
    reveal_strlit("ItemsIncorporated");
    reveal_strlit("ItemsExtracted");
    reveal_strlit("ExtractionConfirmed");
    let f = task_added_event(tid, ty, d, p, m).1;
    crate::payload::lemma_logged_pstr(j, ev, "task_id"@);
    crate::payload::lemma_vstr_at(f, 0);
    assert("TaskAdded"@[0] != "ItemsIncorporated"@[0]);
    assert("TaskAdded"@[0] != "ItemsExtracted"@[0]);
    assert("TaskAdded"@[0] != "ExtractionConfirmed"@[0]);
    assert(added_task_id(j) == Some(tid));
    crate::record::lemma_session_items_push(events, j);
    crate::record::lemma_filter_map_push(events, j, |e: Json| added_task_id(e));
    let head = items_of_sessions(events, sessions_of(events)).map_values(|it: ItemView| it.item_id);
    let tail = events.filter_map(|e: Json| added_task_id(e));
    assert(head + tail.push(tid) =~= (head + tail).push(tid));
}

} // verus!
