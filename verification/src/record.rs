//! The project record, read back from the event log.
//!
//! The record holds the items of every incorporated extraction session
//! (the extracted items whose extraction was confirmed) followed by the
//! task instances added by the task model. Statuses and priorities are the
//! last ones recorded; proposed values come from a confirmed extraction.
use vstd::prelude::*;
use crate::payload::{Json, get, str_of, pstr_of, as_str, as_array, as_bool, jstr, jpstr, jget, jarr, jpayload};
use crate::text::str_eq;

verus! {

/// An item of the project record.
pub struct RecordedItem {
    pub item_id: String,
    pub item_type: String,
    pub description: String,
    pub uncertain: bool,
    pub uncertainty_reason: Option<String>,
    pub session_id: String,
    pub parent_item_id: Option<String>,
    pub current_marker: Option<String>,
}

/// An item of the project record, as values.
pub ghost struct ItemView {
    pub item_id: Seq<char>,
    pub item_type: Seq<char>,
    pub description: Seq<char>,
    pub uncertain: bool,
    pub uncertainty_reason: Option<Seq<char>>,
    pub session_id: Seq<char>,
    pub parent_item_id: Option<Seq<char>>,
    pub current_marker: Option<Seq<char>>,
}

/// The view of an optional string.
pub open spec fn ov(s: Option<String>) -> Option<Seq<char>> {
    match s {
        Some(t) => Some(t@),
        None => None,
    }
}

impl View for RecordedItem {
    type V = ItemView;

    open spec fn view(&self) -> ItemView {
        ItemView {
            item_id: self.item_id@,
            item_type: self.item_type@,
            description: self.description@,
            uncertain: self.uncertain,
            uncertainty_reason: ov(self.uncertainty_reason),
            session_id: self.session_id@,
            parent_item_id: ov(self.parent_item_id),
            current_marker: ov(self.current_marker),
        }
    }
}

/// The views of a sequence of items.
pub open spec fn items_view(s: Seq<RecordedItem>) -> Seq<ItemView> {
    s.map_values(|i: RecordedItem| i@)
}

/// `o` or, when absent, the empty string.
pub open spec fn or_empty(o: Option<Seq<char>>) -> Seq<char> {
    match o {
        Some(s) => s,
        None => Seq::empty(),
    }
}

/// The event was recorded by `module` with type `etype`.
pub open spec fn event_is(e: Json, module: Seq<char>, etype: Seq<char>) -> bool {
    str_of(e, "source_module"@) == Some(module) && str_of(e, "event_type"@) == Some(etype)
}

/// An owned copy of an optional string slice.
pub fn own(o: Option<&str>) -> (r: Option<String>)
    ensures
        ov(r) == match o {
            Some(s) => Some(s@),
            None => None::<Seq<char>>,
        },
{
    match o {
        Some(s) => Some(s.to_owned()),
        None => None,
    }
}

/// An owned copy of an optional string slice, or the empty string.
pub fn own_or_empty(o: Option<&str>) -> (r: String)
    ensures
        r@ == or_empty(match o {
            Some(s) => Some(s@),
            None => None::<Seq<char>>,
        }),
{
    match o {
        Some(s) => s.to_owned(),
        None => String::new(),
    }
}

/// Whether the event was recorded by `module` with type `etype`.
pub fn is_event(e: &Json, module: &str, etype: &str) -> (r: bool)
    ensures
        r == event_is(*e, module@, etype@),
{
    match (jstr(e, "source_module"), jstr(e, "event_type")) {
        (Some(m), Some(t)) => str_eq(m, module) && str_eq(t, etype),
        _ => false,
    }
}

// ─── Incorporated sessions ────────────────────────────────────────────────────

/// The session an `ItemsIncorporated` event of the project state
/// incorporates.
pub open spec fn incorporated_session(e: Json) -> Option<Seq<char>> {
    if event_is(e, "project_state"@, "ItemsIncorporated"@) {
        pstr_of(e, "session_id"@)
    } else {
        None
    }
}

/// The incorporated sessions, in the order they were incorporated.
pub open spec fn sessions_of(events: Seq<Json>) -> Seq<Seq<char>> {
    events.filter_map(|e: Json| incorporated_session(e))
}

/// The identifiers of all incorporated sessions, in order.
pub fn incorporated_sessions(events: &Vec<Json>) -> (r: Vec<String>)
    ensures
        crate::text::views(r@) == sessions_of(events@),
{
    let mut r: Vec<String> = Vec::new();
    for i in 0..events.len()
        invariant
            crate::text::views(r@) == sessions_of(events@.take(i as int)),
    {
        proof { assert(events@.take(i + 1).drop_last() =~= events@.take(i as int)); }
        let ghost before = crate::text::views(r@);
        if is_event(&events[i], "project_state", "ItemsIncorporated") {
            match jpstr(&events[i], "session_id") {
                Some(sid) => {
                    r.push(sid.to_owned());
                    proof { assert(crate::text::views(r@) =~= before.push(sid@)); }
                },
                None => {},
            }
        }
    }
    proof { assert(events@.take(events.len() as int) =~= events@); }
    r
}


// ─── Items of a session ───────────────────────────────────────────────────────

/// The events of session `sid` with type `etype`.
pub open spec fn session_event_of(sid: Seq<char>, etype: Seq<char>) -> spec_fn(Json) -> Option<Json> {
    |e: Json| if str_of(e, "correlation_id"@) == Some(sid) && str_of(e, "event_type"@) == Some(etype) { Some(e) } else { None }
}

/// The last event of session `sid` with type `etype`.
pub open spec fn last_session_event(events: Seq<Json>, sid: Seq<char>, etype: Seq<char>) -> Option<Json> {
    let s = events.filter_map(session_event_of(sid, etype));
    if s.len() == 0 { None } else { Some(s.last()) }
}

/// The items listed by the last `ItemsExtracted` event of the session, if
/// that event lists an array of items.
pub open spec fn extracted_entries(events: Seq<Json>, sid: Seq<char>) -> Option<Seq<Json>> {
    match last_session_event(events, sid, "ItemsExtracted"@) {
        Some(e) => as_array(get(get(e, "payload"@), "items"@)),
        None => None,
    }
}

/// The string elements of an array.
pub open spec fn strings_of(a: Seq<Json>) -> Seq<Seq<char>> {
    a.filter_map(|v: Json| as_str(v))
}

/// The identifiers accepted by the last `ExtractionConfirmed` event of the
/// session, if that event lists an array of them.
pub open spec fn accepted_ids(events: Seq<Json>, sid: Seq<char>) -> Option<Seq<Seq<char>>> {
    match last_session_event(events, sid, "ExtractionConfirmed"@) {
        Some(e) => match as_array(get(get(e, "payload"@), "accepted_item_ids"@)) {
            Some(a) => Some(strings_of(a)),
            None => None,
        },
        None => None,
    }
}

/// `o`, or the empty sequence.
pub open spec fn or_none<A>(o: Option<Seq<A>>) -> Seq<A> {
    match o {
        Some(s) => s,
        None => Seq::empty(),
    }
}

/// The record item of an extracted entry of session `sid`, when its
/// identifier is among the accepted ones.
pub open spec fn record_of_entry(sid: Seq<char>, accepted: Seq<Seq<char>>) -> spec_fn(Json) -> Option<ItemView> {
    |it: Json| match str_of(it, "item_id"@) {
        Some(id) if accepted.contains(id) => Some(ItemView {
            item_id: id,
            item_type: or_empty(str_of(it, "item_type"@)),
            description: or_empty(str_of(it, "description"@)),
            uncertain: match as_bool(get(it, "uncertain"@)) {
                Some(b) => b,
                None => false,
            },
            uncertainty_reason: str_of(it, "uncertainty_reason"@),
            session_id: sid,
            parent_item_id: str_of(it, "parent_item_id"@),
            current_marker: None,
        }),
        _ => None,
    }
}

/// The confirmed items of session `sid`: its extracted items whose
/// identifiers were accepted, in extraction order.
pub open spec fn session_items(events: Seq<Json>, sid: Seq<char>) -> Seq<ItemView> {
    or_none(extracted_entries(events, sid)).filter_map(record_of_entry(sid, or_none(accepted_ids(events, sid))))
}

/// Extending the events by one updates the last session event only when
/// the new event is one.
pub proof fn lemma_last_session_event_step(events: Seq<Json>, i: int, sid: Seq<char>, etype: Seq<char>)
    requires
        0 <= i < events.len(),
    ensures
        last_session_event(events.take(i + 1), sid, etype) == (if session_event_of(sid, etype)(events[i]) is Some {
            Some(events[i])
        } else {
            last_session_event(events.take(i), sid, etype)
        }),
{
    let t = events.take(i + 1);
    assert(t.drop_last() =~= events.take(i));
    assert(t.last() == events[i]);
}

/// The last `ItemsExtracted` and `ExtractionConfirmed` events of a session.
fn last_session_events<'a>(events: &'a Vec<Json>, sid: &str) -> (r: (Option<&'a Json>, Option<&'a Json>))
    ensures
        r.0 matches Some(e) ==> last_session_event(events@, sid@, "ItemsExtracted"@) == Some(*e),
        r.0 is None ==> last_session_event(events@, sid@, "ItemsExtracted"@) is None,
        r.1 matches Some(e) ==> last_session_event(events@, sid@, "ExtractionConfirmed"@) == Some(*e),
        r.1 is None ==> last_session_event(events@, sid@, "ExtractionConfirmed"@) is None,
{
    let mut ext: Option<&Json> = None;
    let mut conf: Option<&Json> = None;
    for i in 0..events.len()
        invariant
            ext matches Some(e) ==> last_session_event(events@.take(i as int), sid@, "ItemsExtracted"@) == Some(*e),
            ext is None ==> last_session_event(events@.take(i as int), sid@, "ItemsExtracted"@) is None,
            conf matches Some(e) ==> last_session_event(events@.take(i as int), sid@, "ExtractionConfirmed"@) == Some(*e),
            conf is None ==> last_session_event(events@.take(i as int), sid@, "ExtractionConfirmed"@) is None,
    {
        proof {
            lemma_last_session_event_step(events@, i as int, sid@, "ItemsExtracted"@);
            lemma_last_session_event_step(events@, i as int, sid@, "ExtractionConfirmed"@);
        }
        let e = &events[i];
        let same = match jstr(e, "correlation_id") {
            Some(c) => str_eq(c, sid),
            None => false,
        };
        if same {
            match jstr(e, "event_type") {
                Some(t) => {
                    if str_eq(t, "ItemsExtracted") {
                        ext = Some(e);
                    }
                    if str_eq(t, "ExtractionConfirmed") {
                        conf = Some(e);
                    }
                },
                None => {},
            }
        }
    }
    proof { assert(events@.take(events.len() as int) =~= events@); }
    (ext, conf)
}

/// The string elements of an array, owned.
pub fn strings_in(a: &Vec<Json>) -> (r: Vec<String>)
    ensures
        crate::text::views(r@) == strings_of(a@),
{
    let mut r: Vec<String> = Vec::new();
    for i in 0..a.len()
        invariant
            crate::text::views(r@) == strings_of(a@.take(i as int)),
    {
        proof { assert(a@.take(i + 1).drop_last() =~= a@.take(i as int)); }
        let ghost before = crate::text::views(r@);
        match &a[i] {
            Json::Str(s) => {
                r.push(s.clone());
                proof { assert(crate::text::views(r@) =~= before.push(s@)); }
            },
            _ => {},
        }
    }
    proof { assert(a@.take(a.len() as int) =~= a@); }
    r
}

/// Whether `id` is in a list of strings.
fn list_has(v: &Vec<String>, id: &str) -> (r: bool)
    ensures
        r == crate::text::views(v@).contains(id@),
{
    let b = crate::seqs::contains_str(v, id);
    proof {
        if b {
            let i = choose|i: int| 0 <= i < v.len() && (#[trigger] v@[i])@ == id@;
            assert(crate::text::views(v@)[i] == id@);
        }
    }
    b
}

/// The record items of the accepted entries of a session.
fn items_of_entries(entries: &Vec<Json>, accepted: &Vec<String>, sid: &str) -> (r: Vec<RecordedItem>)
    ensures
        items_view(r@) == entries@.filter_map(record_of_entry(sid@, crate::text::views(accepted@))),
{
    let ghost f = record_of_entry(sid@, crate::text::views(accepted@));
    let mut r: Vec<RecordedItem> = Vec::new();
    for i in 0..entries.len()
        invariant
            f == record_of_entry(sid@, crate::text::views(accepted@)),
            items_view(r@) == entries@.take(i as int).filter_map(f),
    {
        proof { assert(entries@.take(i + 1).drop_last() =~= entries@.take(i as int)); }
        let it = &entries[i];
        let ghost before = items_view(r@);
        match jstr(it, "item_id") {
            Some(id) => {
                if list_has(accepted, id) {
                    let item = RecordedItem {
                        item_id: id.to_owned(),
                        item_type: own_or_empty(jstr(it, "item_type")),
                        description: own_or_empty(jstr(it, "description")),
                        uncertain: match jget(it, "uncertain") {
                            Some(Json::Bool(b)) => *b,
                            _ => false,
                        },
                        uncertainty_reason: own(jstr(it, "uncertainty_reason")),
                        session_id: sid.to_owned(),
                        parent_item_id: own(jstr(it, "parent_item_id")),
                        current_marker: None,
                    };
                    r.push(item);
                    proof { assert(items_view(r@) =~= before.push(f(entries@[i as int]).unwrap())); }
                }
            },
            None => {},
        }
    }
    proof { assert(entries@.take(entries.len() as int) =~= entries@); }
    r
}

/// The confirmed items of a session: the items of its last
/// `ItemsExtracted` event whose identifiers its last `ExtractionConfirmed`
/// event accepted (none when either event is missing).
pub fn confirmed_items_for_session(events: &Vec<Json>, sid: &str) -> (r: Vec<RecordedItem>)
    ensures
        items_view(r@) == session_items(events@, sid@),
{
    let (ext, conf) = last_session_events(events, sid);
    let entries: Vec<Json> = Vec::new();
    let accepted: Vec<String> = match conf {
        Some(e) => match jpayload(e) {
            Some(p) => match jarr(p, "accepted_item_ids") {
                Some(a) => strings_in(a),
                None => Vec::new(),
            },
            None => Vec::new(),
        },
        None => Vec::new(),
    };
    proof { assert(crate::text::views(accepted@) == or_none(accepted_ids(events@, sid@))); }
    let list: &Vec<Json> = match ext {
        Some(e) => match jpayload(e) {
            Some(p) => match jarr(p, "items") {
                Some(a) => a,
                None => &entries,
            },
            None => &entries,
        },
        None => &entries,
    };
    proof { assert(list@ == or_none(extracted_entries(events@, sid@))); }
    items_of_entries(list, &accepted, sid)
}

/// Why the items of a session cannot be read.
pub enum SessionReadError {
    /// The session has no `ItemsExtracted` event listing items.
    NoItemsExtracted,
    /// The session has no `ExtractionConfirmed` event listing accepted items.
    NoExtractionConfirmed,
}

/// The confirmed items of a session, failing when the session's
/// extraction or its confirmation is missing.
pub fn find_confirmed_items(events: &Vec<Json>, sid: &str) -> (r: Result<Vec<RecordedItem>, SessionReadError>)
    ensures
        extracted_entries(events@, sid@) is None ==> r matches Err(SessionReadError::NoItemsExtracted),
        extracted_entries(events@, sid@) is Some && accepted_ids(events@, sid@) is None ==> r matches Err(SessionReadError::NoExtractionConfirmed),
        extracted_entries(events@, sid@) is Some && accepted_ids(events@, sid@) is Some ==> (r matches Ok(v) && items_view(v@) == session_items(events@, sid@)),
{
    let (ext, conf) = last_session_events(events, sid);
    let list = match ext {
        Some(e) => match jpayload(e) {
            Some(p) => match jarr(p, "items") {
                Some(a) => a,
                None => return Err(SessionReadError::NoItemsExtracted),
            },
            None => return Err(SessionReadError::NoItemsExtracted),
        },
        None => return Err(SessionReadError::NoItemsExtracted),
    };
    let accepted = match conf {
        Some(e) => match jpayload(e) {
            Some(p) => match jarr(p, "accepted_item_ids") {
                Some(a) => strings_in(a),
                None => return Err(SessionReadError::NoExtractionConfirmed),
            },
            None => return Err(SessionReadError::NoExtractionConfirmed),
        },
        None => return Err(SessionReadError::NoExtractionConfirmed),
    };
    Ok(items_of_entries(list, &accepted, sid))
}


// ─── The whole record ─────────────────────────────────────────────────────────

/// The task instance a `TaskAdded` event of the task model adds, when it
/// names a task and a type.
pub open spec fn task_item(e: Json) -> Option<ItemView> {
    if event_is(e, "task_model"@, "TaskAdded"@) {
        let id = or_empty(pstr_of(e, "task_id"@));
        let ty = or_empty(pstr_of(e, "item_type"@));
        if id.len() > 0 && ty.len() > 0 {
            Some(ItemView {
                item_id: id,
                item_type: ty,
                description: or_empty(pstr_of(e, "description"@)),
                uncertain: false,
                uncertainty_reason: None,
                session_id: "task_model"@,
                parent_item_id: pstr_of(e, "parent_item_id"@),
                current_marker: None,
            })
        } else {
            None
        }
    } else {
        None
    }
}

/// The task instances of the record, in the order they were added.
pub open spec fn task_items(events: Seq<Json>) -> Seq<ItemView> {
    events.filter_map(|e: Json| task_item(e))
}

/// The confirmed items of the given sessions, session after session.
pub open spec fn items_of_sessions(events: Seq<Json>, sids: Seq<Seq<char>>) -> Seq<ItemView>
    decreases sids.len(),
{
    if sids.len() == 0 {
        Seq::empty()
    } else {
        items_of_sessions(events, sids.drop_last()) + session_items(events, sids.last())
    }
}

/// The items of the project record: the confirmed items of every
/// incorporated session, then the task instances.
pub open spec fn record_items(events: Seq<Json>) -> Seq<ItemView> {
    items_of_sessions(events, sessions_of(events)) + task_items(events)
}

/// The task instances of the record.
pub fn read_task_items(events: &Vec<Json>) -> (r: Vec<RecordedItem>)
    ensures
        items_view(r@) == task_items(events@),
{
    let mut r: Vec<RecordedItem> = Vec::new();
    for i in 0..events.len()
        invariant
            items_view(r@) == task_items(events@.take(i as int)),
    {
        proof { assert(events@.take(i + 1).drop_last() =~= events@.take(i as int)); }
        let e = &events[i];
        let ghost before = items_view(r@);
        if is_event(e, "task_model", "TaskAdded") {
            let id = own_or_empty(jpstr(e, "task_id"));
            let ty = own_or_empty(jpstr(e, "item_type"));
            if id.unicode_len() > 0 && ty.unicode_len() > 0 {
                r.push(RecordedItem {
                    item_id: id,
                    item_type: ty,
                    description: own_or_empty(jpstr(e, "description")),
                    uncertain: false,
                    uncertainty_reason: None,
                    session_id: "task_model".to_owned(),
                    parent_item_id: own(jpstr(e, "parent_item_id")),
                    current_marker: None,
                });
                proof { assert(items_view(r@) =~= before.push(task_item(events@[i as int]).unwrap())); }
            }
        }
    }
    proof { assert(events@.take(events.len() as int) =~= events@); }
    r
}

/// The confirmed items of each incorporated session in turn.
pub fn read_session_items(events: &Vec<Json>) -> (r: Vec<RecordedItem>)
    ensures
        items_view(r@) == items_of_sessions(events@, sessions_of(events@)),
{
    let sids = incorporated_sessions(events);
    let ghost sv = crate::text::views(sids@);
    let mut all: Vec<RecordedItem> = Vec::new();
    for k in 0..sids.len()
        invariant
            sv == crate::text::views(sids@),
            items_view(all@) == items_of_sessions(events@, sv.take(k as int)),
    {
        proof {
            assert(sv.take(k + 1).drop_last() =~= sv.take(k as int));
            assert(sv.take(k + 1).last() == sids@[k as int]@);
        }
        let mut more = confirmed_items_for_session(events, sids[k].as_str());
        let ghost before = items_view(all@);
        let ghost added = items_view(more@);
        all.append(&mut more);
        proof { assert(items_view(all@) =~= before + added); }
    }
    proof { assert(sv.take(sids.len() as int) =~= sv); }
    all
}

/// Every item of the project record: the confirmed items of each
/// incorporated session in turn, then the task instances.
pub fn read_all_record_items(events: &Vec<Json>) -> (r: Vec<RecordedItem>)
    ensures
        items_view(r@) == record_items(events@),
{
    let mut all = read_session_items(events);
    let ghost before = items_view(all@);
    let mut tasks = read_task_items(events);
    let ghost added = items_view(tasks@);
    all.append(&mut tasks);
    proof { assert(items_view(all@) =~= before + added); }
    all
}

/// The item has identifier `id`.
pub open spec fn has_id(id: Seq<char>) -> spec_fn(ItemView) -> bool {
    |i: ItemView| i.item_id == id
}

/// The first item of the record with identifier `id`.
pub fn find_item(items: &Vec<RecordedItem>, id: &str) -> (r: Option<usize>)
    ensures
        r matches Some(k) ==> crate::seqs::is_first(items_view(items@), has_id(id@), k as int),
        r is None ==> !crate::seqs::any_of(items_view(items@), has_id(id@)),
{
    let mut i: usize = 0;
    while i < items.len()
        invariant
            i <= items.len(),
            forall|j: int| 0 <= j < i ==> !has_id(id@)(#[trigger] items_view(items@)[j]),
        decreases items.len() - i,
    {
        if str_eq(items[i].item_id.as_str(), id) {
            return Some(i);
        }
        i = i + 1;
    }
    None
}

/// The last item of the record with identifier `id` (the one a map keyed
/// by identifier keeps).
pub fn find_last_item(items: &Vec<RecordedItem>, id: &str) -> (r: Option<usize>)
    ensures
        r matches Some(k) ==> crate::seqs::is_last(items_view(items@), has_id(id@), k as int),
        r is None ==> !crate::seqs::any_of(items_view(items@), has_id(id@)),
{
    let mut i: usize = items.len();
    while i > 0
        invariant
            i <= items.len(),
            forall|j: int| i <= j < items.len() ==> !has_id(id@)(#[trigger] items_view(items@)[j]),
        decreases i,
    {
        i = i - 1;
        if str_eq(items[i].item_id.as_str(), id) {
            return Some(i);
        }
    }
    None
}

// ─── Status, priority, markers ────────────────────────────────────────────────

/// The event was recorded by a module whose status and priority updates
/// count: item status and Logseq sync.
pub open spec fn explicit_source(e: Json) -> bool {
    str_of(e, "source_module"@) == Some("item_status"@) || str_of(e, "source_module"@) == Some("logseq_sync"@)
}

/// The value an update of item `id` of type `etype` sets (its `field`),
/// when `e` is such an update.
pub open spec fn update_of(id: Seq<char>, etype: Seq<char>, field: Seq<char>) -> spec_fn(Json) -> Option<Option<Seq<char>>> {
    |e: Json| if explicit_source(e) && str_of(e, "event_type"@) == Some(etype) && pstr_of(e, "item_id"@) == Some(id) {
        Some(pstr_of(e, field))
    } else {
        None
    }
}

/// The value set by the last of a sequence of updates.
pub open spec fn last_set(us: Seq<Option<Seq<char>>>) -> Option<Seq<char>> {
    if us.len() == 0 { None } else { us.last() }
}

/// The status last recorded for item `id`.
pub open spec fn explicit_status(events: Seq<Json>, id: Seq<char>) -> Option<Seq<char>> {
    last_set(events.filter_map(update_of(id, "ItemStatusUpdated"@, "new_status"@)))
}

/// The priority last recorded for item `id`.
pub open spec fn explicit_priority(events: Seq<Json>, id: Seq<char>) -> Option<Seq<char>> {
    last_set(events.filter_map(update_of(id, "ItemPriorityUpdated"@, "new_priority"@)))
}

/// Whether the event is an explicit source.
fn is_explicit_source(e: &Json) -> (r: bool)
    ensures
        r == explicit_source(*e),
{
    match jstr(e, "source_module") {
        Some(m) => str_eq(m, "item_status") || str_eq(m, "logseq_sync"),
        None => false,
    }
}

/// The value set by the last update of item `id` of type `etype`.
fn last_update(events: &Vec<Json>, id: &str, etype: &str, field: &str) -> (r: Option<String>)
    ensures
        ov(r) == last_set(events@.filter_map(update_of(id@, etype@, field@))),
{
    let ghost f = update_of(id@, etype@, field@);
    let mut last: Option<String> = None;
    for i in 0..events.len()
        invariant
            f == update_of(id@, etype@, field@),
            ov(last) == last_set(events@.take(i as int).filter_map(f)),
    {
        proof {
            assert(events@.take(i + 1).drop_last() =~= events@.take(i as int));
            assert(events@.take(i + 1).last() == events@[i as int]);
        }
        let e = &events[i];
        let hit = is_explicit_source(e) && match jstr(e, "event_type") {
            Some(t) => str_eq(t, etype),
            None => false,
        } && match jpstr(e, "item_id") {
            Some(x) => str_eq(x, id),
            None => false,
        };
        if hit {
            last = own(jpstr(e, field));
        }
    }
    proof { assert(events@.take(events.len() as int) =~= events@); }
    last
}

/// The status last recorded for an item by item status or Logseq sync.
pub fn current_status(events: &Vec<Json>, item_id: &str) -> (r: Option<String>)
    ensures
        ov(r) == explicit_status(events@, item_id@),
{
    last_update(events, item_id, "ItemStatusUpdated", "new_status")
}

/// The priority last recorded for an item by item status or Logseq sync.
pub fn current_priority(events: &Vec<Json>, item_id: &str) -> (r: Option<String>)
    ensures
        ov(r) == explicit_priority(events@, item_id@),
{
    last_update(events, item_id, "ItemPriorityUpdated", "new_priority")
}

/// The marker a task-model event sets for task `tid`: its initial marker
/// when it adds the task, its new marker when it updates it.
pub open spec fn marker_set(tid: Seq<char>) -> spec_fn(Json) -> Option<Option<Seq<char>>> {
    |e: Json| if str_of(e, "source_module"@) == Some("task_model"@) && pstr_of(e, "task_id"@) == Some(tid) {
        if str_of(e, "event_type"@) == Some("TaskAdded"@) {
            Some(pstr_of(e, "initial_marker"@))
        } else if str_of(e, "event_type"@) == Some("TaskMarkerUpdated"@) {
            Some(pstr_of(e, "new_marker"@))
        } else {
            None
        }
    } else {
        None
    }
}

/// The current marker of task `tid`.
pub open spec fn task_marker(events: Seq<Json>, tid: Seq<char>) -> Option<Seq<char>> {
    last_set(events.filter_map(marker_set(tid)))
}

/// The current marker of a task instance: the marker of its latest
/// `TaskMarkerUpdated` event, else the initial marker of its `TaskAdded`.
pub fn current_task_marker(events: &Vec<Json>, task_id: &str) -> (r: Option<String>)
    ensures
        ov(r) == task_marker(events@, task_id@),
{
    let ghost f = marker_set(task_id@);
    let mut cur: Option<String> = None;
    for i in 0..events.len()
        invariant
            f == marker_set(task_id@),
            ov(cur) == last_set(events@.take(i as int).filter_map(f)),
    {
        proof {
            assert(events@.take(i + 1).drop_last() =~= events@.take(i as int));
            assert(events@.take(i + 1).last() == events@[i as int]);
        }
        let e = &events[i];
        let mine = match jstr(e, "source_module") {
            Some(m) => str_eq(m, "task_model"),
            None => false,
        } && match jpstr(e, "task_id") {
            Some(t) => str_eq(t, task_id),
            None => false,
        };
        if mine {
            match jstr(e, "event_type") {
                Some(t) => {
                    if str_eq(t, "TaskAdded") {
                        cur = own(jpstr(e, "initial_marker"));
                    } else if str_eq(t, "TaskMarkerUpdated") {
                        cur = own(jpstr(e, "new_marker"));
                    }
                },
                None => {},
            }
        }
    }
    proof { assert(events@.take(events.len() as int) =~= events@); }
    cur
}


// ─── Proposed values ──────────────────────────────────────────────────────────

/// The entry has item identifier `id`.
pub open spec fn entry_has_id(id: Seq<char>) -> spec_fn(Json) -> bool {
    |it: Json| str_of(it, "item_id"@) == Some(id)
}

/// `e` is a structuring extraction, with a correlation identifier, that
/// lists item `id`.
pub open spec fn proposes(id: Seq<char>) -> spec_fn(Json) -> bool {
    |e: Json| {
        &&& event_is(e, "pm_structuring"@, "ItemsExtracted"@)
        &&& str_of(e, "correlation_id"@) is Some
        &&& as_array(get(get(e, "payload"@), "items"@)) matches Some(items) && crate::seqs::any_of(items, entry_has_id(id))
    }
}

/// `e` is the structuring confirmation of extraction `corr` that accepts
/// item `id`.
pub open spec fn confirms(corr: Seq<char>, id: Seq<char>) -> spec_fn(Json) -> bool {
    |e: Json| {
        &&& event_is(e, "pm_structuring"@, "ExtractionConfirmed"@)
        &&& str_of(e, "correlation_id"@) == Some(corr)
        &&& as_array(get(get(e, "payload"@), "accepted_item_ids"@)) matches Some(a)
            && crate::seqs::any_of(a, str_is(id))
    }
}

/// The value is the string `id`.
pub open spec fn str_is(id: Seq<char>) -> spec_fn(Json) -> bool {
    |v: Json| as_str(v) == Some(id)
}

/// Whether an array holds the string `id`.
pub fn array_has_str(a: &Vec<Json>, id: &str) -> (r: bool)
    ensures
        r == crate::seqs::any_of(a@, str_is(id@)),
{
    let mut j: usize = 0;
    while j < a.len()
        invariant
            j <= a.len(),
            forall|k: int| 0 <= k < j ==> !str_is(id@)(#[trigger] a@[k]),
        decreases a.len() - j,
    {
        match &a[j] {
            Json::Str(x) => {
                if str_eq(x.as_str(), id) {
                    proof { assert(str_is(id@)(a@[j as int])); }
                    return true;
                }
            },
            _ => {},
        }
        j = j + 1;
    }
    false
}

/// The status and priority proposed for item `id` by the first extraction
/// that lists it, provided that extraction was confirmed with the item
/// accepted; otherwise none.
pub open spec fn proposed_values(events: Seq<Json>, id: Seq<char>) -> (Option<Seq<char>>, Option<Seq<char>>) {
    match crate::seqs::first_index(events, proposes(id)) {
        Some(k) => {
            let e = events[k];
            let items = as_array(get(get(e, "payload"@), "items"@)).unwrap();
            match crate::seqs::first_index(items, entry_has_id(id)) {
                Some(j) => {
                    let corr = str_of(e, "correlation_id"@).unwrap();
                    if crate::seqs::any_of(events, confirms(corr, id)) {
                        (str_of(items[j], "proposed_status"@), str_of(items[j], "proposed_priority"@))
                    } else {
                        (None, None)
                    }
                },
                None => (None, None),
            }
        },
        None => (None, None),
    }
}

/// The first entry of a list with identifier `id`.
fn find_entry(items: &Vec<Json>, id: &str) -> (r: Option<usize>)
    ensures
        r matches Some(j) ==> crate::seqs::is_first(items@, entry_has_id(id@), j as int),
        r is None ==> !crate::seqs::any_of(items@, entry_has_id(id@)),
{
    let mut j: usize = 0;
    while j < items.len()
        invariant
            j <= items.len(),
            forall|k: int| 0 <= k < j ==> !entry_has_id(id@)(#[trigger] items@[k]),
        decreases items.len() - j,
    {
        match jstr(&items[j], "item_id") {
            Some(x) => {
                if str_eq(x, id) {
                    return Some(j);
                }
            },
            None => {},
        }
        j = j + 1;
    }
    None
}

/// Whether some event confirms extraction `corr` with item `id` accepted.
fn is_confirmed(events: &Vec<Json>, corr: &str, id: &str) -> (r: bool)
    ensures
        r == crate::seqs::any_of(events@, confirms(corr@, id@)),
{
    let mut i: usize = 0;
    while i < events.len()
        invariant
            i <= events.len(),
            forall|k: int| 0 <= k < i ==> !confirms(corr@, id@)(#[trigger] events@[k]),
        decreases events.len() - i,
    {
        let e = &events[i];
        if is_event(e, "pm_structuring", "ExtractionConfirmed") {
            let same = match jstr(e, "correlation_id") {
                Some(c) => str_eq(c, corr),
                None => false,
            };
            if same {
                match jpayload(e) {
                    Some(p) => match jarr(p, "accepted_item_ids") {
                        Some(a) => {
                            if array_has_str(a, id) {
                                proof { assert(confirms(corr@, id@)(events@[i as int])); }
                                return true;
                            }
                        },
                        None => {},
                    },
                    None => {},
                }
            }
        }
        i = i + 1;
    }
    false
}

/// The status and priority proposed for an item by its confirmed
/// extraction, if any.
pub fn proposed_values_for(events: &Vec<Json>, item_id: &str) -> (r: (Option<String>, Option<String>))
    ensures
        (ov(r.0), ov(r.1)) == proposed_values(events@, item_id@),
{
    let mut i: usize = 0;
    while i < events.len()
        invariant
            i <= events.len(),
            forall|k: int| 0 <= k < i ==> !proposes(item_id@)(#[trigger] events@[k]),
        decreases events.len() - i,
    {
        let e = &events[i];
        if is_event(e, "pm_structuring", "ItemsExtracted") {
            match jstr(e, "correlation_id") {
                Some(corr) => match jpayload(e) {
                    Some(p) => match jarr(p, "items") {
                        Some(items) => match find_entry(items, item_id) {
                            Some(j) => {
                                proof {
                                    crate::seqs::lemma_first_index(events@, proposes(item_id@), i as int);
                                    crate::seqs::lemma_first_index(items@, entry_has_id(item_id@), j as int);
                                }
                                if is_confirmed(events, corr, item_id) {
                                    return (own(jstr(&items[j], "proposed_status")), own(jstr(&items[j], "proposed_priority")));
                                } else {
                                    return (None, None);
                                }
                            },
                            None => {},
                        },
                        None => {},
                    },
                    None => {},
                },
                None => {},
            }
        }
        i = i + 1;
    }
    (None, None)
}



// ─── Appending an event ───────────────────────────────────────────────────────

/// Filtering and mapping a sequence with one more element.
pub proof fn lemma_filter_map_push<A, B>(s: Seq<A>, x: A, f: spec_fn(A) -> Option<B>)
    ensures
        s.push(x).filter_map(f) == match f(x) {
            Some(y) => s.filter_map(f).push(y),
            None => s.filter_map(f),
        },
{
    assert(s.push(x).drop_last() =~= s);
    assert(s.push(x).last() == x);
    match f(x) {
        Some(y) => { assert(s.filter_map(f) + seq![y] =~= s.filter_map(f).push(y)); },
        None => {},
    }
}

/// An event that neither incorporates a session, adds a task, extracts
/// items nor confirms an extraction.
pub open spec fn leaves_record(j: Json) -> bool {
    str_of(j, "event_type"@) matches Some(t) && t != "ItemsIncorporated"@ && t != "TaskAdded"@
        && t != "ItemsExtracted"@ && t != "ExtractionConfirmed"@
}

/// An event that neither incorporates a session, extracts items nor
/// confirms an extraction.
pub open spec fn keeps_sessions(j: Json) -> bool {
    str_of(j, "event_type"@) matches Some(t) && t != "ItemsIncorporated"@ && t != "ItemsExtracted"@ && t != "ExtractionConfirmed"@
}

proof fn lemma_items_of_sessions_push(events: Seq<Json>, j: Json, sids: Seq<Seq<char>>)
    requires
        keeps_sessions(j),
    ensures
        items_of_sessions(events.push(j), sids) == items_of_sessions(events, sids),
    decreases sids.len(),
{
    if sids.len() > 0 {
        lemma_items_of_sessions_push(events, j, sids.drop_last());
        let sid = sids.last();
        lemma_filter_map_push(events, j, session_event_of(sid, "ItemsExtracted"@));
        lemma_filter_map_push(events, j, session_event_of(sid, "ExtractionConfirmed"@));
    }
}

/// Appending an event that leaves the record alone keeps its items.
pub proof fn lemma_record_items_push(events: Seq<Json>, j: Json)
    requires
        leaves_record(j),
    ensures
        record_items(events.push(j)) == record_items(events),
        sessions_of(events.push(j)) == sessions_of(events),
{
    lemma_filter_map_push(events, j, |e: Json| incorporated_session(e));
    lemma_filter_map_push(events, j, |e: Json| task_item(e));
    lemma_items_of_sessions_push(events, j, sessions_of(events));
}

/// Appending an event that touches no session keeps the sessions and their
/// items.
pub proof fn lemma_session_items_push(events: Seq<Json>, j: Json)
    requires
        keeps_sessions(j),
    ensures
        sessions_of(events.push(j)) == sessions_of(events),
        items_of_sessions(events.push(j), sessions_of(events.push(j))) == items_of_sessions(events, sessions_of(events)),
{
    lemma_filter_map_push(events, j, |e: Json| incorporated_session(e));
    lemma_items_of_sessions_push(events, j, sessions_of(events));
}

} // verus!
