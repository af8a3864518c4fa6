//! Syncing a Logseq graph back into the project record: the status and
//! priority properties of item pages, and the task blocks of those pages
//! (their markers, owners and dates, and tasks not yet recorded).
use vstd::prelude::*;
use crate::text::str_eq;
use crate::seqs::{has_key, last_index, is_last, first_index, is_first, any_of, lemma_last_index, lemma_first_index};
use crate::payload::{Json, JView, OutEvent, ModuleEvent, EventSpec, appended_in, lemma_appended_in_none, lemma_appended_in_push,
    vstr_of, vget, lemma_vstr_at, lemma_vget_at,
    emit, js, jo, jopt_v, pstr_of, get, present, payload1, payload2, payload3, payload4, payload5, jpstr, jpayload, jget};
use crate::record::{ItemView, RecordedItem, items_view, record_items, read_all_record_items, event_is, is_event, or_empty,
    own, own_or_empty, ov, explicit_status, explicit_priority, current_status, current_priority, proposed_values,
    proposed_values_for, lemma_filter_map_push};
use crate::schema::{ProjectSchema, marker_status, marker_to_status, block_type_named, is_block_type};
use crate::status::{status_allowed, vocabulary_allows_status, valid_priority, is_valid_priority};
use crate::sync_parse::{page_item_id, read_page_item_id, page_properties, parse_page_properties, task_blocks,
    parse_task_block_lines, blocks_readable, BlockView, TaskBlock, blocks_view, last_of};

verus! {

// ─── Task records ─────────────────────────────────────────────────────────────

/// A task instance with its current marker, owner and dates.
pub ghost struct TaskView {
    pub task_id: Seq<char>,
    pub item_type: Seq<char>,
    pub description: Seq<char>,
    pub parent_item_id: Seq<char>,
    pub current_marker: Seq<char>,
    pub owner_id: Seq<char>,
    pub scheduled_date: Option<Seq<char>>,
    pub deadline: Option<Seq<char>>,
}

/// A task instance with its current marker, owner and dates.
pub struct TaskRecord {
    pub task_id: String,
    pub item_type: String,
    pub description: String,
    pub parent_item_id: String,
    pub current_marker: String,
    pub owner_id: String,
    pub scheduled_date: Option<String>,
    pub deadline: Option<String>,
}

impl View for TaskRecord {
    type V = TaskView;

    open spec fn view(&self) -> TaskView {
        TaskView {
            task_id: self.task_id@,
            item_type: self.item_type@,
            description: self.description@,
            parent_item_id: self.parent_item_id@,
            current_marker: self.current_marker@,
            owner_id: self.owner_id@,
            scheduled_date: ov(self.scheduled_date),
            deadline: ov(self.deadline),
        }
    }
}

/// The views of task records.
pub open spec fn tasks_view(s: Seq<TaskRecord>) -> Seq<TaskView> {
    s.map_values(|t: TaskRecord| t@)
}

/// The owner a task has until one is set.
pub open spec fn tbd() -> Seq<char> {
    "TBD"@
}

/// The task a `TaskAdded` event of the task model adds, when it names the
/// task, its type and its parent: its marker defaults to `TODO`, its owner
/// to `TBD`.
pub open spec fn task_added(e: Json) -> Option<TaskView> {
    if event_is(e, "task_model"@, "TaskAdded"@) {
        match (pstr_of(e, "task_id"@), pstr_of(e, "item_type"@), pstr_of(e, "parent_item_id"@)) {
            (Some(t), Some(ty), Some(par)) => Some(TaskView {
                task_id: t,
                item_type: ty,
                description: or_empty(pstr_of(e, "description"@)),
                parent_item_id: par,
                current_marker: match pstr_of(e, "initial_marker"@) { Some(m) => m, None => "TODO"@ },
                owner_id: match pstr_of(e, "owner_id"@) { Some(o) => o, None => tbd() },
                scheduled_date: pstr_of(e, "scheduled_date"@),
                deadline: pstr_of(e, "deadline"@),
            }),
            _ => None,
        }
    } else {
        None
    }
}

/// The string value `field` of a task-model event of type `etype` about
/// task `tid`.
pub open spec fn task_update(tid: Seq<char>, etype: Seq<char>, field: Seq<char>) -> spec_fn(Json) -> Option<Seq<char>> {
    |e: Json| if event_is(e, "task_model"@, etype) && pstr_of(e, "task_id"@) == Some(tid) { pstr_of(e, field) } else { None }
}

/// The date `field` a `TaskDatesUpdated` event about task `tid` sets, when
/// its payload has that member (a null member clears the date).
pub open spec fn date_update(tid: Seq<char>, field: Seq<char>) -> spec_fn(Json) -> Option<Option<Seq<char>>> {
    |e: Json| if event_is(e, "task_model"@, "TaskDatesUpdated"@) && pstr_of(e, "task_id"@) == Some(tid)
        && present(get(e, "payload"@), field) {
        Some(pstr_of(e, field))
    } else {
        None
    }
}

/// The last value of a sequence of updates, else `init`.
pub open spec fn last_or<A>(us: Seq<A>, init: A) -> A {
    if us.len() == 0 { init } else { us.last() }
}

/// The task has identifier `tid`.
pub open spec fn has_task_id(tid: Seq<char>) -> spec_fn(TaskView) -> bool {
    |t: TaskView| t.task_id == tid
}

/// The tasks the log adds, in order.
pub open spec fn added_tasks(events: Seq<Json>) -> Seq<TaskView> {
    events.filter_map(|e: Json| task_added(e))
}

/// Task `k` of the added tasks with the updates of the log applied; the
/// updates of an identifier go to the first task with that identifier.
pub open spec fn task_record(events: Seq<Json>, k: int) -> TaskView {
    let added = added_tasks(events);
    let t = added[k];
    if is_first(added, has_task_id(t.task_id), k) {
        TaskView {
            current_marker: last_or(events.filter_map(task_update(t.task_id, "TaskMarkerUpdated"@, "new_marker"@)), t.current_marker),
            owner_id: last_or(events.filter_map(task_update(t.task_id, "TaskOwnerUpdated"@, "new_owner_id"@)), t.owner_id),
            scheduled_date: last_or(events.filter_map(date_update(t.task_id, "new_scheduled_date"@)), t.scheduled_date),
            deadline: last_or(events.filter_map(date_update(t.task_id, "new_deadline"@)), t.deadline),
            ..t
        }
    } else {
        t
    }
}

/// Every task instance of the log with its current marker, owner and dates.
pub open spec fn task_records(events: Seq<Json>) -> Seq<TaskView> {
    Seq::new(added_tasks(events).len(), |k: int| task_record(events, k))
}

/// The tasks a log adds.
fn read_added_tasks(events: &Vec<Json>) -> (r: Vec<TaskRecord>)
    ensures
        tasks_view(r@) == added_tasks(events@),
{
    let mut r: Vec<TaskRecord> = Vec::new();
    for i in 0..events.len()
        invariant
            tasks_view(r@) == added_tasks(events@.take(i as int)),
    {
        proof {
            assert(events@.take(i + 1) =~= events@.take(i as int).push(events@[i as int]));
            lemma_filter_map_push(events@.take(i as int), events@[i as int], |e: Json| task_added(e));
        }
        let e = &events[i];
        let ghost before = tasks_view(r@);
        if is_event(e, "task_model", "TaskAdded") {
            match (jpstr(e, "task_id"), jpstr(e, "item_type"), jpstr(e, "parent_item_id")) {
                (Some(t), Some(ty), Some(par)) => {
                    let marker = match jpstr(e, "initial_marker") { Some(m) => m.to_owned(), None => "TODO".to_owned() };
                    let owner = match jpstr(e, "owner_id") { Some(o) => o.to_owned(), None => "TBD".to_owned() };
                    r.push(TaskRecord {
                        task_id: t.to_owned(),
                        item_type: ty.to_owned(),
                        description: own_or_empty(jpstr(e, "description")),
                        parent_item_id: par.to_owned(),
                        current_marker: marker,
                        owner_id: owner,
                        scheduled_date: own(jpstr(e, "scheduled_date")),
                        deadline: own(jpstr(e, "deadline")),
                    });
                    proof { assert(tasks_view(r@) =~= before.push(task_added(events@[i as int]).unwrap())); }
                },
                _ => {},
            }
        }
    }
    proof { assert(events@.take(events.len() as int) =~= events@); }
    r
}

/// The last value `field` of task-model events of type `etype` about task
/// `tid`.
fn last_task_update(events: &Vec<Json>, tid: &str, etype: &str, field: &str) -> (r: Option<String>)
    ensures
        ov(r) == last_of(events@.filter_map(task_update(tid@, etype@, field@))),
{
    let ghost f = task_update(tid@, etype@, field@);
    let mut last: Option<String> = None;
    for i in 0..events.len()
        invariant
            f == task_update(tid@, etype@, field@),
            ov(last) == last_of(events@.take(i as int).filter_map(f)),
    {
        proof {
            assert(events@.take(i + 1) =~= events@.take(i as int).push(events@[i as int]));
            lemma_filter_map_push(events@.take(i as int), events@[i as int], f);
        }
        let e = &events[i];
        if is_event(e, "task_model", etype) {
            match jpstr(e, "task_id") {
                Some(t) => {
                    if str_eq(t, tid) {
                        match jpstr(e, field) {
                            Some(x) => { last = Some(x.to_owned()); },
                            None => {},
                        }
                    }
                },
                None => {},
            }
        }
    }
    proof { assert(events@.take(events.len() as int) =~= events@); }
    last
}

/// The date `field` the last `TaskDatesUpdated` event about task `tid`
/// that has it sets, if any does.
fn last_date_update(events: &Vec<Json>, tid: &str, field: &str) -> (r: Option<Option<String>>)
    ensures
        match r {
            Some(x) => events@.filter_map(date_update(tid@, field@)).len() > 0
                && ov(x) == events@.filter_map(date_update(tid@, field@)).last(),
            None => events@.filter_map(date_update(tid@, field@)).len() == 0,
        },
{
    let ghost f = date_update(tid@, field@);
    let mut last: Option<Option<String>> = None;
    for i in 0..events.len()
        invariant
            f == date_update(tid@, field@),
            match last {
                Some(x) => events@.take(i as int).filter_map(f).len() > 0 && ov(x) == events@.take(i as int).filter_map(f).last(),
                None => events@.take(i as int).filter_map(f).len() == 0,
            },
    {
        proof {
            assert(events@.take(i + 1) =~= events@.take(i as int).push(events@[i as int]));
            lemma_filter_map_push(events@.take(i as int), events@[i as int], f);
        }
        let e = &events[i];
        if is_event(e, "task_model", "TaskDatesUpdated") {
            match jpstr(e, "task_id") {
                Some(t) => {
                    if str_eq(t, tid) {
                        match jpayload(e) {
                            Some(p) => {
                                if jget(p, field).is_some() {
                                    last = Some(own(jpstr(e, field)));
                                }
                            },
                            None => {},
                        }
                    }
                },
                None => {},
            }
        }
    }
    proof { assert(events@.take(events.len() as int) =~= events@); }
    last
}

/// Whether an earlier task of the list has identifier `tid`.
fn earlier_has_id(tasks: &Vec<TaskRecord>, k: usize, tid: &str) -> (r: bool)
    requires
        k <= tasks.len(),
    ensures
        r == exists|j: int| 0 <= j < k && #[trigger] tasks_view(tasks@)[j].task_id == tid@,
{
    let mut j: usize = 0;
    while j < k
        invariant
            j <= k <= tasks.len(),
            forall|m: int| 0 <= m < j ==> #[trigger] tasks_view(tasks@)[m].task_id != tid@,
        decreases k - j,
    {
        if str_eq(tasks[j].task_id.as_str(), tid) {
            proof { assert(tasks_view(tasks@)[j as int].task_id == tid@); }
            return true;
        }
        j = j + 1;
    }
    false
}

/// Reads all task instances with their current markers, owners and dates.
pub fn read_all_task_records(events: &Vec<Json>) -> (r: Vec<TaskRecord>)
    ensures
        tasks_view(r@) == task_records(events@),
{
    let added = read_added_tasks(events);
    let ghost av = tasks_view(added@);
    let mut r: Vec<TaskRecord> = Vec::new();
    for k in 0..added.len()
        invariant
            av == tasks_view(added@),
            av == added_tasks(events@),
            r.len() == k,
            forall|m: int| 0 <= m < k ==> #[trigger] tasks_view(r@)[m] == task_record(events@, m),
    {
        let t = &added[k];
        let ghost before = tasks_view(r@);
        proof { assert(av[k as int] == t@); }
        if earlier_has_id(&added, k, t.task_id.as_str()) {
            proof {
                let j = choose|j: int| 0 <= j < k && #[trigger] tasks_view(added@)[j].task_id == t.task_id@;
                assert(!has_task_id(t.task_id@)(av[j]) == false);
                assert(!is_first(av, has_task_id(av[k as int].task_id), k as int));
            }
            r.push(TaskRecord {
                task_id: t.task_id.clone(),
                item_type: t.item_type.clone(),
                description: t.description.clone(),
                parent_item_id: t.parent_item_id.clone(),
                current_marker: t.current_marker.clone(),
                owner_id: t.owner_id.clone(),
                scheduled_date: t.scheduled_date.clone(),
                deadline: t.deadline.clone(),
            });
        } else {
            proof {
                assert(is_first(av, has_task_id(av[k as int].task_id), k as int));
            }
            let tid = t.task_id.as_str();
            let marker = match last_task_update(events, tid, "TaskMarkerUpdated", "new_marker") {
                Some(m) => m,
                None => t.current_marker.clone(),
            };
            let owner = match last_task_update(events, tid, "TaskOwnerUpdated", "new_owner_id") {
                Some(o) => o,
                None => t.owner_id.clone(),
            };
            let sched = match last_date_update(events, tid, "new_scheduled_date") {
                Some(d) => d,
                None => t.scheduled_date.clone(),
            };
            let dl = match last_date_update(events, tid, "new_deadline") {
                Some(d) => d,
                None => t.deadline.clone(),
            };
            r.push(TaskRecord {
                task_id: t.task_id.clone(),
                item_type: t.item_type.clone(),
                description: t.description.clone(),
                parent_item_id: t.parent_item_id.clone(),
                current_marker: marker,
                owner_id: owner,
                scheduled_date: sched,
                deadline: dl,
            });
        }
        proof {
            assert(tasks_view(r@) =~= before.push(r@[k as int]@));
            assert(tasks_view(r@)[k as int] == task_record(events@, k as int));
        }
    }
    proof { assert(tasks_view(r@) =~= task_records(events@)); }
    r
}


// ─── Pages ────────────────────────────────────────────────────────────────────

/// A page of the Logseq graph: its file name without extension, and its
/// text.
pub struct PageFile {
    pub name: String,
    pub content: String,
}

/// A page, as values.
pub ghost struct PageView {
    pub name: Seq<char>,
    pub content: Seq<char>,
}

impl View for PageFile {
    type V = PageView;

    open spec fn view(&self) -> PageView {
        PageView { name: self.name@, content: self.content@ }
    }
}

/// The views of pages.
pub open spec fn pages_view(s: Seq<PageFile>) -> Seq<PageView> {
    s.map_values(|p: PageFile| p@)
}

/// The item each page belongs to, if any.
pub open spec fn page_ids(pages: Seq<PageView>) -> Seq<Option<Seq<char>>> {
    pages.map_values(|p: PageView| page_item_id(p.content))
}

/// The value is `Some(id)`.
pub open spec fn is_id(id: Seq<char>) -> spec_fn(Option<Seq<char>>) -> bool {
    |x: Option<Seq<char>>| x == Some(id)
}

/// The page of item `id`: the last page that belongs to it (in a map from
/// items to pages filled page after page, a later page takes the place of
/// an earlier one).
pub open spec fn page_of(pages: Seq<PageView>, id: Seq<char>) -> Option<int> {
    last_index(page_ids(pages), is_id(id))
}

/// Page `p` is the page of the item it belongs to.
pub open spec fn is_item_page(pages: Seq<PageView>, p: int) -> bool {
    0 <= p < pages.len() && match page_ids(pages)[p] {
        Some(id) => page_of(pages, id) == Some(p),
        None => false,
    }
}

/// The page numbers of a graph.
pub open spec fn page_numbers(pages: Seq<PageView>) -> Seq<int> {
    Seq::new(pages.len(), |i: int| i)
}

/// Page `p` is an item page named `name`.
pub open spec fn named_item_page(pages: Seq<PageView>, name: Seq<char>) -> spec_fn(int) -> bool {
    |p: int| is_item_page(pages, p) && pages[p].name == name
}

/// The item whose page is named `name`.
pub open spec fn item_named(pages: Seq<PageView>, name: Seq<char>) -> Option<Seq<char>> {
    match first_index(page_numbers(pages), named_item_page(pages, name)) {
        Some(p) => page_ids(pages)[p],
        None => None,
    }
}

// ─── The sync decisions ───────────────────────────────────────────────────────

/// The module that records syncs.
pub open spec fn sync_module() -> Seq<char> {
    "logseq_sync"@
}

/// The module that records task changes.
pub open spec fn task_module() -> Seq<char> {
    "task_model"@
}

/// Where a sync stands: the events decided so far, the changes applied and
/// items skipped, whether any difference was seen, and the statuses and
/// priorities this sync has recorded (which later readings see).
pub ghost struct SyncState {
    pub evs: Seq<ModuleEvent>,
    pub changes: nat,
    pub skipped: nat,
    pub diff: bool,
    pub status_set: Seq<(Seq<char>, Seq<char>)>,
    pub priority_set: Seq<(Seq<char>, Seq<char>)>,
}

/// A sync before any decision.
pub open spec fn sync_start() -> SyncState {
    SyncState { evs: Seq::empty(), changes: 0, skipped: 0, diff: false, status_set: Seq::empty(), priority_set: Seq::empty() }
}

/// The value recorded for `id`.
pub open spec fn value_for(id: Seq<char>) -> spec_fn((Seq<char>, Seq<char>)) -> Option<Seq<char>> {
    |x: (Seq<char>, Seq<char>)| if x.0 == id { Some(x.1) } else { None }
}

/// The last value recorded for `id`.
pub open spec fn last_for(sets: Seq<(Seq<char>, Seq<char>)>, id: Seq<char>) -> Option<Seq<char>> {
    last_of(sets.filter_map(value_for(id)))
}

/// The effective status of item `id` as the sync reads it: the last status
/// recorded (by this sync, else in the log), else the proposed one.
pub open spec fn sync_status(events: Seq<Json>, st: SyncState, id: Seq<char>) -> Option<Seq<char>> {
    match last_for(st.status_set, id) {
        Some(x) => Some(x),
        None => match explicit_status(events, id) {
            Some(x) => Some(x),
            None => proposed_values(events, id).0,
        },
    }
}

/// The effective priority of item `id` as the sync reads it.
pub open spec fn sync_priority(events: Seq<Json>, st: SyncState, id: Seq<char>) -> Option<Seq<char>> {
    match last_for(st.priority_set, id) {
        Some(x) => Some(x),
        None => match explicit_priority(events, id) {
            Some(x) => Some(x),
            None => proposed_values(events, id).1,
        },
    }
}

/// A sync event.
pub open spec fn sync_ev(etype: Seq<char>, fields: Seq<(Seq<char>, JView)>) -> ModuleEvent {
    (sync_module(), (etype, fields))
}

/// A task event.
pub open spec fn task_ev(etype: Seq<char>, fields: Seq<(Seq<char>, JView)>) -> ModuleEvent {
    (task_module(), (etype, fields))
}

/// The status part of syncing an item whose page gives status `ls`.
pub open spec fn status_step(schema: ProjectSchema, st: SyncState, it: ItemView, ls: Option<Seq<char>>, es: Option<Seq<char>>) -> SyncState {
    match ls {
        Some(x) => if Some(x) != es {
            if !status_allowed(schema, it.item_type, x) {
                SyncState {
                    evs: st.evs.push(sync_ev("ItemSyncSkippedInvalidStatus"@, seq![
                        ("failure_reason"@, JView::Str("invalid_status_for_type"@)), ("item_id"@, JView::Str(it.item_id)),
                        ("item_type"@, JView::Str(it.item_type)), ("rejected_status"@, JView::Str(x))])),
                    skipped: st.skipped + 1,
                    diff: true,
                    ..st
                }
            } else {
                SyncState {
                    evs: st.evs.push(sync_ev("ItemStatusUpdated"@, seq![
                        ("item_id"@, JView::Str(it.item_id)), ("item_type"@, JView::Str(it.item_type)),
                        ("new_status"@, JView::Str(x)), ("previous_status"@, jopt_v(es))])),
                    changes: st.changes + 1,
                    diff: true,
                    status_set: st.status_set.push((it.item_id, x)),
                    ..st
                }
            }
        } else {
            st
        },
        None => st,
    }
}

/// The priority part of syncing an item whose page gives priority `lp`;
/// a priority other than `high`, `medium` or `low` is passed over.
pub open spec fn priority_step(st: SyncState, it: ItemView, lp: Option<Seq<char>>, ep: Option<Seq<char>>) -> SyncState {
    match lp {
        Some(y) => if Some(y) != ep {
            if valid_priority(y) {
                SyncState {
                    evs: st.evs.push(sync_ev("ItemPriorityUpdated"@, seq![
                        ("item_id"@, JView::Str(it.item_id)), ("item_type"@, JView::Str(it.item_type)),
                        ("new_priority"@, JView::Str(y)), ("previous_priority"@, jopt_v(ep))])),
                    changes: st.changes + 1,
                    diff: true,
                    priority_set: st.priority_set.push((it.item_id, y)),
                    ..st
                }
            } else {
                SyncState { diff: true, ..st }
            }
        } else {
            st
        },
        None => st,
    }
}

/// Syncing one item of the record from its page, if it has one: the page's
/// status and priority properties against the effective ones.
pub open spec fn item_step(schema: ProjectSchema, events: Seq<Json>, pages: Seq<PageView>, st: SyncState, it: ItemView) -> SyncState {
    match page_of(pages, it.item_id) {
        None => st,
        Some(p) => {
            let props = page_properties(pages[p].content);
            let es = sync_status(events, st, it.item_id);
            let ep = sync_priority(events, st, it.item_id);
            priority_step(status_step(schema, st, it, props.0, es), it, props.1, ep)
        },
    }
}

/// Syncing the items in turn.
pub open spec fn items_fold(schema: ProjectSchema, events: Seq<Json>, pages: Seq<PageView>, items: Seq<ItemView>, st: SyncState) -> SyncState
    decreases items.len(),
{
    if items.len() == 0 {
        st
    } else {
        item_step(schema, events, pages, items_fold(schema, events, pages, items.drop_last(), st), items.last())
    }
}

/// A task is of a block type of the vocabulary.
pub open spec fn of_block_type(schema: ProjectSchema) -> spec_fn(TaskView) -> bool {
    |t: TaskView| block_type_named(schema, t.item_type)
}

/// The type given to a discovered task: that of the first recorded task of
/// a block type, else the first block type of the vocabulary.
pub open spec fn discovery_type(schema: ProjectSchema, tasks: Seq<TaskView>) -> Option<Seq<char>> {
    match first_index(tasks, of_block_type(schema)) {
        Some(k) => Some(tasks[k].item_type),
        None => if schema.block_types.len() > 0 { Some(schema.block_types@[0].0@) } else { None },
    }
}

/// The marker part of syncing a known task.
pub open spec fn marker_step(schema: ProjectSchema, st: SyncState, t: TaskView, b: BlockView) -> SyncState {
    if t.current_marker != b.marker && marker_status(schema, b.marker) is Some {
        SyncState {
            evs: st.evs.push(task_ev("TaskMarkerUpdated"@, seq![("task_id"@, JView::Str(b.task_id)),
                ("previous_marker"@, JView::Str(t.current_marker)), ("new_marker"@, JView::Str(b.marker))])),
            changes: st.changes + 1,
            diff: true,
            ..st
        }
    } else {
        st
    }
}

/// The owner part of syncing a known task.
pub open spec fn owner_step(st: SyncState, t: TaskView, b: BlockView, owner: Option<Seq<char>>) -> SyncState {
    match owner {
        Some(o) => if t.owner_id != o {
            SyncState {
                evs: st.evs.push(task_ev("TaskOwnerUpdated"@, seq![("task_id"@, JView::Str(b.task_id)),
                    ("previous_owner_id"@, JView::Str(t.owner_id)), ("new_owner_id"@, JView::Str(o))])),
                changes: st.changes + 1,
                diff: true,
                ..st
            }
        } else {
            st
        },
        None => st,
    }
}

/// The dates part of syncing a known task.
pub open spec fn dates_step(st: SyncState, t: TaskView, b: BlockView) -> SyncState {
    if b.scheduled_date != t.scheduled_date || b.deadline != t.deadline {
        SyncState {
            evs: st.evs.push(task_ev("TaskDatesUpdated"@, seq![("task_id"@, JView::Str(b.task_id)),
                ("previous_scheduled_date"@, jopt_v(t.scheduled_date)), ("new_scheduled_date"@, jopt_v(b.scheduled_date)),
                ("previous_deadline"@, jopt_v(t.deadline)), ("new_deadline"@, jopt_v(b.deadline))])),
            changes: st.changes + 1,
            diff: true,
            ..st
        }
    } else {
        st
    }
}

/// Syncing one task block of the page of item `parent`: a known task gets
/// its marker (when the vocabulary maps it), owner (when the owner
/// reference names an item page) and dates brought up to date; an unknown
/// task with a marker the vocabulary maps is discovered and added.
pub open spec fn block_step(schema: ProjectSchema, tasks: Seq<TaskView>, pages: Seq<PageView>, parent: Seq<char>, st: SyncState, b: BlockView) -> SyncState {
    let owner = match b.owner_name { Some(n) => item_named(pages, n), None => None };
    match first_index(tasks, has_task_id(b.task_id)) {
        Some(k) => {
            let t = tasks[k];
            dates_step(owner_step(marker_step(schema, st, t, b), t, b, owner), t, b)
        },
        None => if marker_status(schema, b.marker) is None {
            st
        } else {
            match discovery_type(schema, tasks) {
                Some(ty) => SyncState {
                    evs: st.evs.push(task_ev("TaskAdded"@, seq![("task_id"@, JView::Str(b.task_id)),
                        ("item_type"@, JView::Str(ty)), ("description"@, JView::Str(b.description)),
                        ("parent_item_id"@, JView::Str(parent)), ("initial_marker"@, JView::Str(b.marker)),
                        ("owner_id"@, JView::Str(match owner { Some(o) => o, None => tbd() })),
                        ("scheduled_date"@, jopt_v(b.scheduled_date)), ("deadline"@, jopt_v(b.deadline))])),
                    changes: st.changes + 1,
                    diff: true,
                    ..st
                },
                None => st,
            }
        },
    }
}

/// Syncing the task blocks of a page in turn.
pub open spec fn blocks_fold(schema: ProjectSchema, tasks: Seq<TaskView>, pages: Seq<PageView>, parent: Seq<char>, blocks: Seq<BlockView>, st: SyncState) -> SyncState
    decreases blocks.len(),
{
    if blocks.len() == 0 {
        st
    } else {
        block_step(schema, tasks, pages, parent, blocks_fold(schema, tasks, pages, parent, blocks.drop_last(), st), blocks.last())
    }
}

/// Syncing the task blocks of the first `n` pages, item pages only.
pub open spec fn pages_fold(schema: ProjectSchema, tasks: Seq<TaskView>, pages: Seq<PageView>, n: int, st: SyncState) -> SyncState
    decreases n,
{
    if n <= 0 {
        st
    } else {
        let prev = pages_fold(schema, tasks, pages, n - 1, st);
        if is_item_page(pages, n - 1) {
            blocks_fold(schema, tasks, pages, page_ids(pages)[n - 1].unwrap(), task_blocks(pages[n - 1].content), prev)
        } else {
            prev
        }
    }
}

/// The events a sync of the graph `pages` against the log `events` decides:
/// `SyncFailedEmptyRecord` when the record has no item; otherwise the
/// item and task changes, then `SyncCompletedNoChanges` when nothing
/// differed, else `SyncCompleted` with the changes applied and items
/// skipped.
pub open spec fn sync_events(schema: ProjectSchema, events: Seq<Json>, pages: Seq<PageView>, graph_dir: Seq<char>) -> Seq<ModuleEvent> {
    let items = record_items(events);
    if items.len() == 0 {
        seq![sync_ev("SyncFailedEmptyRecord"@, seq![("failure_reason"@, JView::Str("empty_project_record"@))])]
    } else {
        let s1 = items_fold(schema, events, pages, items, sync_start());
        let s2 = pages_fold(schema, task_records(events), pages, pages.len() as int, s1);
        s2.evs.push(if !s2.diff {
            sync_ev("SyncCompletedNoChanges"@, seq![("graph_dir"@, JView::Str(graph_dir)), ("items_checked"@, JView::Num(items.len() as u64))])
        } else {
            sync_ev("SyncCompleted"@, seq![("graph_dir"@, JView::Str(graph_dir)),
                ("changes_applied"@, JView::Num(s2.changes as u64)), ("items_skipped"@, JView::Num(s2.skipped as u64))])
        })
    }
}

/// The item pages of the graph can have their task blocks read.
pub open spec fn pages_readable(pages: Seq<PageView>) -> bool {
    forall|p: int| #[trigger] is_item_page(pages, p) ==> blocks_readable(pages[p].content)
}


// ─── Running a sync ───────────────────────────────────────────────────────────

/// The views of pairs of strings.
pub open spec fn pairs_view(v: Seq<(String, String)>) -> Seq<(Seq<char>, Seq<char>)> {
    v.map_values(|x: (String, String)| (x.0@, x.1@))
}

/// Where a running sync stands.
struct Progress {
    changes: usize,
    skipped: usize,
    diff: bool,
    status_set: Vec<(String, String)>,
    priority_set: Vec<(String, String)>,
}

/// The running sync stands where `st` says, with the events of `st`
/// appended to `start`.
spec fn holds_state(pr: Progress, st: SyncState, start: Seq<OutEvent>, outbox: Seq<OutEvent>, cid: Seq<char>) -> bool {
    &&& pr.changes == st.changes
    &&& pr.skipped == st.skipped
    &&& pr.diff == st.diff
    &&& pairs_view(pr.status_set@) == st.status_set
    &&& pairs_view(pr.priority_set@) == st.priority_set
    &&& appended_in(start, outbox, cid, st.evs)
    &&& st.changes + st.skipped <= st.evs.len()
}

/// The item each page belongs to.
fn page_ids_of(pages: &Vec<PageFile>) -> (r: Vec<Option<String>>)
    ensures
        r.len() == pages.len(),
        forall|p: int| 0 <= p < r.len() ==> ov(#[trigger] r@[p]) == page_ids(pages_view(pages@))[p],
{
    let mut r: Vec<Option<String>> = Vec::new();
    for p in 0..pages.len()
        invariant
            r.len() == p,
            forall|q: int| 0 <= q < r.len() ==> ov(#[trigger] r@[q]) == page_ids(pages_view(pages@))[q],
    {
        let x = read_page_item_id(pages[p].content.as_str());
        r.push(x);
        proof { assert(ov(r@[p as int]) == page_ids(pages_view(pages@))[p as int]); }
    }
    r
}

/// The page of item `id`.
fn page_of_exec(pages: &Vec<PageFile>, ids: &Vec<Option<String>>, id: &str) -> (r: Option<usize>)
    requires
        ids.len() == pages.len(),
        forall|p: int| 0 <= p < ids.len() ==> ov(#[trigger] ids@[p]) == page_ids(pages_view(pages@))[p],
    ensures
        match page_of(pages_view(pages@), id@) {
            Some(p) => r == Some(p as usize) && 0 <= p < pages.len(),
            None => r is None,
        },
{
    let ghost pi = page_ids(pages_view(pages@));
    let mut p = ids.len();
    while p > 0
        invariant
            p <= ids.len() == pages.len() == pi.len(),
            pi == page_ids(pages_view(pages@)),
            forall|q: int| 0 <= q < ids.len() ==> ov(#[trigger] ids@[q]) == pi[q],
            forall|q: int| p <= q < pi.len() ==> !is_id(id@)(#[trigger] pi[q]),
        decreases p,
    {
        p = p - 1;
        let hit = match &ids[p] {
            Some(x) => str_eq(x.as_str(), id),
            None => false,
        };
        proof { assert(ov(ids@[p as int]) == pi[p as int]); }
        if hit {
            proof {
                assert(is_last(pi, is_id(id@), p as int));
                lemma_last_index(pi, is_id(id@), p as int);
            }
            return Some(p);
        }
    }
    proof { assert(!any_of(pi, is_id(id@))); }
    None
}

/// Whether page `p` is the page of the item it belongs to.
fn is_item_page_exec(pages: &Vec<PageFile>, ids: &Vec<Option<String>>, p: usize) -> (r: bool)
    requires
        ids.len() == pages.len(),
        p < pages.len(),
        forall|q: int| 0 <= q < ids.len() ==> ov(#[trigger] ids@[q]) == page_ids(pages_view(pages@))[q],
    ensures
        r == is_item_page(pages_view(pages@), p as int),
{
    proof { assert(ov(ids@[p as int]) == page_ids(pages_view(pages@))[p as int]); }
    match &ids[p] {
        Some(id) => page_of_exec(pages, ids, id.as_str()) == Some(p),
        None => false,
    }
}

/// The item whose page is named `name`.
fn item_named_exec(pages: &Vec<PageFile>, ids: &Vec<Option<String>>, name: &str) -> (r: Option<String>)
    requires
        ids.len() == pages.len(),
        forall|q: int| 0 <= q < ids.len() ==> ov(#[trigger] ids@[q]) == page_ids(pages_view(pages@))[q],
    ensures
        ov(r) == item_named(pages_view(pages@), name@),
{
    let ghost pv = pages_view(pages@);
    let ghost ns = page_numbers(pv);
    let mut p: usize = 0;
    while p < pages.len()
        invariant
            p <= pages.len() == ids.len(),
            pv == pages_view(pages@),
            ns == page_numbers(pv),
            forall|q: int| 0 <= q < ids.len() ==> ov(#[trigger] ids@[q]) == page_ids(pages_view(pages@))[q],
            forall|q: int| 0 <= q < p ==> !named_item_page(pv, name@)(#[trigger] ns[q]),
        decreases pages.len() - p,
    {
        if is_item_page_exec(pages, ids, p) && str_eq(pages[p].name.as_str(), name) {
            proof {
                assert(ns[p as int] == p);
                assert(is_first(ns, named_item_page(pv, name@), p as int));
                lemma_first_index(ns, named_item_page(pv, name@), p as int);
                assert(ov(ids@[p as int]) == page_ids(pv)[p as int]);
            }
            return match &ids[p] {
                Some(x) => Some(x.clone()),
                None => None,
            };
        }
        proof { assert(ns[p as int] == p); }
        p = p + 1;
    }
    proof { crate::seqs::lemma_first_index_none(ns, named_item_page(pv, name@)); }
    None
}

/// The last value recorded for `id`.
fn last_for_exec(v: &Vec<(String, String)>, id: &str) -> (r: Option<String>)
    ensures
        ov(r) == last_for(pairs_view(v@), id@),
{
    let ghost pvw = pairs_view(v@);
    let ghost f = value_for(id@);
    let mut last: Option<String> = None;
    for i in 0..v.len()
        invariant
            pvw == pairs_view(v@),
            f == value_for(id@),
            ov(last) == last_of(pvw.take(i as int).filter_map(f)),
    {
        proof {
            assert(pvw.take(i + 1) =~= pvw.take(i as int).push(pvw[i as int]));
            lemma_filter_map_push(pvw.take(i as int), pvw[i as int], f);
        }
        if str_eq(v[i].0.as_str(), id) {
            last = Some(v[i].1.clone());
        }
    }
    proof { assert(pvw.take(v.len() as int) =~= pvw); }
    last
}

/// Appends an event of a sync and records it in the sync's state.
fn emit_sync(outbox: &mut Vec<OutEvent>, module: &str, etype: &str, cid: &str, payload: Vec<(String, Json)>,
    Ghost(start): Ghost<Seq<OutEvent>>, Ghost(evs): Ghost<Seq<ModuleEvent>>)
    requires
        appended_in(start, old(outbox)@, cid@, evs),
    ensures
        appended_in(start, final(outbox)@, cid@, evs.push((module@, (etype@, crate::payload::pv(payload@))))),
        final(outbox)@.len() == old(outbox)@.len() + 1,
{
    let ghost mid = outbox@;
    emit(outbox, etype, module, cid, payload);
    proof { lemma_appended_in_push(start, mid, outbox@, cid@, evs, (module@, (etype@, crate::payload::pv(payload@)))); }
}

/// The effective status and priority of item `id` as the sync reads them.
fn sync_readings(events: &Vec<Json>, pr: &Progress, id: &str, Ghost(st): Ghost<SyncState>) -> (r: (Option<String>, Option<String>))
    requires
        pairs_view(pr.status_set@) == st.status_set,
        pairs_view(pr.priority_set@) == st.priority_set,
    ensures
        ov(r.0) == sync_status(events@, st, id@),
        ov(r.1) == sync_priority(events@, st, id@),
{
    let (ps, pp) = proposed_values_for(events, id);
    let es = match last_for_exec(&pr.status_set, id) {
        Some(x) => Some(x),
        None => match current_status(events, id) {
            Some(x) => Some(x),
            None => ps,
        },
    };
    let ep = match last_for_exec(&pr.priority_set, id) {
        Some(x) => Some(x),
        None => match current_priority(events, id) {
            Some(x) => Some(x),
            None => pp,
        },
    };
    (es, ep)
}

/// Syncs one item of the record from its page.
fn sync_item(schema: &ProjectSchema, events: &Vec<Json>, pages: &Vec<PageFile>, ids: &Vec<Option<String>>, it: &RecordedItem,
    pr: &mut Progress, cid: &str, outbox: &mut Vec<OutEvent>, Ghost(start): Ghost<Seq<OutEvent>>, Ghost(st): Ghost<SyncState>)
    requires
        ids.len() == pages.len(),
        forall|q: int| 0 <= q < ids.len() ==> ov(#[trigger] ids@[q]) == page_ids(pages_view(pages@))[q],
        holds_state(*old(pr), st, start, old(outbox)@, cid@),
    ensures
        holds_state(*final(pr), item_step(*schema, events@, pages_view(pages@), st, it@), start, final(outbox)@, cid@),
{
    let p = match page_of_exec(pages, ids, it.item_id.as_str()) {
        Some(p) => p,
        None => return,
    };
    let (ls, lp) = parse_page_properties(pages[p].content.as_str());
    proof { assert(pages_view(pages@)[p as int].content == pages@[p as int].content@); }
    let (es, ep) = sync_readings(events, pr, it.item_id.as_str(), Ghost(st));
    let ghost st1 = status_step(*schema, st, it@, ov(ls), ov(es));
    match &ls {
        Some(x) => {
            let same = match &es {
                Some(e) => str_eq(x.as_str(), e.as_str()),
                None => false,
            };
            if !same {
                pr.diff = true;
                if !vocabulary_allows_status(schema, it.item_type.as_str(), x.as_str()) {
                    emit_sync(outbox, "logseq_sync", "ItemSyncSkippedInvalidStatus", cid,
                        payload4("failure_reason", js("invalid_status_for_type"), "item_id", js(it.item_id.as_str()),
                            "item_type", js(it.item_type.as_str()), "rejected_status", js(x.as_str())),
                        Ghost(start), Ghost(st.evs));
                    let _n = outbox.len();
                    pr.skipped = pr.skipped + 1;
                } else {
                    let prev = jo(&es);
                    emit_sync(outbox, "logseq_sync", "ItemStatusUpdated", cid,
                        payload4("item_id", js(it.item_id.as_str()), "item_type", js(it.item_type.as_str()),
                            "new_status", js(x.as_str()), "previous_status", prev),
                        Ghost(start), Ghost(st.evs));
                    let _n = outbox.len();
                    pr.changes = pr.changes + 1;
                    let ghost before = pairs_view(pr.status_set@);
                    pr.status_set.push((it.item_id.clone(), x.clone()));
                    proof { assert(pairs_view(pr.status_set@) =~= before.push((it.item_id@, x@))); }
                }
            }
        },
        None => {},
    }
    assert(holds_state(*pr, st1, start, outbox@, cid@));
    match &lp {
        Some(y) => {
            let same = match &ep {
                Some(e) => str_eq(y.as_str(), e.as_str()),
                None => false,
            };
            if !same {
                pr.diff = true;
                if is_valid_priority(y.as_str()) {
                    let prev = jo(&ep);
                    emit_sync(outbox, "logseq_sync", "ItemPriorityUpdated", cid,
                        payload4("item_id", js(it.item_id.as_str()), "item_type", js(it.item_type.as_str()),
                            "new_priority", js(y.as_str()), "previous_priority", prev),
                        Ghost(start), Ghost(st1.evs));
                    let _n = outbox.len();
                    pr.changes = pr.changes + 1;
                    let ghost before = pairs_view(pr.priority_set@);
                    pr.priority_set.push((it.item_id.clone(), y.clone()));
                    proof { assert(pairs_view(pr.priority_set@) =~= before.push((it.item_id@, y@))); }
                }
            }
        },
        None => {},
    }
}


/// The first task with identifier `tid`.
fn find_task(tasks: &Vec<TaskRecord>, tid: &str) -> (r: Option<usize>)
    ensures
        match first_index(tasks_view(tasks@), has_task_id(tid@)) {
            Some(k) => r == Some(k as usize) && 0 <= k < tasks.len(),
            None => r is None,
        },
{
    let ghost tv = tasks_view(tasks@);
    let mut k: usize = 0;
    while k < tasks.len()
        invariant
            k <= tasks.len(),
            tv == tasks_view(tasks@),
            forall|j: int| 0 <= j < k ==> !has_task_id(tid@)(#[trigger] tv[j]),
        decreases tasks.len() - k,
    {
        if str_eq(tasks[k].task_id.as_str(), tid) {
            proof {
                assert(tv[k as int] == tasks@[k as int]@);
                assert(is_first(tv, has_task_id(tid@), k as int));
                lemma_first_index(tv, has_task_id(tid@), k as int);
            }
            return Some(k);
        }
        proof { assert(tv[k as int] == tasks@[k as int]@); }
        k = k + 1;
    }
    proof { crate::seqs::lemma_first_index_none(tv, has_task_id(tid@)); }
    None
}

/// The type given to a discovered task.
fn discovery_type_exec(schema: &ProjectSchema, tasks: &Vec<TaskRecord>) -> (r: Option<String>)
    ensures
        ov(r) == discovery_type(*schema, tasks_view(tasks@)),
{
    let ghost tv = tasks_view(tasks@);
    let mut k: usize = 0;
    while k < tasks.len()
        invariant
            k <= tasks.len(),
            tv == tasks_view(tasks@),
            forall|j: int| 0 <= j < k ==> !of_block_type(*schema)(#[trigger] tv[j]),
        decreases tasks.len() - k,
    {
        proof { assert(tv[k as int] == tasks@[k as int]@); }
        if is_block_type(schema, tasks[k].item_type.as_str()) {
            proof {
                assert(is_first(tv, of_block_type(*schema), k as int));
                lemma_first_index(tv, of_block_type(*schema), k as int);
            }
            return Some(tasks[k].item_type.clone());
        }
        k = k + 1;
    }
    proof { crate::seqs::lemma_first_index_none(tv, of_block_type(*schema)); }
    if schema.block_types.len() > 0 {
        Some(schema.block_types[0].0.clone())
    } else {
        None
    }
}

/// Syncs one task block of the page of item `parent`.
fn sync_block(schema: &ProjectSchema, tasks: &Vec<TaskRecord>, pages: &Vec<PageFile>, ids: &Vec<Option<String>>,
    parent: &str, b: &TaskBlock, pr: &mut Progress, cid: &str, outbox: &mut Vec<OutEvent>,
    Ghost(start): Ghost<Seq<OutEvent>>, Ghost(st): Ghost<SyncState>)
    requires
        ids.len() == pages.len(),
        forall|q: int| 0 <= q < ids.len() ==> ov(#[trigger] ids@[q]) == page_ids(pages_view(pages@))[q],
        holds_state(*old(pr), st, start, old(outbox)@, cid@),
    ensures
        holds_state(*final(pr), block_step(*schema, tasks_view(tasks@), pages_view(pages@), parent@, st, b@), start, final(outbox)@, cid@),
{
    let owner: Option<String> = match &b.owner_name {
        Some(n) => item_named_exec(pages, ids, n.as_str()),
        None => None,
    };
    let ghost tv = tasks_view(tasks@);
    match find_task(tasks, b.task_id.as_str()) {
        Some(k) => {
            let t = &tasks[k];
            proof { assert(tv[k as int] == t@); }
            let ghost st1 = marker_step(*schema, st, t@, b@);
            if !str_eq(t.current_marker.as_str(), b.marker.as_str()) && marker_to_status(schema, b.marker.as_str()).is_some() {
                emit_sync(outbox, "task_model", "TaskMarkerUpdated", cid,
                    payload3("task_id", js(b.task_id.as_str()), "previous_marker", js(t.current_marker.as_str()),
                        "new_marker", js(b.marker.as_str())),
                    Ghost(start), Ghost(st.evs));
                let _n = outbox.len();
                pr.changes = pr.changes + 1;
                pr.diff = true;
            }
            assert(holds_state(*pr, st1, start, outbox@, cid@));
            let ghost st2 = owner_step(st1, t@, b@, ov(owner));
            match &owner {
                Some(o) => {
                    if !str_eq(t.owner_id.as_str(), o.as_str()) {
                        emit_sync(outbox, "task_model", "TaskOwnerUpdated", cid,
                            payload3("task_id", js(b.task_id.as_str()), "previous_owner_id", js(t.owner_id.as_str()),
                                "new_owner_id", js(o.as_str())),
                            Ghost(start), Ghost(st1.evs));
                        let _n = outbox.len();
                        pr.changes = pr.changes + 1;
                        pr.diff = true;
                    }
                },
                None => {},
            }
            assert(holds_state(*pr, st2, start, outbox@, cid@));
            let same_sched = match (&b.scheduled_date, &t.scheduled_date) {
                (Some(x), Some(y)) => str_eq(x.as_str(), y.as_str()),
                (None, None) => true,
                _ => false,
            };
            let same_dl = match (&b.deadline, &t.deadline) {
                (Some(x), Some(y)) => str_eq(x.as_str(), y.as_str()),
                (None, None) => true,
                _ => false,
            };
            if !same_sched || !same_dl {
                let f = payload5("task_id", js(b.task_id.as_str()), "previous_scheduled_date", jo(&t.scheduled_date),
                        "new_scheduled_date", jo(&b.scheduled_date), "previous_deadline", jo(&t.deadline),
                        "new_deadline", jo(&b.deadline));
                proof {
                    assert(crate::payload::pv(f@) =~= seq![("task_id"@, JView::Str(b.task_id@)),
                        ("previous_scheduled_date"@, jopt_v(t@.scheduled_date)), ("new_scheduled_date"@, jopt_v(b@.scheduled_date)),
                        ("previous_deadline"@, jopt_v(t@.deadline)), ("new_deadline"@, jopt_v(b@.deadline))]);
                }
                emit_sync(outbox, "task_model", "TaskDatesUpdated", cid, f, Ghost(start), Ghost(st2.evs));
                let _n = outbox.len();
                pr.changes = pr.changes + 1;
                pr.diff = true;
            }
            assert(holds_state(*pr, dates_step(st2, t@, b@), start, outbox@, cid@));
            assert(dates_step(st2, t@, b@) == block_step(*schema, tasks_view(tasks@), pages_view(pages@), parent@, st, b@));
        },
        None => {
            if marker_to_status(schema, b.marker.as_str()).is_none() {
                return;
            }
            match discovery_type_exec(schema, tasks) {
                Some(ty) => {
                    let owner_id = match &owner {
                        Some(o) => o.clone(),
                        None => "TBD".to_owned(),
                    };
                    let mut fields = crate::payload::payload4("task_id", js(b.task_id.as_str()), "item_type", js(ty.as_str()),
                        "description", js(b.description.as_str()), "parent_item_id", js(parent));
                    crate::payload::add_field(&mut fields, "initial_marker", js(b.marker.as_str()));
                    crate::payload::add_field(&mut fields, "owner_id", js(owner_id.as_str()));
                    crate::payload::add_field(&mut fields, "scheduled_date", jo(&b.scheduled_date));
                    crate::payload::add_field(&mut fields, "deadline", jo(&b.deadline));
                    let ghost fv = crate::payload::pv(fields@);
                    emit_sync(outbox, "task_model", "TaskAdded", cid, fields, Ghost(start), Ghost(st.evs));
                    let _n = outbox.len();
                    pr.changes = pr.changes + 1;
                    pr.diff = true;
                    proof {
                        let want = seq![("task_id"@, JView::Str(b.task_id@)),
                            ("item_type"@, JView::Str(ty@)), ("description"@, JView::Str(b.description@)),
                            ("parent_item_id"@, JView::Str(parent@)), ("initial_marker"@, JView::Str(b.marker@)),
                            ("owner_id"@, JView::Str(match ov(owner) { Some(o) => o, None => tbd() })),
                            ("scheduled_date"@, jopt_v(ov(b.scheduled_date))), ("deadline"@, jopt_v(ov(b.deadline)))];
                        assert(fv =~= want);
                        let bs = block_step(*schema, tasks_view(tasks@), pages_view(pages@), parent@, st, b@);
                        assert(bs.evs.last().1.1 =~= want);
                        assert(bs.evs =~= st.evs.push(task_ev("TaskAdded"@, want)));
                    }
                },
                None => {},
            }
        },
    }
}

/// The outcome of a sync.
pub enum SyncOutcome {
    /// The project record has no item.
    EmptyRecord,
    /// The graph was synced: the changes applied, the items skipped for a
    /// status the vocabulary does not allow, and whether any property or
    /// task block differed from the record.
    Completed { changes_applied: usize, items_skipped: usize, any_difference: bool },
}

/// Records the request to sync a graph.
pub fn begin_sync(graph_dir: &str, cid: &str, outbox: &mut Vec<OutEvent>)
    ensures
        crate::payload::appended(old(outbox)@, final(outbox)@, sync_module(), cid@,
            seq![("SyncRequested"@, seq![("graph_dir"@, JView::Str(graph_dir@))])]),
{
    let ghost start = outbox@;
    proof { crate::payload::lemma_appended_none(start, sync_module(), cid@); }
    emit(outbox, "SyncRequested", "logseq_sync", cid, payload1("graph_dir", js(graph_dir)));
    proof {
        crate::payload::lemma_appended_push(start, start, outbox@, sync_module(), cid@, Seq::empty(),
            ("SyncRequested"@, seq![("graph_dir"@, JView::Str(graph_dir@))]));
    }
}

/// Records that the sync stopped because the vocabulary could not be
/// loaded.
pub fn sync_schema_invalid(cid: &str, outbox: &mut Vec<OutEvent>)
    ensures
        crate::payload::appended(old(outbox)@, final(outbox)@, sync_module(), cid@,
            seq![("SyncFailedSchemaInvalid"@, seq![("failure_reason"@, JView::Str("schema_load_failed"@))])]),
{
    let ghost start = outbox@;
    proof { crate::payload::lemma_appended_none(start, sync_module(), cid@); }
    emit(outbox, "SyncFailedSchemaInvalid", "logseq_sync", cid, payload1("failure_reason", js("schema_load_failed")));
    proof {
        crate::payload::lemma_appended_push(start, start, outbox@, sync_module(), cid@, Seq::empty(),
            ("SyncFailedSchemaInvalid"@, seq![("failure_reason"@, JView::Str("schema_load_failed"@))]));
    }
}

/// Records that the sync stopped because the graph's pages could not be
/// read.
pub fn sync_graph_inaccessible(graph_dir: &str, cid: &str, outbox: &mut Vec<OutEvent>)
    ensures
        crate::payload::appended(old(outbox)@, final(outbox)@, sync_module(), cid@,
            seq![("SyncFailedGraphNotAccessible"@, seq![("failure_reason"@, JView::Str("graph_not_accessible"@)),
                ("graph_dir"@, JView::Str(graph_dir@))])]),
{
    let ghost start = outbox@;
    proof { crate::payload::lemma_appended_none(start, sync_module(), cid@); }
    emit(outbox, "SyncFailedGraphNotAccessible", "logseq_sync", cid,
        payload2("failure_reason", js("graph_not_accessible"), "graph_dir", js(graph_dir)));
    proof {
        crate::payload::lemma_appended_push(start, start, outbox@, sync_module(), cid@, Seq::empty(),
            ("SyncFailedGraphNotAccessible"@, seq![("failure_reason"@, JView::Str("graph_not_accessible"@)),
                ("graph_dir"@, JView::Str(graph_dir@))]));
    }
}

/// Syncs the Logseq graph whose pages are `pages` (in the order they are
/// walked) into the project record `events`: first the status and priority
/// properties of each item's page, item by item in record order; then the
/// task blocks of every item page. Appends the events of `sync_events`.
pub fn sync_record(schema: &ProjectSchema, events: &Vec<Json>, pages: &Vec<PageFile>, graph_dir: &str, cid: &str,
    outbox: &mut Vec<OutEvent>) -> (r: SyncOutcome)
    requires
        pages_readable(pages_view(pages@)),
    ensures
        appended_in(old(outbox)@, final(outbox)@, cid@, sync_events(*schema, events@, pages_view(pages@), graph_dir@)),
        record_items(events@).len() == 0 <==> r is EmptyRecord,
        r matches SyncOutcome::Completed { changes_applied, items_skipped, any_difference } ==> ({
            let s2 = pages_fold(*schema, task_records(events@), pages_view(pages@), pages@.len() as int,
                items_fold(*schema, events@, pages_view(pages@), record_items(events@), sync_start()));
            changes_applied == s2.changes && items_skipped == s2.skipped && any_difference == s2.diff
        }),
{
    let ghost start = outbox@;
    let ghost pv = pages_view(pages@);
    proof { lemma_appended_in_none(start, cid@); }
    let items = read_all_record_items(events);
    if items.len() == 0 {
        emit_sync(outbox, "logseq_sync", "SyncFailedEmptyRecord", cid,
            payload1("failure_reason", js("empty_project_record")), Ghost(start), Ghost(Seq::empty()));
        proof {
            assert(Seq::<ModuleEvent>::empty().push(sync_ev("SyncFailedEmptyRecord"@, seq![("failure_reason"@, JView::Str("empty_project_record"@))]))
                =~= seq![sync_ev("SyncFailedEmptyRecord"@, seq![("failure_reason"@, JView::Str("empty_project_record"@))])]);
        }
        return SyncOutcome::EmptyRecord;
    }
    let ids = page_ids_of(pages);
    let mut pr = Progress { changes: 0, skipped: 0, diff: false, status_set: Vec::new(), priority_set: Vec::new() };
    let ghost iv = items_view(items@);
    proof {
        assert(pairs_view(pr.status_set@) =~= Seq::<(Seq<char>, Seq<char>)>::empty());
        assert(pairs_view(pr.priority_set@) =~= Seq::<(Seq<char>, Seq<char>)>::empty());
        assert(iv.take(0) =~= Seq::<ItemView>::empty());
    }
    for i in 0..items.len()
        invariant
            iv == items_view(items@),
            iv == record_items(events@),
            pv == pages_view(pages@),
            ids.len() == pages.len(),
            forall|q: int| 0 <= q < ids.len() ==> ov(#[trigger] ids@[q]) == page_ids(pages_view(pages@))[q],
            holds_state(pr, items_fold(*schema, events@, pv, iv.take(i as int), sync_start()), start, outbox@, cid@),
    {
        proof {
            assert(iv.take(i + 1).drop_last() =~= iv.take(i as int));
            assert(iv.take(i + 1).last() == items@[i as int]@);
        }
        let ghost st = items_fold(*schema, events@, pv, iv.take(i as int), sync_start());
        sync_item(schema, events, pages, &ids, &items[i], &mut pr, cid, outbox, Ghost(start), Ghost(st));
    }
    proof { assert(iv.take(items.len() as int) =~= iv); }
    let ghost s1 = items_fold(*schema, events@, pv, iv, sync_start());
    let tasks = read_all_task_records(events);
    let ghost tv = tasks_view(tasks@);
    for p in 0..pages.len()
        invariant
            pv == pages_view(pages@),
            tv == tasks_view(tasks@),
            tv == task_records(events@),
            pages_readable(pv),
            ids.len() == pages.len(),
            forall|q: int| 0 <= q < ids.len() ==> ov(#[trigger] ids@[q]) == page_ids(pages_view(pages@))[q],
            holds_state(pr, pages_fold(*schema, tv, pv, p as int, s1), start, outbox@, cid@),
    {
        let ghost prev = pages_fold(*schema, tv, pv, p as int, s1);
        if is_item_page_exec(pages, &ids, p) {
            let parent = match &ids[p] {
                Some(x) => x.clone(),
                None => String::new(),
            };
            proof {
                assert(ov(ids@[p as int]) == page_ids(pv)[p as int]);
                assert(pv[p as int].content == pages@[p as int].content@);
                assert(blocks_readable(pv[p as int].content));
            }
            let blocks = parse_task_block_lines(pages[p].content.as_str());
            let ghost bv = blocks_view(blocks@);
            let ghost par = page_ids(pv)[p as int].unwrap();
            proof { assert(bv.take(0) =~= Seq::<BlockView>::empty()); }
            for j in 0..blocks.len()
                invariant
                    bv == blocks_view(blocks@),
                    par == parent@,
                    pv == pages_view(pages@),
                    tv == tasks_view(tasks@),
                    ids.len() == pages.len(),
                    forall|q: int| 0 <= q < ids.len() ==> ov(#[trigger] ids@[q]) == page_ids(pages_view(pages@))[q],
                    holds_state(pr, blocks_fold(*schema, tv, pv, par, bv.take(j as int), prev), start, outbox@, cid@),
            {
                proof {
                    assert(bv.take(j + 1).drop_last() =~= bv.take(j as int));
                    assert(bv.take(j + 1).last() == blocks@[j as int]@);
                }
                let ghost st = blocks_fold(*schema, tv, pv, par, bv.take(j as int), prev);
                sync_block(schema, &tasks, pages, &ids, parent.as_str(), &blocks[j], &mut pr, cid, outbox, Ghost(start), Ghost(st));
            }
            proof { assert(bv.take(blocks.len() as int) =~= bv); }
        }
    }
    let ghost s2 = pages_fold(*schema, tv, pv, pages.len() as int, s1);
    if !pr.diff {
        emit_sync(outbox, "logseq_sync", "SyncCompletedNoChanges", cid,
            payload2("graph_dir", js(graph_dir), "items_checked", Json::Num(items.len() as u64)), Ghost(start), Ghost(s2.evs));
    } else {
        emit_sync(outbox, "logseq_sync", "SyncCompleted", cid,
            payload3("graph_dir", js(graph_dir), "changes_applied", Json::Num(pr.changes as u64),
                "items_skipped", Json::Num(pr.skipped as u64)), Ghost(start), Ghost(s2.evs));
    }
    SyncOutcome::Completed { changes_applied: pr.changes, items_skipped: pr.skipped, any_difference: pr.diff }
}

// ─── Laws ─────────────────────────────────────────────────────────────────────

/// An item event of a sync agrees with the vocabulary: a recorded status
/// update names a type and a new status the vocabulary allows for it, a
/// skipped status names a type and a rejected status it does not allow, and
/// a recorded priority update names a priority that is high, medium or low.
pub open spec fn item_event_checked(schema: ProjectSchema, e: ModuleEvent) -> bool {
    &&& e.1.0 == "ItemPriorityUpdated"@ ==> match vstr_of(e.1.1, "new_priority"@) {
        Some(y) => valid_priority(y),
        None => false,
    }
    &&& e.1.0 == "ItemStatusUpdated"@ ==> match (vstr_of(e.1.1, "item_type"@), vstr_of(e.1.1, "new_status"@)) {
        (Some(t), Some(x)) => status_allowed(schema, t, x),
        _ => false,
    }
    &&& e.1.0 == "ItemSyncSkippedInvalidStatus"@ ==> match (vstr_of(e.1.1, "item_type"@), vstr_of(e.1.1, "rejected_status"@)) {
        (Some(t), Some(x)) => !status_allowed(schema, t, x),
        _ => false,
    }
}

/// The event is a change a sync applies to the record.
pub open spec fn is_applied_change(e: ModuleEvent) -> bool {
    ||| e.1.0 == "ItemStatusUpdated"@
    ||| e.1.0 == "ItemPriorityUpdated"@
    ||| e.1.0 == "TaskMarkerUpdated"@
    ||| e.1.0 == "TaskOwnerUpdated"@
    ||| e.1.0 == "TaskDatesUpdated"@
    ||| e.1.0 == "TaskAdded"@
}

/// The number of changes among `evs`.
pub open spec fn count_changes(evs: Seq<ModuleEvent>) -> nat {
    evs.filter(|e: ModuleEvent| is_applied_change(e)).len()
}

/// The number of skipped statuses among `evs`.
pub open spec fn count_skips(evs: Seq<ModuleEvent>) -> nat {
    evs.filter(|e: ModuleEvent| e.1.0 == "ItemSyncSkippedInvalidStatus"@).len()
}

/// What a sync keeps while it runs: its status events agree with the
/// vocabulary, and its counts are those of its events.
spec fn sync_inv(schema: ProjectSchema, st: SyncState) -> bool {
    &&& forall|k: int| 0 <= k < st.evs.len() ==> item_event_checked(schema, #[trigger] st.evs[k])
    &&& st.changes == count_changes(st.evs)
    &&& st.skipped == count_skips(st.evs)
}

proof fn lemma_event_names()
    ensures
        "ItemStatusUpdated"@ != "ItemPriorityUpdated"@,
        "ItemStatusUpdated"@ != "ItemSyncSkippedInvalidStatus"@,
        "ItemPriorityUpdated"@ != "ItemSyncSkippedInvalidStatus"@,
        "TaskMarkerUpdated"@ != "ItemStatusUpdated"@,
        "TaskOwnerUpdated"@ != "ItemStatusUpdated"@,
        "TaskDatesUpdated"@ != "ItemStatusUpdated"@,
        "TaskAdded"@ != "ItemStatusUpdated"@,
        "TaskMarkerUpdated"@ != "ItemSyncSkippedInvalidStatus"@,
        "TaskOwnerUpdated"@ != "ItemSyncSkippedInvalidStatus"@,
        "TaskDatesUpdated"@ != "ItemSyncSkippedInvalidStatus"@,
        "TaskAdded"@ != "ItemSyncSkippedInvalidStatus"@,
        "SyncCompleted"@ != "ItemStatusUpdated"@,
        "SyncCompleted"@ != "ItemSyncSkippedInvalidStatus"@,
        "SyncCompletedNoChanges"@ != "ItemStatusUpdated"@,
        "SyncCompletedNoChanges"@ != "ItemSyncSkippedInvalidStatus"@,
        "SyncCompletedNoChanges"@ != "SyncCompleted"@,
        "SyncFailedEmptyRecord"@ != "ItemStatusUpdated"@,
        "SyncFailedEmptyRecord"@ != "ItemSyncSkippedInvalidStatus"@,
        "SyncFailedEmptyRecord"@ != "SyncCompleted"@,
        "TaskMarkerUpdated"@ != "ItemPriorityUpdated"@,
        "TaskOwnerUpdated"@ != "ItemPriorityUpdated"@,
        "TaskDatesUpdated"@ != "ItemPriorityUpdated"@,
        "TaskAdded"@ != "ItemPriorityUpdated"@,
        "SyncCompleted"@ != "ItemPriorityUpdated"@,
        "SyncCompletedNoChanges"@ != "ItemPriorityUpdated"@,
        "SyncFailedEmptyRecord"@ != "ItemPriorityUpdated"@,
        "item_id"@ != "item_type"@,
        "new_status"@ != "item_id"@,
        "new_status"@ != "item_type"@,
        "new_priority"@ != "item_id"@,
        "new_priority"@ != "item_type"@,
        "rejected_status"@ != "item_id"@,
        "rejected_status"@ != "item_type"@,
        "rejected_status"@ != "failure_reason"@,
        "item_id"@ != "failure_reason"@,
        "item_type"@ != "failure_reason"@,
        "graph_dir"@ != "changes_applied"@,
        "graph_dir"@ != "items_skipped"@,
        "changes_applied"@ != "items_skipped"@,
{
    reveal_strlit("ItemStatusUpdated");
    reveal_strlit("ItemPriorityUpdated");
    reveal_strlit("ItemSyncSkippedInvalidStatus");
    reveal_strlit("TaskMarkerUpdated");
    reveal_strlit("TaskOwnerUpdated");
    reveal_strlit("TaskDatesUpdated");
    reveal_strlit("TaskAdded");
    reveal_strlit("SyncCompleted");
    reveal_strlit("SyncCompletedNoChanges");
    reveal_strlit("SyncFailedEmptyRecord");
    reveal_strlit("item_id");
    reveal_strlit("item_type");
    reveal_strlit("new_status");
    reveal_strlit("new_priority");
    reveal_strlit("rejected_status");
    reveal_strlit("failure_reason");
    reveal_strlit("graph_dir");
    reveal_strlit("changes_applied");
    reveal_strlit("items_skipped");
    assert("ItemStatusUpdated"@[4] != "ItemPriorityUpdated"@[4]);
    assert("ItemStatusUpdated"@[5] != "ItemSyncSkippedInvalidStatus"@[5]);
    assert("ItemPriorityUpdated"@[4] != "ItemSyncSkippedInvalidStatus"@[4]);
    assert("TaskMarkerUpdated"@[0] != "ItemStatusUpdated"@[0]);
    assert("TaskOwnerUpdated"@[0] != "ItemStatusUpdated"@[0]);
    assert("TaskDatesUpdated"@[0] != "ItemStatusUpdated"@[0]);
    assert("TaskAdded"@[0] != "ItemStatusUpdated"@[0]);
    assert("TaskMarkerUpdated"@[0] != "ItemSyncSkippedInvalidStatus"@[0]);
    assert("TaskOwnerUpdated"@[0] != "ItemSyncSkippedInvalidStatus"@[0]);
    assert("TaskDatesUpdated"@[0] != "ItemSyncSkippedInvalidStatus"@[0]);
    assert("TaskAdded"@[0] != "ItemSyncSkippedInvalidStatus"@[0]);
    assert("SyncCompleted"@[0] != "ItemStatusUpdated"@[0]);
    assert("SyncCompleted"@[0] != "ItemSyncSkippedInvalidStatus"@[0]);
    assert("SyncCompletedNoChanges"@[0] != "ItemStatusUpdated"@[0]);
    assert("SyncCompletedNoChanges"@[0] != "ItemSyncSkippedInvalidStatus"@[0]);
    assert("SyncCompletedNoChanges"@.len() != "SyncCompleted"@.len());
    assert("SyncFailedEmptyRecord"@[0] != "ItemStatusUpdated"@[0]);
    assert("SyncFailedEmptyRecord"@[0] != "ItemSyncSkippedInvalidStatus"@[0]);
    assert("SyncFailedEmptyRecord"@[4] != "SyncCompleted"@[4]);
    assert("TaskMarkerUpdated"@[0] != "ItemPriorityUpdated"@[0]);
    assert("TaskOwnerUpdated"@[0] != "ItemPriorityUpdated"@[0]);
    assert("TaskDatesUpdated"@[0] != "ItemPriorityUpdated"@[0]);
    assert("TaskAdded"@[0] != "ItemPriorityUpdated"@[0]);
    assert("SyncCompleted"@[0] != "ItemPriorityUpdated"@[0]);
    assert("SyncCompletedNoChanges"@[0] != "ItemPriorityUpdated"@[0]);
    assert("SyncFailedEmptyRecord"@[0] != "ItemPriorityUpdated"@[0]);
    assert("item_id"@[5] != "item_type"@[5]);
    assert("new_status"@[0] != "item_id"@[0]);
    assert("new_status"@[0] != "item_type"@[0]);
    assert("new_priority"@[0] != "item_id"@[0]);
    assert("new_priority"@[0] != "item_type"@[0]);
    assert("rejected_status"@[0] != "item_id"@[0]);
    assert("rejected_status"@[0] != "item_type"@[0]);
    assert("rejected_status"@[0] != "failure_reason"@[0]);
    assert("item_id"@[0] != "failure_reason"@[0]);
    assert("item_type"@[0] != "failure_reason"@[0]);
    assert("graph_dir"@[0] != "changes_applied"@[0]);
    assert("graph_dir"@[0] != "items_skipped"@[0]);
    assert("changes_applied"@[0] != "items_skipped"@[0]);
}

/// Appending an event keeps the invariant when the counts follow its kind.
proof fn lemma_inv_push(schema: ProjectSchema, st: SyncState, s2: SyncState, e: ModuleEvent)
    requires
        sync_inv(schema, st),
        item_event_checked(schema, e),
        s2.evs == st.evs.push(e),
        s2.changes == st.changes + (if is_applied_change(e) { 1nat } else { 0nat }),
        s2.skipped == st.skipped + (if e.1.0 == "ItemSyncSkippedInvalidStatus"@ { 1nat } else { 0nat }),
    ensures
        sync_inv(schema, s2),
{
    broadcast use Seq::lemma_filter_push;
    assert forall|k: int| 0 <= k < s2.evs.len() implies item_event_checked(schema, #[trigger] s2.evs[k]) by {
        if k < st.evs.len() { assert(s2.evs[k] == st.evs[k]); }
    }
}

/// A task event is a change and no status event.
proof fn lemma_task_event(schema: ProjectSchema, st: SyncState, s2: SyncState, etype: Seq<char>, fields: Seq<(Seq<char>, JView)>)
    requires
        sync_inv(schema, st),
        etype == "TaskMarkerUpdated"@ || etype == "TaskOwnerUpdated"@ || etype == "TaskDatesUpdated"@ || etype == "TaskAdded"@,
        s2.evs == st.evs.push(task_ev(etype, fields)),
        s2.changes == st.changes + 1,
        s2.skipped == st.skipped,
    ensures
        sync_inv(schema, s2),
{
    lemma_event_names();
    lemma_inv_push(schema, st, s2, task_ev(etype, fields));
}

proof fn lemma_item_step_inv(schema: ProjectSchema, events: Seq<Json>, pages: Seq<PageView>, st: SyncState, it: ItemView)
    requires
        sync_inv(schema, st),
    ensures
        sync_inv(schema, item_step(schema, events, pages, st, it)),
{
    lemma_event_names();
    match page_of(pages, it.item_id) {
        None => {},
        Some(p) => {
            let props = page_properties(pages[p].content);
            let es = sync_status(events, st, it.item_id);
            let ep = sync_priority(events, st, it.item_id);
            let s1 = status_step(schema, st, it, props.0, es);
            if let Some(x) = props.0 {
                if Some(x) != es {
                    let e = s1.evs.last();
                    assert(s1.evs == st.evs.push(e));
                    lemma_vstr_at(e.1.1, 1);
                    lemma_vstr_at(e.1.1, 2);
                    let allowed = status_allowed(schema, it.item_type, x);
                    if allowed == false {
                        lemma_vstr_at(e.1.1, 3);
                    }
                    lemma_inv_push(schema, st, s1, e);
                }
            }
            if let Some(y) = props.1 {
                if Some(y) != ep && valid_priority(y) {
                    let s3 = priority_step(s1, it, props.1, ep);
                    lemma_vstr_at(s3.evs.last().1.1, 2);
                    lemma_inv_push(schema, s1, s3, s3.evs.last());
                }
            }
        },
    }
}

proof fn lemma_items_fold_inv(schema: ProjectSchema, events: Seq<Json>, pages: Seq<PageView>, items: Seq<ItemView>, st: SyncState)
    requires
        sync_inv(schema, st),
    ensures
        sync_inv(schema, items_fold(schema, events, pages, items, st)),
    decreases items.len(),
{
    if items.len() > 0 {
        lemma_items_fold_inv(schema, events, pages, items.drop_last(), st);
        lemma_item_step_inv(schema, events, pages, items_fold(schema, events, pages, items.drop_last(), st), items.last());
    }
}

proof fn lemma_block_step_inv(schema: ProjectSchema, tasks: Seq<TaskView>, pages: Seq<PageView>, parent: Seq<char>, st: SyncState, b: BlockView)
    requires
        sync_inv(schema, st),
    ensures
        sync_inv(schema, block_step(schema, tasks, pages, parent, st, b)),
{
    let owner = match b.owner_name { Some(n) => item_named(pages, n), None => None };
    match first_index(tasks, has_task_id(b.task_id)) {
        Some(k) => {
            let t = tasks[k];
            let s1 = marker_step(schema, st, t, b);
            if t.current_marker != b.marker && marker_status(schema, b.marker) is Some {
                lemma_task_event(schema, st, s1, "TaskMarkerUpdated"@, s1.evs.last().1.1);
            }
            let s2 = owner_step(s1, t, b, owner);
            if let Some(o) = owner {
                if t.owner_id != o {
                    lemma_task_event(schema, s1, s2, "TaskOwnerUpdated"@, s2.evs.last().1.1);
                }
            }
            let s3 = dates_step(s2, t, b);
            if b.scheduled_date != t.scheduled_date || b.deadline != t.deadline {
                lemma_task_event(schema, s2, s3, "TaskDatesUpdated"@, s3.evs.last().1.1);
            }
        },
        None => {
            let s1 = block_step(schema, tasks, pages, parent, st, b);
            if marker_status(schema, b.marker) is Some && discovery_type(schema, tasks) is Some {
                lemma_task_event(schema, st, s1, "TaskAdded"@, s1.evs.last().1.1);
            }
        },
    }
}

proof fn lemma_blocks_fold_inv(schema: ProjectSchema, tasks: Seq<TaskView>, pages: Seq<PageView>, parent: Seq<char>, blocks: Seq<BlockView>, st: SyncState)
    requires
        sync_inv(schema, st),
    ensures
        sync_inv(schema, blocks_fold(schema, tasks, pages, parent, blocks, st)),
    decreases blocks.len(),
{
    if blocks.len() > 0 {
        lemma_blocks_fold_inv(schema, tasks, pages, parent, blocks.drop_last(), st);
        lemma_block_step_inv(schema, tasks, pages, parent, blocks_fold(schema, tasks, pages, parent, blocks.drop_last(), st), blocks.last());
    }
}

proof fn lemma_pages_fold_inv(schema: ProjectSchema, tasks: Seq<TaskView>, pages: Seq<PageView>, n: int, st: SyncState)
    requires
        sync_inv(schema, st),
    ensures
        sync_inv(schema, pages_fold(schema, tasks, pages, n, st)),
    decreases n,
{
    if n > 0 {
        lemma_pages_fold_inv(schema, tasks, pages, n - 1, st);
        if is_item_page(pages, n - 1) {
            lemma_blocks_fold_inv(schema, tasks, pages, page_ids(pages)[n - 1].unwrap(), task_blocks(pages[n - 1].content),
                pages_fold(schema, tasks, pages, n - 1, st));
        }
    }
}

/// A sync records only statuses the vocabulary allows: every
/// `ItemStatusUpdated` it decides carries a new status allowed for the
/// item's type, and every `ItemSyncSkippedInvalidStatus` a rejected status
/// the type does not allow; every `ItemPriorityUpdated` it decides carries
/// a priority that is high, medium or low.
pub proof fn law_sync_status_updates_allowed(schema: ProjectSchema, events: Seq<Json>, pages: Seq<PageView>, graph_dir: Seq<char>)
    ensures
        forall|k: int| 0 <= k < sync_events(schema, events, pages, graph_dir).len()
            ==> item_event_checked(schema, #[trigger] sync_events(schema, events, pages, graph_dir)[k]),
{
    lemma_sync_counts(schema, events, pages, graph_dir);
}

proof fn lemma_sync_counts(schema: ProjectSchema, events: Seq<Json>, pages: Seq<PageView>, graph_dir: Seq<char>)
    ensures
        forall|k: int| 0 <= k < sync_events(schema, events, pages, graph_dir).len()
            ==> item_event_checked(schema, #[trigger] sync_events(schema, events, pages, graph_dir)[k]),
        record_items(events).len() > 0 ==> ({
            let s2 = pages_fold(schema, task_records(events), pages, pages.len() as int,
                items_fold(schema, events, pages, record_items(events), sync_start()));
            &&& sync_inv(schema, s2)
            &&& sync_events(schema, events, pages, graph_dir).drop_last() == s2.evs
        }),
{
    lemma_event_names();
    let evs = sync_events(schema, events, pages, graph_dir);
    let items = record_items(events);
    if items.len() == 0 {
        assert(evs.len() == 1);
        assert(item_event_checked(schema, evs[0]));
    } else {
        let st0 = sync_start();
        assert(count_changes(st0.evs) == 0) by { reveal(Seq::filter); }
        assert(count_skips(st0.evs) == 0) by { reveal(Seq::filter); }
        let s1 = items_fold(schema, events, pages, items, st0);
        lemma_items_fold_inv(schema, events, pages, items, st0);
        let s2 = pages_fold(schema, task_records(events), pages, pages.len() as int, s1);
        lemma_pages_fold_inv(schema, task_records(events), pages, pages.len() as int, s1);
        assert(evs.drop_last() =~= s2.evs);
        assert forall|k: int| 0 <= k < evs.len() implies item_event_checked(schema, #[trigger] evs[k]) by {
            if k < s2.evs.len() { assert(evs[k] == s2.evs[k]); }
        }
    }
}

/// A sync counts what it did: the changes and skipped items it reports are
/// the numbers of change events (status, priority, marker, owner, dates and
/// discovered tasks) and of `ItemSyncSkippedInvalidStatus` events it
/// records, so a skipped status is counted among the skipped items and
/// never among the changes.
pub proof fn law_sync_counts_its_events(schema: ProjectSchema, events: Seq<Json>, pages: Seq<PageView>, graph_dir: Seq<char>)
    requires
        record_items(events).len() > 0,
    ensures
        ({
            let s2 = pages_fold(schema, task_records(events), pages, pages.len() as int,
                items_fold(schema, events, pages, record_items(events), sync_start()));
            let evs = sync_events(schema, events, pages, graph_dir);
            &&& s2.changes == count_changes(evs.drop_last())
            &&& s2.skipped == count_skips(evs.drop_last())
            &&& evs.last().1.0 == "SyncCompleted"@ ==>
                vget(evs.last().1.1, "changes_applied"@) == JView::Num(count_changes(evs.drop_last()) as u64)
                && vget(evs.last().1.1, "items_skipped"@) == JView::Num(count_skips(evs.drop_last()) as u64)
        }),
{
    lemma_sync_counts(schema, events, pages, graph_dir);
    lemma_event_names();
    let evs = sync_events(schema, events, pages, graph_dir);
    let f = evs.last().1.1;
    if evs.last().1.0 == "SyncCompleted"@ {
        lemma_vget_at(f, 1);
        lemma_vget_at(f, 2);
    }
}

/// A page status that differs from the item's effective status and that the
/// vocabulary does not allow for the item's type is skipped: syncing the
/// item appends `ItemSyncSkippedInvalidStatus` naming the item, its type and
/// the rejected status, counts one more skipped item, records no status and
/// appends no `ItemStatusUpdated`.
pub proof fn law_disallowed_page_status_skipped(schema: ProjectSchema, events: Seq<Json>, pages: Seq<PageView>, st: SyncState,
    it: ItemView, p: int, x: Seq<char>)
    requires
        page_of(pages, it.item_id) == Some(p),
        page_properties(pages[p].content).0 == Some(x),
        Some(x) != sync_status(events, st, it.item_id),
        !status_allowed(schema, it.item_type, x),
    ensures
        ({
            let s2 = item_step(schema, events, pages, st, it);
            &&& st.evs.len() < s2.evs.len() <= st.evs.len() + 2
            &&& s2.evs.take(st.evs.len() as int) == st.evs
            &&& s2.evs[st.evs.len() as int] == sync_ev("ItemSyncSkippedInvalidStatus"@, seq![
                    ("failure_reason"@, JView::Str("invalid_status_for_type"@)), ("item_id"@, JView::Str(it.item_id)),
                    ("item_type"@, JView::Str(it.item_type)), ("rejected_status"@, JView::Str(x))])
            &&& forall|k: int| st.evs.len() <= k < s2.evs.len() ==> (#[trigger] s2.evs[k]).1.0 != "ItemStatusUpdated"@
            &&& s2.skipped == st.skipped + 1
            &&& s2.status_set == st.status_set
        }),
{
    lemma_event_names();
    let s2 = item_step(schema, events, pages, st, it);
    assert(s2.evs.take(st.evs.len() as int) =~= st.evs);
}

} // verus!
