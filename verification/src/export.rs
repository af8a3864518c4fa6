//! Exporting the project record as Logseq pages: which items become pages
//! and which are nested as task blocks, the page slugs, and the text of
//! each page with its properties, relationship sections and tasks.
use vstd::prelude::*;
use crate::text::{str_eq, views, strictly_sorted, sorted_distinct};
use crate::seqs::{last_index, is_last, lemma_last_index, any_of, is_first, first_index, lemma_first_index};
use crate::payload::{Json, JView, OutEvent, EventSpec, ModuleEvent, appended_in, lemma_appended_in_none, lemma_appended_in_push, emit,
    js, jlist, pstr_of, payload1, payload2, payload4};
use crate::record::{ItemView, RecordedItem, items_view, items_of_sessions, sessions_of, read_session_items, event_is, is_event,
    or_empty, own, own_or_empty, ov, explicit_status, explicit_priority, current_status, current_priority, proposed_values,
    proposed_values_for, lemma_filter_map_push};
use crate::links::{LinkView, LinkRecord, links_view, differs_from, named_link};
use crate::schema::{ProjectSchema, resolved_type, resolve_type, block_type_named, is_block_type, relation_label,
    logseq_forward_label, logseq_inverse_label, opt_str_view};
use crate::slug::{logseq_tag, type_to_logseq_tag, desc_slug, description_to_slug, numbered_slugs, number_slugs};
use crate::payload::jpstr;
use crate::payload::{ev_is, logs};
use crate::status::{status_module, status_updated_fields, law_status_read_after_write, priority_updated_fields,
    law_priority_read_after_write};

verus! {

// ─── What the export reads of the record ──────────────────────────────────────

/// A session item as the export holds it: identifier, type and
/// description only.
pub open spec fn export_session_item(it: ItemView) -> ItemView {
    ItemView { parent_item_id: None, current_marker: None, uncertain: false, uncertainty_reason: None, session_id: Seq::empty(), ..it }
}

/// The task a `TaskAdded` event of the task model adds, when it names the
/// task and its type, with its parent and initial marker.
pub open spec fn export_task(e: Json) -> Option<ItemView> {
    if event_is(e, "task_model"@, "TaskAdded"@) {
        match (pstr_of(e, "task_id"@), pstr_of(e, "item_type"@)) {
            (Some(t), Some(ty)) => Some(ItemView {
                item_id: t,
                item_type: ty,
                description: or_empty(pstr_of(e, "description"@)),
                uncertain: false,
                uncertainty_reason: None,
                session_id: Seq::empty(),
                parent_item_id: pstr_of(e, "parent_item_id"@),
                current_marker: pstr_of(e, "initial_marker"@),
            }),
            _ => None,
        }
    } else {
        None
    }
}

/// The marker a `TaskMarkerUpdated` event about task `tid` sets (none when
/// it gives no marker).
pub open spec fn marker_change(tid: Seq<char>) -> spec_fn(Json) -> Option<Option<Seq<char>>> {
    |e: Json| if event_is(e, "task_model"@, "TaskMarkerUpdated"@) && pstr_of(e, "task_id"@) == Some(tid) {
        Some(pstr_of(e, "new_marker"@))
    } else {
        None
    }
}

/// The tasks the log adds, in order.
pub open spec fn added_export_tasks(events: Seq<Json>) -> Seq<ItemView> {
    events.filter_map(|e: Json| export_task(e))
}

/// Task `k` with its current marker; marker changes go to the first task
/// with their identifier.
pub open spec fn export_task_at(events: Seq<Json>, k: int) -> ItemView {
    let added = added_export_tasks(events);
    let t = added[k];
    if is_first(added, crate::record::has_id(t.item_id), k) {
        ItemView { current_marker: crate::sync::last_or(events.filter_map(marker_change(t.item_id)), t.current_marker), ..t }
    } else {
        t
    }
}

/// The items the export reads: the items of every incorporated session,
/// then the task instances with their current markers.
pub open spec fn export_items(events: Seq<Json>) -> Seq<ItemView> {
    items_of_sessions(events, sessions_of(events)).map_values(|it: ItemView| export_session_item(it))
        + Seq::new(added_export_tasks(events).len(), |k: int| export_task_at(events, k))
}

/// The active links as the export counts them: an `ItemLinked` event of
/// item links adds the link it names (absent parts read as empty), an
/// `ItemUnlinked` event removes it.
pub open spec fn export_link_step(links: Seq<LinkView>, e: Json) -> Seq<LinkView> {
    if event_is(e, "item_links"@, "ItemLinked"@) {
        links.push(named_link(e))
    } else if event_is(e, "item_links"@, "ItemUnlinked"@) {
        links.filter(differs_from(named_link(e)))
    } else {
        links
    }
}

/// The active links of a log, as the export counts them.
pub open spec fn export_links(events: Seq<Json>) -> Seq<LinkView>
    decreases events.len(),
{
    if events.len() == 0 {
        Seq::empty()
    } else {
        export_link_step(export_links(events.drop_last()), events.last())
    }
}

/// The effective status of an item: the last recorded, else the proposed.
pub open spec fn export_status(events: Seq<Json>, id: Seq<char>) -> Option<Seq<char>> {
    match explicit_status(events, id) {
        Some(x) => Some(x),
        None => proposed_values(events, id).0,
    }
}

/// The effective priority of an item: the last recorded, else the proposed.
pub open spec fn export_priority(events: Seq<Json>, id: Seq<char>) -> Option<Seq<char>> {
    match explicit_priority(events, id) {
        Some(x) => Some(x),
        None => proposed_values(events, id).1,
    }
}

/// The deadline recorded for an item: that of the first task record with
/// its identifier, with the date updates of the log applied; none when no
/// task record has that identifier.
pub open spec fn export_deadline(events: Seq<Json>, id: Seq<char>) -> Option<Seq<char>> {
    let recs = crate::sync::task_records(events);
    match first_index(recs, crate::sync::has_task_id(id)) {
        Some(k) => recs[k].deadline,
        None => None,
    }
}

/// The deadline of the first task record with identifier `id`.
fn recorded_deadline(recs: &Vec<crate::sync::TaskRecord>, id: &str) -> (r: Option<String>)
    ensures
        ov(r) == match first_index(crate::sync::tasks_view(recs@), crate::sync::has_task_id(id@)) {
            Some(k) => crate::sync::tasks_view(recs@)[k].deadline,
            None => None,
        },
{
    let ghost tv = crate::sync::tasks_view(recs@);
    let ghost p = crate::sync::has_task_id(id@);
    let mut i: usize = 0;
    while i < recs.len()
        invariant
            i <= recs.len(),
            tv == crate::sync::tasks_view(recs@),
            p == crate::sync::has_task_id(id@),
            forall|j: int| 0 <= j < i ==> !p(#[trigger] tv[j]),
        decreases recs.len() - i,
    {
        proof { assert(tv[i as int].task_id == recs@[i as int].task_id@); }
        if str_eq(recs[i].task_id.as_str(), id) {
            proof {
                assert(is_first(tv, p, i as int));
                lemma_first_index(tv, p, i as int);
                assert(tv[i as int].deadline == ov(recs@[i as int].deadline));
            }
            return match &recs[i].deadline {
                Some(d) => Some(d.clone()),
                None => None,
            };
        }
        i = i + 1;
    }
    proof { crate::seqs::lemma_first_index_none(tv, p); }
    None
}

/// The recorded deadline of an item.
pub fn current_deadline(events: &Vec<Json>, item_id: &str) -> (r: Option<String>)
    ensures
        ov(r) == export_deadline(events@, item_id@),
{
    let recs = crate::sync::read_all_task_records(events);
    recorded_deadline(&recs, item_id)
}

/// A copy of a recorded item, as the export holds it.
fn export_copy(it: &RecordedItem) -> (r: RecordedItem)
    ensures
        r@ == export_session_item(it@),
{
    RecordedItem {
        item_id: it.item_id.clone(),
        item_type: it.item_type.clone(),
        description: it.description.clone(),
        uncertain: false,
        uncertainty_reason: None,
        session_id: String::new(),
        parent_item_id: None,
        current_marker: None,
    }
}

/// Whether an earlier item of the list has identifier `id`.
fn earlier_item_has_id(items: &Vec<RecordedItem>, k: usize, id: &str) -> (r: bool)
    requires
        k <= items.len(),
    ensures
        r == exists|j: int| 0 <= j < k && #[trigger] items_view(items@)[j].item_id == id@,
{
    let mut j: usize = 0;
    while j < k
        invariant
            j <= k <= items.len(),
            forall|m: int| 0 <= m < j ==> #[trigger] items_view(items@)[m].item_id != id@,
        decreases k - j,
    {
        if str_eq(items[j].item_id.as_str(), id) {
            proof { assert(items_view(items@)[j as int].item_id == id@); }
            return true;
        }
        j = j + 1;
    }
    false
}

/// The marker of the last marker change about task `tid`, if any.
fn last_marker_change(events: &Vec<Json>, tid: &str) -> (r: Option<Option<String>>)
    ensures
        match r {
            Some(x) => events@.filter_map(marker_change(tid@)).len() > 0 && ov(x) == events@.filter_map(marker_change(tid@)).last(),
            None => events@.filter_map(marker_change(tid@)).len() == 0,
        },
{
    let ghost f = marker_change(tid@);
    let mut last: Option<Option<String>> = None;
    for i in 0..events.len()
        invariant
            f == marker_change(tid@),
            match last {
                Some(x) => events@.take(i as int).filter_map(f).len() > 0 && ov(x) == events@.take(i as int).filter_map(f).last(),
                None => events@.take(i as int).filter_map(f).len() == 0,
            },
    {
        proof {
            assert(events@.take(i + 1) =~= events@.take(i as int).push(events@[i as int]));
            lemma_filter_map_push(events@.take(i as int), events@[i as int], f);
        }
        let e = &events[i];
        if is_event(e, "task_model", "TaskMarkerUpdated") {
            match jpstr(e, "task_id") {
                Some(t) => {
                    if str_eq(t, tid) {
                        last = Some(own(jpstr(e, "new_marker")));
                    }
                },
                None => {},
            }
        }
    }
    proof { assert(events@.take(events.len() as int) =~= events@); }
    last
}

/// Reads the items the export works on.
pub fn read_export_items(events: &Vec<Json>) -> (r: Vec<RecordedItem>)
    ensures
        items_view(r@) == export_items(events@),
{
    let sess = read_session_items(events);
    let mut all: Vec<RecordedItem> = Vec::new();
    for i in 0..sess.len()
        invariant
            all.len() == i,
            forall|k: int| 0 <= k < i ==> (#[trigger] all@[k])@ == export_session_item(sess@[k]@),
    {
        all.push(export_copy(&sess[i]));
    }
    let ghost part1 = items_view(all@);
    proof {
        assert(part1 =~= items_view(sess@).map_values(|it: ItemView| export_session_item(it)));
    }
    let mut added: Vec<RecordedItem> = Vec::new();
    for i in 0..events.len()
        invariant
            items_view(added@) == added_export_tasks(events@.take(i as int)),
    {
        proof {
            assert(events@.take(i + 1) =~= events@.take(i as int).push(events@[i as int]));
            lemma_filter_map_push(events@.take(i as int), events@[i as int], |e: Json| export_task(e));
        }
        let e = &events[i];
        let ghost before = items_view(added@);
        if is_event(e, "task_model", "TaskAdded") {
            match (jpstr(e, "task_id"), jpstr(e, "item_type")) {
                (Some(t), Some(ty)) => {
                    added.push(RecordedItem {
                        item_id: t.to_owned(),
                        item_type: ty.to_owned(),
                        description: own_or_empty(jpstr(e, "description")),
                        uncertain: false,
                        uncertainty_reason: None,
                        session_id: String::new(),
                        parent_item_id: own(jpstr(e, "parent_item_id")),
                        current_marker: own(jpstr(e, "initial_marker")),
                    });
                    proof { assert(items_view(added@) =~= before.push(export_task(events@[i as int]).unwrap())); }
                },
                _ => {},
            }
        }
    }
    proof { assert(events@.take(events.len() as int) =~= events@); }
    let ghost av = items_view(added@);
    let mut tasks: Vec<RecordedItem> = Vec::new();
    for k in 0..added.len()
        invariant
            av == items_view(added@),
            av == added_export_tasks(events@),
            tasks.len() == k,
            forall|m: int| 0 <= m < k ==> #[trigger] items_view(tasks@)[m] == export_task_at(events@, m),
    {
        let t = &added[k];
        let ghost before = items_view(tasks@);
        proof { assert(av[k as int] == t@); }
        let marker = if earlier_item_has_id(&added, k, t.item_id.as_str()) {
            proof {
                let j = choose|j: int| 0 <= j < k && #[trigger] items_view(added@)[j].item_id == t.item_id@;
                assert(crate::record::has_id(t.item_id@)(av[j]));
                assert(!is_first(av, crate::record::has_id(av[k as int].item_id), k as int));
            }
            t.current_marker.clone()
        } else {
            proof { assert(is_first(av, crate::record::has_id(av[k as int].item_id), k as int)); }
            match last_marker_change(events, t.item_id.as_str()) {
                Some(m) => m,
                None => t.current_marker.clone(),
            }
        };
        tasks.push(RecordedItem {
            item_id: t.item_id.clone(),
            item_type: t.item_type.clone(),
            description: t.description.clone(),
            uncertain: t.uncertain,
            uncertainty_reason: t.uncertainty_reason.clone(),
            session_id: t.session_id.clone(),
            parent_item_id: t.parent_item_id.clone(),
            current_marker: marker,
        });
        proof {
            assert(items_view(tasks@) =~= before.push(tasks@[k as int]@));
            assert(items_view(tasks@)[k as int] == export_task_at(events@, k as int));
        }
    }
    let ghost part2 = items_view(tasks@);
    proof { assert(part2 =~= Seq::new(av.len(), |k: int| export_task_at(events@, k))); }
    all.append(&mut tasks);
    proof { assert(items_view(all@) =~= part1 + part2); }
    all
}

/// The active links of the log, as the export counts them.
pub fn build_active_links(events: &Vec<Json>) -> (r: Vec<LinkRecord>)
    ensures
        links_view(r@) == export_links(events@),
{
    let mut links: Vec<LinkRecord> = Vec::new();
    for i in 0..events.len()
        invariant
            links_view(links@) == export_links(events@.take(i as int)),
    {
        proof {
            assert(events@.take(i + 1).drop_last() =~= events@.take(i as int));
            assert(events@.take(i + 1).last() == events@[i as int]);
        }
        let e = &events[i];
        let ghost before = links_view(links@);
        if is_event(e, "item_links", "ItemLinked") {
            links.push(LinkRecord {
                source_id: own_or_empty(jpstr(e, "source_id")),
                link_type: own_or_empty(jpstr(e, "link_type")),
                target_id: own_or_empty(jpstr(e, "target_id")),
            });
            proof { assert(links_view(links@) =~= before.push(named_link(events@[i as int]))); }
        } else if is_event(e, "item_links", "ItemUnlinked") {
            let s = own_or_empty(jpstr(e, "source_id"));
            let lt = own_or_empty(jpstr(e, "link_type"));
            let t = own_or_empty(jpstr(e, "target_id"));
            links = crate::links::keep_other_links(&links, s.as_str(), lt.as_str(), t.as_str());
        }
    }
    proof { assert(events@.take(events.len() as int) =~= events@); }
    links
}


// ─── Pages ────────────────────────────────────────────────────────────────────

/// The text is `id`.
pub open spec fn same_text(id: Seq<char>) -> spec_fn(Seq<char>) -> bool {
    |x: Seq<char>| x == id
}

/// The slug a map from page items to slugs gives item `id`: that of the
/// last page item with that identifier.
pub open spec fn slug_for(ids: Seq<Seq<char>>, slugs: Seq<Seq<char>>, id: Seq<char>) -> Option<Seq<char>> {
    match last_index(ids, same_text(id)) {
        Some(k) => Some(slugs[k]),
        None => None,
    }
}

/// A page reference to item `id`: its slug, else its identifier.
pub open spec fn page_ref_text(ids: Seq<Seq<char>>, slugs: Seq<Seq<char>>, id: Seq<char>) -> Seq<char> {
    "[["@ + match slug_for(ids, slugs, id) { Some(s) => s, None => id } + "]]"@
}

/// The relationship entry a link gives the page of item `item_id`: the
/// forward label and a reference to the target for a link leaving it, the
/// inverse label and a reference to the source for a link reaching it.
pub open spec fn rel_entry(schema: ProjectSchema, item_id: Seq<char>, ids: Seq<Seq<char>>, slugs: Seq<Seq<char>>) -> spec_fn(LinkView) -> Option<(Seq<char>, Seq<char>)> {
    |l: LinkView| if l.0 == item_id {
        Some((relation_label(schema, l.1, true), page_ref_text(ids, slugs, l.2)))
    } else if l.2 == item_id {
        Some((relation_label(schema, l.1, false), page_ref_text(ids, slugs, l.0)))
    } else {
        None
    }
}

/// The reference lines of the entries with label `label`, in order.
pub open spec fn refs_text(entries: Seq<(Seq<char>, Seq<char>)>, label: Seq<char>) -> Seq<char>
    decreases entries.len(),
{
    if entries.len() == 0 {
        Seq::empty()
    } else {
        refs_text(entries.drop_last(), label) + if entries.last().0 == label { "    - "@ + entries.last().1 + "\n"@ } else { Seq::empty() }
    }
}

/// The sections of the labels `labels`, in that order.
pub open spec fn sections_text(entries: Seq<(Seq<char>, Seq<char>)>, labels: Seq<Seq<char>>) -> Seq<char>
    decreases labels.len(),
{
    if labels.len() == 0 {
        Seq::empty()
    } else {
        sections_text(entries, labels.drop_last()) + "\n- "@ + labels.last() + "\n"@ + refs_text(entries, labels.last())
    }
}

/// The labels of entries.
pub open spec fn entry_labels(entries: Seq<(Seq<char>, Seq<char>)>) -> Set<Seq<char>> {
    entries.map_values(|e: (Seq<char>, Seq<char>)| e.0).to_set()
}

/// The relationship sections of a page, with the labels in the order
/// `labels`: none without entries.
pub open spec fn sections_of(entries: Seq<(Seq<char>, Seq<char>)>, labels: Seq<Seq<char>>) -> Seq<char> {
    if entries.len() == 0 { Seq::empty() } else { sections_text(entries, labels) }
}

/// The item's relationship sections are `text`: one section per label of
/// its links, in increasing label order, listing the references of that
/// label in link order.
pub open spec fn sections_are(schema: ProjectSchema, item_id: Seq<char>, links: Seq<LinkView>, ids: Seq<Seq<char>>, slugs: Seq<Seq<char>>, text: Seq<char>) -> bool {
    let entries = links.filter_map(rel_entry(schema, item_id, ids, slugs));
    exists|labels: Seq<Seq<char>>| strictly_sorted(labels) && labels.to_set() == entry_labels(entries) && text == sections_of(entries, labels)
}

/// The position of the last page item with identifier `id`.
fn slug_index(ids: &Vec<String>, id: &str) -> (r: Option<usize>)
    ensures
        match last_index(views(ids@), same_text(id@)) {
            Some(k) => r == Some(k as usize) && 0 <= k < ids.len(),
            None => r is None,
        },
{
    let ghost iv = views(ids@);
    let ghost p = same_text(id@);
    let mut k = ids.len();
    while k > 0
        invariant
            k <= ids.len(),
            iv == views(ids@),
            p == same_text(id@),
            forall|j: int| k <= j < iv.len() ==> !p(#[trigger] iv[j]),
        decreases k,
    {
        k = k - 1;
        if str_eq(ids[k].as_str(), id) {
            proof {
                assert(is_last(iv, p, k as int));
                lemma_last_index(iv, p, k as int);
            }
            return Some(k);
        }
    }
    proof { assert(!any_of(iv, p)); }
    None
}

/// A page reference to item `id`.
fn page_ref_exec(ids: &Vec<String>, slugs: &Vec<String>, id: &str) -> (r: String)
    requires
        ids.len() == slugs.len(),
    ensures
        r@ == page_ref_text(views(ids@), views(slugs@), id@),
{
    let mut r = "[[".to_owned();
    match slug_index(ids, id) {
        Some(k) => { r.append(slugs[k].as_str()); },
        None => { r.append(id); },
    }
    r.append("]]");
    r
}

/// Renders the relationship sections of the page of item `item_id`.
pub fn render_relationship_sections(item_id: &str, links: &Vec<LinkRecord>, ids: &Vec<String>, slugs: &Vec<String>, schema: &ProjectSchema) -> (r: String)
    requires
        ids.len() == slugs.len(),
    ensures
        sections_are(*schema, item_id@, links_view(links@), views(ids@), views(slugs@), r@),
{
    let ghost lv = links_view(links@);
    let ghost f = rel_entry(*schema, item_id@, views(ids@), views(slugs@));
    let mut labels: Vec<String> = Vec::new();
    let mut refs: Vec<String> = Vec::new();
    for i in 0..links.len()
        invariant
            lv == links_view(links@),
            f == rel_entry(*schema, item_id@, views(ids@), views(slugs@)),
            ids.len() == slugs.len(),
            labels.len() == refs.len(),
            lv.take(i as int).filter_map(f) == Seq::new(labels.len() as nat, |k: int| (labels@[k]@, refs@[k]@)),
    {
        proof {
            assert(lv.take(i + 1) =~= lv.take(i as int).push(lv[i as int]));
            lemma_filter_map_push(lv.take(i as int), lv[i as int], f);
            assert(lv[i as int] == links@[i as int]@);
        }
        let ghost before = lv.take(i as int).filter_map(f);
        let l = &links[i];
        if str_eq(l.source_id.as_str(), item_id) {
            labels.push(logseq_forward_label(schema, l.link_type.as_str()).to_owned());
            refs.push(page_ref_exec(ids, slugs, l.target_id.as_str()));
            proof { assert(Seq::new(labels.len() as nat, |k: int| (labels@[k]@, refs@[k]@)) =~= before.push(f(lv[i as int]).unwrap())); }
        } else if str_eq(l.target_id.as_str(), item_id) {
            labels.push(logseq_inverse_label(schema, l.link_type.as_str()).to_owned());
            refs.push(page_ref_exec(ids, slugs, l.source_id.as_str()));
            proof { assert(Seq::new(labels.len() as nat, |k: int| (labels@[k]@, refs@[k]@)) =~= before.push(f(lv[i as int]).unwrap())); }
        }
    }
    proof { assert(lv.take(links.len() as int) =~= lv); }
    let ghost entries = Seq::new(labels.len() as nat, |k: int| (labels@[k]@, refs@[k]@));
    if labels.len() == 0 {
        proof {
            let e = Seq::<Seq<char>>::empty();
            assert(entries.len() == 0);
            assert(entry_labels(entries) =~= e.to_set());
            assert(strictly_sorted(e));
        }
        return String::new();
    }
    let order = sorted_distinct(&labels);
    proof {
        assert(views(labels@) =~= entries.map_values(|e: (Seq<char>, Seq<char>)| e.0));
    }
    let ghost ov_ = views(order@);
    let mut out = String::new();
    proof { assert(ov_.take(0) =~= Seq::<Seq<char>>::empty()); }
    for j in 0..order.len()
        invariant
            ov_ == views(order@),
            labels.len() == refs.len(),
            entries == Seq::new(labels.len() as nat, |k: int| (labels@[k]@, refs@[k]@)),
            out@ == sections_text(entries, ov_.take(j as int)),
    {
        proof {
            assert(ov_.take(j + 1).drop_last() =~= ov_.take(j as int));
            assert(ov_.take(j + 1).last() == order@[j as int]@);
        }
        let label = order[j].as_str();
        out.append("\n- ");
        out.append(label);
        out.append("\n");
        let ghost head = out@;
        proof { assert(entries.take(0) =~= Seq::<(Seq<char>, Seq<char>)>::empty()); }
        for k in 0..labels.len()
            invariant
                labels.len() == refs.len(),
                entries == Seq::new(labels.len() as nat, |m: int| (labels@[m]@, refs@[m]@)),
                out@ == head + refs_text(entries.take(k as int), label@),
        {
            proof {
                assert(entries.take(k + 1).drop_last() =~= entries.take(k as int));
                assert(entries.take(k + 1).last() == (labels@[k as int]@, refs@[k as int]@));
            }
            if str_eq(labels[k].as_str(), label) {
                out.append("    - ");
                out.append(refs[k].as_str());
                out.append("\n");
            }
            proof { assert(out@ =~= head + refs_text(entries.take(k + 1), label@)); }
        }
        proof { assert(entries.take(labels.len() as int) =~= entries); }
        proof { assert(out@ =~= sections_text(entries, ov_.take(j + 1))); }
    }
    proof { assert(ov_.take(order.len() as int) =~= ov_); }
    out
}

/// The text of an item's page: its type tag, status, priority and deadline
/// properties (`not-set`, `not-set` and `TBD` when absent), its tags, its
/// identifier, and its relationship sections.
pub open spec fn page_head(tag: Seq<char>, status: Option<Seq<char>>, priority: Option<Seq<char>>, deadline: Option<Seq<char>>, id: Seq<char>) -> Seq<char> {
    "type:: "@ + tag + "\nstatus:: "@ + match status { Some(x) => x, None => "not-set"@ }
        + "\npriority:: "@ + match priority { Some(x) => x, None => "not-set"@ }
        + "\ndeadline:: "@ + match deadline { Some(x) => x, None => "TBD"@ }
        + "\ntags:: "@ + tag + "\n\n- item-id: "@ + id + "\n"@
}

/// Renders the page of an item.
pub fn render_page(item: &RecordedItem, canonical_type: &str, status: Option<&str>, priority: Option<&str>, deadline: Option<&str>,
    links: &Vec<LinkRecord>, ids: &Vec<String>, slugs: &Vec<String>, schema: &ProjectSchema) -> (r: String)
    requires
        ids.len() == slugs.len(),
    ensures
        exists|rel: Seq<char>| sections_are(*schema, item.item_id@, links_view(links@), views(ids@), views(slugs@), rel)
            && r@ == page_head(logseq_tag(canonical_type@), opt_str_view(status), opt_str_view(priority), opt_str_view(deadline), item.item_id@) + rel,
{
    let tag = type_to_logseq_tag(canonical_type);
    let rel = render_relationship_sections(item.item_id.as_str(), links, ids, slugs, schema);
    let mut out = "type:: ".to_owned();
    out.append(tag.as_str());
    out.append("\nstatus:: ");
    match status { Some(x) => out.append(x), None => out.append("not-set") }
    out.append("\npriority:: ");
    match priority { Some(x) => out.append(x), None => out.append("not-set") }
    out.append("\ndeadline:: ");
    match deadline { Some(x) => out.append(x), None => out.append("TBD") }
    out.append("\ntags:: ");
    out.append(tag.as_str());
    out.append("\n\n- item-id: ");
    out.append(item.item_id.as_str());
    out.append("\n");
    out.append(rel.as_str());
    proof {
        assert(out@ =~= page_head(logseq_tag(canonical_type@), opt_str_view(status), opt_str_view(priority), opt_str_view(deadline), item.item_id@) + rel@);
    }
    out
}


// ─── The export ───────────────────────────────────────────────────────────────

/// How the export treats an item.
pub ghost enum ItemClass {
    /// Its type is unknown to the vocabulary: left out.
    Unknown,
    /// Its type is a block type: a task nested in its parent's page.
    Task,
    /// A page of the given canonical type.
    Page { canonical: Seq<char> },
}

/// How the export treats an item.
pub open spec fn class_of(schema: ProjectSchema, it: ItemView) -> ItemClass {
    match resolved_type(schema, it.item_type) {
        None => ItemClass::Unknown,
        Some(c) => if block_type_named(schema, c) { ItemClass::Task } else { ItemClass::Page { canonical: c } },
    }
}

/// The page item with its canonical type, for a page item.
pub open spec fn page_entry(schema: ProjectSchema) -> spec_fn(ItemView) -> Option<(ItemView, Seq<char>)> {
    |it: ItemView| match class_of(schema, it) {
        ItemClass::Page { canonical } => Some((it, canonical)),
        _ => None,
    }
}

/// The task item, for a task item.
pub open spec fn task_entry(schema: ProjectSchema) -> spec_fn(ItemView) -> Option<ItemView> {
    |it: ItemView| if class_of(schema, it) is Task { Some(it) } else { None }
}

/// The event recorded for an item of unknown type.
pub open spec fn unknown_entry(schema: ProjectSchema) -> spec_fn(ItemView) -> Option<ModuleEvent> {
    |it: ItemView| if class_of(schema, it) is Unknown {
        Some((crate::schema::schema_module(), ("SchemaTypeUnknown"@, seq![("item_id"@, JView::Str(it.item_id)),
            ("unknown_type"@, JView::Str(it.item_type))])))
    } else {
        None
    }
}

/// The page items of the export, with their canonical types, in record order.
pub open spec fn page_items(schema: ProjectSchema, events: Seq<Json>) -> Seq<(ItemView, Seq<char>)> {
    export_items(events).filter_map(page_entry(schema))
}

/// The task items of the export, in record order.
pub open spec fn task_items(schema: ProjectSchema, events: Seq<Json>) -> Seq<ItemView> {
    export_items(events).filter_map(task_entry(schema))
}

/// The identifiers of the page items.
pub open spec fn page_ids(pages: Seq<(ItemView, Seq<char>)>) -> Seq<Seq<char>> {
    pages.map_values(|p: (ItemView, Seq<char>)| p.0.item_id)
}

/// The slugs of the page items, numbered where their description slugs
/// repeat.
pub open spec fn page_slugs(pages: Seq<(ItemView, Seq<char>)>) -> Seq<Seq<char>> {
    numbered_slugs(base_slugs(pages))
}

/// The description slugs of the page items.
pub open spec fn base_slugs(pages: Seq<(ItemView, Seq<char>)>) -> Seq<Seq<char>> {
    pages.map_values(|p: (ItemView, Seq<char>)| desc_slug(p.0.description))
}

/// The task line of a task: its marker (`TODO` when it has none), its
/// identifier and its description.
pub open spec fn task_line(t: ItemView) -> Seq<char> {
    "    - "@ + match t.current_marker { Some(m) => m, None => "TODO"@ } + " task-id: "@ + t.item_id + " "@ + t.description + "\n"@
}

/// The task lines of the children of item `id`, in order.
pub open spec fn child_lines(tasks: Seq<ItemView>, id: Seq<char>) -> Seq<char>
    decreases tasks.len(),
{
    if tasks.len() == 0 {
        Seq::empty()
    } else {
        child_lines(tasks.drop_last(), id) + if tasks.last().parent_item_id == Some(id) { task_line(tasks.last()) } else { Seq::empty() }
    }
}

/// The task is a child of item `id`.
pub open spec fn child_of(id: Seq<char>) -> spec_fn(ItemView) -> bool {
    |t: ItemView| t.parent_item_id == Some(id)
}

/// The tasks section of the page of item `id`: none without children.
pub open spec fn tasks_section(tasks: Seq<ItemView>, id: Seq<char>) -> Seq<char> {
    if any_of(tasks, child_of(id)) { "\n- Tasks\n"@ + child_lines(tasks, id) } else { Seq::empty() }
}

/// The text of the page of page item `k`.
pub open spec fn page_text_is(schema: ProjectSchema, events: Seq<Json>, k: int, text: Seq<char>) -> bool {
    let pages = page_items(schema, events);
    let it = pages[k].0;
    exists|rel: Seq<char>| sections_are(schema, it.item_id, export_links(events), page_ids(pages), page_slugs(pages), rel)
        && text == page_head(logseq_tag(pages[k].1), export_status(events, it.item_id), export_priority(events, it.item_id),
            export_deadline(events, it.item_id), it.item_id) + rel + tasks_section(task_items(schema, events), it.item_id)
}

/// The pages an export writes and what it counts.
pub struct ExportPlan {
    /// Each page's slug and text, in record order.
    pub pages: Vec<(String, String)>,
    /// The number of page items and task items.
    pub item_count: usize,
    /// The number of task items.
    pub task_count: usize,
    /// The number of items left out for an unknown type.
    pub excluded: usize,
}

/// The module that records exports.
pub open spec fn export_module() -> Seq<char> {
    "logseq_export"@
}

/// Records the request to export the record.
pub fn begin_export(output_dir: &str, cid: &str, outbox: &mut Vec<OutEvent>)
    ensures
        crate::payload::appended(old(outbox)@, final(outbox)@, export_module(), cid@,
            seq![("ExportRequested"@, seq![("output_dir"@, JView::Str(output_dir@))])]),
{
    let ghost start = outbox@;
    proof { crate::payload::lemma_appended_none(start, export_module(), cid@); }
    emit(outbox, "ExportRequested", "logseq_export", cid, payload1("output_dir", js(output_dir)));
    proof {
        crate::payload::lemma_appended_push(start, start, outbox@, export_module(), cid@, Seq::empty(),
            ("ExportRequested"@, seq![("output_dir"@, JView::Str(output_dir@))]));
    }
}

/// Records that the record holds no item to export.
pub fn export_empty_record(cid: &str, outbox: &mut Vec<OutEvent>)
    ensures
        crate::payload::appended(old(outbox)@, final(outbox)@, export_module(), cid@,
            seq![("ExportFailedEmptyRecord"@, seq![("failure_reason"@, JView::Str("empty_project_record"@))])]),
{
    let ghost start = outbox@;
    proof { crate::payload::lemma_appended_none(start, export_module(), cid@); }
    emit(outbox, "ExportFailedEmptyRecord", "logseq_export", cid, payload1("failure_reason", js("empty_project_record")));
    proof {
        crate::payload::lemma_appended_push(start, start, outbox@, export_module(), cid@, Seq::empty(),
            ("ExportFailedEmptyRecord"@, seq![("failure_reason"@, JView::Str("empty_project_record"@))]));
    }
}

/// Records that the output directory cannot be written.
pub fn export_output_unavailable(output_dir: &str, cid: &str, outbox: &mut Vec<OutEvent>)
    ensures
        crate::payload::appended(old(outbox)@, final(outbox)@, export_module(), cid@,
            seq![("ExportFailedOutputUnavailable"@, seq![("failure_reason"@, JView::Str("output_directory_not_accessible"@)),
                ("output_dir"@, JView::Str(output_dir@))])]),
{
    let ghost start = outbox@;
    proof { crate::payload::lemma_appended_none(start, export_module(), cid@); }
    emit(outbox, "ExportFailedOutputUnavailable", "logseq_export", cid,
        payload2("failure_reason", js("output_directory_not_accessible"), "output_dir", js(output_dir)));
    proof {
        crate::payload::lemma_appended_push(start, start, outbox@, export_module(), cid@, Seq::empty(),
            ("ExportFailedOutputUnavailable"@, seq![("failure_reason"@, JView::Str("output_directory_not_accessible"@)),
                ("output_dir"@, JView::Str(output_dir@))]));
    }
}

/// Records that the record could not be read.
pub fn export_record_unreadable(detail: &str, cid: &str, outbox: &mut Vec<OutEvent>)
    ensures
        crate::payload::appended(old(outbox)@, final(outbox)@, export_module(), cid@,
            seq![("ExportFailedRecordUnreadable"@, seq![("failure_reason"@, JView::Str("project_record_unreadable"@)),
                ("error_detail"@, JView::Str(detail@))])]),
{
    let ghost start = outbox@;
    proof { crate::payload::lemma_appended_none(start, export_module(), cid@); }
    emit(outbox, "ExportFailedRecordUnreadable", "logseq_export", cid,
        payload2("failure_reason", js("project_record_unreadable"), "error_detail", js(detail)));
    proof {
        crate::payload::lemma_appended_push(start, start, outbox@, export_module(), cid@, Seq::empty(),
            ("ExportFailedRecordUnreadable"@, seq![("failure_reason"@, JView::Str("project_record_unreadable"@)),
                ("error_detail"@, JView::Str(detail@))]));
    }
}

/// Records the completed export: the output directory, the number of items
/// exported, the pages written and the items left out.
pub fn finish_export(output_dir: &str, item_count: usize, pages_written: &Vec<String>, excluded: usize, cid: &str, outbox: &mut Vec<OutEvent>)
    ensures
        crate::payload::appended(old(outbox)@, final(outbox)@, export_module(), cid@,
            seq![("ExportCompleted"@, seq![("output_dir"@, JView::Str(output_dir@)), ("item_count"@, JView::Num(item_count as u64)),
                ("pages_written"@, crate::ontology::str_list(views(pages_written@))),
                ("items_excluded_type_unknown"@, JView::Num(excluded as u64))])]),
{
    let ghost start = outbox@;
    proof { crate::payload::lemma_appended_none(start, export_module(), cid@); }
    emit(outbox, "ExportCompleted", "logseq_export", cid,
        payload4("output_dir", js(output_dir), "item_count", Json::Num(item_count as u64), "pages_written", jlist(pages_written),
            "items_excluded_type_unknown", Json::Num(excluded as u64)));
    proof {
        crate::payload::lemma_appended_push(start, start, outbox@, export_module(), cid@, Seq::empty(),
            ("ExportCompleted"@, seq![("output_dir"@, JView::Str(output_dir@)), ("item_count"@, JView::Num(item_count as u64)),
                ("pages_written"@, crate::ontology::str_list(views(pages_written@))),
                ("items_excluded_type_unknown"@, JView::Num(excluded as u64))]));
    }
}

/// The tasks section of the page of item `id`.
fn tasks_section_exec(tasks: &Vec<RecordedItem>, id: &str) -> (r: String)
    ensures
        r@ == tasks_section(items_view(tasks@), id@),
{
    let ghost tv = items_view(tasks@);
    let mut lines = String::new();
    let mut any = false;
    proof { assert(tv.take(0) =~= Seq::<ItemView>::empty()); }
    for i in 0..tasks.len()
        invariant
            tv == items_view(tasks@),
            lines@ == child_lines(tv.take(i as int), id@),
            any == any_of(tv.take(i as int), child_of(id@)),
    {
        proof {
            assert(tv.take(i + 1).drop_last() =~= tv.take(i as int));
            assert(tv.take(i + 1).last() == tasks@[i as int]@);
        }
        let t = &tasks[i];
        let child = match &t.parent_item_id {
            Some(p) => str_eq(p.as_str(), id),
            None => false,
        };
        let ghost before = lines@;
        if child {
            lines.append("    - ");
            match &t.current_marker {
                Some(m) => lines.append(m.as_str()),
                None => lines.append("TODO"),
            }
            lines.append(" task-id: ");
            lines.append(t.item_id.as_str());
            lines.append(" ");
            lines.append(t.description.as_str());
            lines.append("\n");
            proof { assert(lines@ =~= before + task_line(t@)); }
        }
        proof {
            let s1 = tv.take(i + 1);
            if child {
                assert(child_of(id@)(s1[i as int]));
            } else {
                assert(!child_of(id@)(s1[i as int]));
                if any_of(s1, child_of(id@)) {
                    let w = choose|w: int| 0 <= w < s1.len() && #[trigger] child_of(id@)(s1[w]);
                    assert(child_of(id@)(tv.take(i as int)[w]));
                }
            }
            if any_of(tv.take(i as int), child_of(id@)) {
                let w = choose|w: int| 0 <= w < i && #[trigger] child_of(id@)(tv.take(i as int)[w]);
                assert(child_of(id@)(s1[w]));
            }
        }
        any = any || child;
    }
    proof { assert(tv.take(tasks.len() as int) =~= tv); }
    if any {
        let mut r = "\n- Tasks\n".to_owned();
        r.append(lines.as_str());
        r
    } else {
        String::new()
    }
}

/// Plans the export of the record: records `SchemaTypeUnknown` for each
/// item whose type the vocabulary does not know (left out), and gives the
/// slug and text of the page of every page item, in record order, with the
/// counts.
pub fn plan_export(schema: &ProjectSchema, events: &Vec<Json>, cid: &str, outbox: &mut Vec<OutEvent>) -> (r: ExportPlan)
    ensures
        appended_in(old(outbox)@, final(outbox)@, cid@, export_items(events@).filter_map(unknown_entry(*schema))),
        r.excluded == export_items(events@).filter_map(unknown_entry(*schema)).len(),
        r.task_count == task_items(*schema, events@).len(),
        r.item_count == page_items(*schema, events@).len() + task_items(*schema, events@).len(),
        r.pages.len() == page_items(*schema, events@).len(),
        forall|k: int| 0 <= k < r.pages.len() ==> {
            let pages = page_items(*schema, events@);
            &&& Some((#[trigger] r.pages@[k]).0@) == slug_for(page_ids(pages), page_slugs(pages), page_ids(pages)[k])
            &&& page_text_is(*schema, events@, k, r.pages@[k].1@)
        },
{
    let ghost start = outbox@;
    proof { lemma_appended_in_none(start, cid@); }
    let items = read_export_items(events);
    let ghost iv = items_view(items@);
    let ghost fp = page_entry(*schema);
    let ghost ft = task_entry(*schema);
    let ghost fu = unknown_entry(*schema);
    let mut page_idx: Vec<usize> = Vec::new();
    let mut canon: Vec<String> = Vec::new();
    let mut tasks: Vec<RecordedItem> = Vec::new();
    let mut excluded: usize = 0;
    for i in 0..items.len()
        invariant
            iv == items_view(items@),
            iv == export_items(events@),
            fp == page_entry(*schema),
            ft == task_entry(*schema),
            fu == unknown_entry(*schema),
            page_idx.len() == canon.len(),
            iv.take(i as int).filter_map(fp) == Seq::new(page_idx.len() as nat, |k: int| (iv[page_idx@[k] as int], canon@[k]@)),
            forall|k: int| 0 <= k < page_idx.len() ==> #[trigger] page_idx@[k] < i,
            page_idx.len() + tasks.len() <= i,
            items_view(tasks@) == iv.take(i as int).filter_map(ft),
            appended_in(start, outbox@, cid@, iv.take(i as int).filter_map(fu)),
            excluded == iv.take(i as int).filter_map(fu).len(),
    {
        proof {
            assert(iv.take(i + 1) =~= iv.take(i as int).push(iv[i as int]));
            lemma_filter_map_push(iv.take(i as int), iv[i as int], fp);
            lemma_filter_map_push(iv.take(i as int), iv[i as int], ft);
            lemma_filter_map_push(iv.take(i as int), iv[i as int], fu);
            assert(iv[i as int] == items@[i as int]@);
        }
        let it = &items[i];
        let ghost pbefore = iv.take(i as int).filter_map(fp);
        let ghost tbefore = items_view(tasks@);
        match resolve_type(schema, it.item_type.as_str()) {
            None => {
                let ghost mid = outbox@;
                crate::schema::emit_type_unknown(outbox, it.item_id.as_str(), it.item_type.as_str(), cid);
                proof {
                    lemma_appended_in_push(start, mid, outbox@, cid@, iv.take(i as int).filter_map(fu), fu(iv[i as int]).unwrap());
                }
                let _n = outbox.len();
                excluded = excluded + 1;
            },
            Some(c) => {
                if is_block_type(schema, c) {
                    tasks.push(crate::links::copy_item(it));
                    proof { assert(items_view(tasks@) =~= tbefore.push(it@)); }
                } else {
                    page_idx.push(i);
                    canon.push(c.to_owned());
                    proof {
                        assert(Seq::new(page_idx.len() as nat, |k: int| (iv[page_idx@[k] as int], canon@[k]@))
                            =~= pbefore.push(fp(iv[i as int]).unwrap()));
                    }
                }
            },
        }
    }
    proof { assert(iv.take(items.len() as int) =~= iv); }
    let ghost pages = page_items(*schema, events@);
    let ghost tv = items_view(tasks@);
    let mut bases: Vec<String> = Vec::new();
    let mut ids: Vec<String> = Vec::new();
    for k in 0..page_idx.len()
        invariant
            iv == items_view(items@),
            pages == iv.filter_map(fp),
            page_idx.len() == canon.len(),
            pages == Seq::new(page_idx.len() as nat, |m: int| (iv[page_idx@[m] as int], canon@[m]@)),
            forall|m: int| 0 <= m < page_idx.len() ==> #[trigger] page_idx@[m] < items.len(),
            pages == page_items(*schema, events@),
            page_idx.len() <= items.len(),
            bases.len() == k,
            ids.len() == k,
            forall|m: int| 0 <= m < k ==> (#[trigger] bases@[m])@ == desc_slug(pages[m].0.description),
            forall|m: int| 0 <= m < k ==> (#[trigger] ids@[m])@ == pages[m].0.item_id,
    {
        let it = &items[page_idx[k]];
        proof {
            assert(pages[k as int].0 == it@);
        }
        bases.push(description_to_slug(it.description.as_str()));
        ids.push(it.item_id.clone());
    }
    proof {
        assert(views(bases@) =~= base_slugs(pages));
        assert(views(ids@) =~= page_ids(pages));
    }
    let slugs = number_slugs(&bases);
    assert(views(slugs@) == numbered_slugs(views(bases@)));
    assert(views(slugs@) == page_slugs(pages));
    let links = build_active_links(events);
    let recs = crate::sync::read_all_task_records(events);
    let mut out: Vec<(String, String)> = Vec::new();
    for k in 0..page_idx.len()
        invariant
            crate::sync::tasks_view(recs@) == crate::sync::task_records(events@),
            iv == items_view(items@),
            pages == page_items(*schema, events@),
            tv == items_view(tasks@),
            tv == task_items(*schema, events@),
            page_idx.len() == canon.len(),
            pages == Seq::new(page_idx.len() as nat, |m: int| (iv[page_idx@[m] as int], canon@[m]@)),
            forall|m: int| 0 <= m < page_idx.len() ==> #[trigger] page_idx@[m] < items.len(),
            page_idx.len() + tasks.len() <= items.len(),
            views(ids@) == page_ids(pages),
            views(slugs@) == page_slugs(pages),
            ids.len() == slugs.len(),
            links_view(links@) == export_links(events@),
            out.len() == k,
            forall|m: int| 0 <= m < k ==> {
                &&& Some((#[trigger] out@[m]).0@) == slug_for(page_ids(pages), page_slugs(pages), page_ids(pages)[m])
                &&& page_text_is(*schema, events@, m, out@[m].1@)
            },
    {
        let it = &items[page_idx[k]];
        proof { assert(pages[k as int].0 == it@); assert(page_ids(pages)[k as int] == it.item_id@); }
        let slug = match slug_index(&ids, it.item_id.as_str()) {
            Some(j) => slugs[j].clone(),
            None => it.item_id.clone(),
        };
        proof {
            if last_index(views(ids@), same_text(it.item_id@)) is None {
                assert(views(ids@)[k as int] == it.item_id@);
                assert(same_text(it.item_id@)(views(ids@)[k as int]));
                assert(any_of(views(ids@), same_text(it.item_id@)));
            }
        }
        let (ps, pp) = proposed_values_for(events, it.item_id.as_str());
        let status = match current_status(events, it.item_id.as_str()) { Some(x) => Some(x), None => ps };
        let priority = match current_priority(events, it.item_id.as_str()) { Some(x) => Some(x), None => pp };
        let st_ref: Option<&str> = match &status { Some(x) => Some(x.as_str()), None => None };
        let pr_ref: Option<&str> = match &priority { Some(x) => Some(x.as_str()), None => None };
        let deadline = recorded_deadline(&recs, it.item_id.as_str());
        let dl_ref: Option<&str> = match &deadline { Some(x) => Some(x.as_str()), None => None };
        let mut content = render_page(it, canon[k].as_str(), st_ref, pr_ref, dl_ref, &links, &ids, &slugs, schema);
        let section = tasks_section_exec(&tasks, it.item_id.as_str());
        let ghost before = content@;
        content.append(section.as_str());
        proof {
            let rel = choose|rel: Seq<char>| sections_are(*schema, it.item_id@, links_view(links@), views(ids@), views(slugs@), rel)
                && before == page_head(logseq_tag(canon@[k as int]@), opt_str_view(st_ref), opt_str_view(pr_ref), opt_str_view(dl_ref), it.item_id@) + rel;
            assert(opt_str_view(dl_ref) == export_deadline(events@, it.item_id@));
            assert(content@ =~= page_head(logseq_tag(pages[k as int].1), export_status(events@, it.item_id@), export_priority(events@, it.item_id@),
                export_deadline(events@, it.item_id@), it.item_id@) + rel + tasks_section(tv, it.item_id@));
        }
        out.push((slug, content));
    }
    ExportPlan { pages: out, item_count: page_idx.len() + tasks.len(), task_count: tasks.len(), excluded }
}

/// The page files to remove: those whose names are not among the slugs
/// kept.
pub fn stale_pages(stems: &Vec<String>, keep: &Vec<String>) -> (r: Vec<String>)
    ensures
        views(r@) == views(stems@).filter(|s: Seq<char>| !views(keep@).contains(s)),
{
    let ghost sv = views(stems@);
    let ghost p = |s: Seq<char>| !views(keep@).contains(s);
    let mut out: Vec<String> = Vec::new();
    for i in 0..stems.len()
        invariant
            sv == views(stems@),
            p == (|s: Seq<char>| !views(keep@).contains(s)),
            views(out@) == sv.take(i as int).filter(p),
    {
        proof {
            assert(sv.take(i + 1).drop_last() =~= sv.take(i as int));
            assert(sv.take(i + 1).last() == stems@[i as int]@);
            reveal(Seq::filter);
        }
        let kept = crate::seqs::contains_str(keep, stems[i].as_str());
        proof {
            if kept {
                let j = choose|j: int| 0 <= j < keep.len() && (#[trigger] keep@[j])@ == stems@[i as int]@;
                assert(views(keep@)[j] == stems@[i as int]@);
            } else {
                assert forall|j: int| 0 <= j < views(keep@).len() implies views(keep@)[j] != stems@[i as int]@ by {
                    assert(views(keep@)[j] == keep@[j]@);
                }
            }
        }
        let ghost before = views(out@);
        if !kept {
            out.push(stems[i].clone());
            proof { assert(views(out@) =~= before.push(stems@[i as int]@)); }
        }
    }
    proof { assert(sv.take(stems.len() as int) =~= sv); }
    out
}

// ─── Reading a page head back ─────────────────────────────────────────────────

/// A property value a page carries on one line and reads back as it is: no
/// line feed, no white space at either end, and not `not-set`.
pub open spec fn one_line_value(x: Seq<char>) -> bool {
    !x.contains('\n') && crate::chars::trim(x) == x && x != "not-set"@
}

/// No line of the text sets the property `key` (a `not-set` value sets
/// nothing).
pub open spec fn sets_no(text: Seq<char>, key: Seq<char>) -> bool {
    crate::chars::lines_of(text).filter_map(|l: Seq<char>| crate::sync_parse::prop_value(l, key)).len() == 0
}

/// A line whose first character differs from that of `key` sets no `key`.
proof fn lemma_other_line(l: Seq<char>, key: Seq<char>)
    requires
        key.len() > 0,
        l.len() > 1,
        l[0] != key[0],
    ensures
        crate::sync_parse::prop_value(crate::chars::strip_cr(l), key) is None,
{
    let t = crate::chars::strip_cr(l);
    assert(t[0] == l[0]);
    if crate::chars::starts_with(t, key) {
        assert(t.take(key.len() as int)[0] == key[0]);
    }
}

/// The line a property `key` (ending in a space) is written on, with a
/// one-line value or `not-set` for none.
pub open spec fn value_line(key: Seq<char>, v: Option<Seq<char>>) -> Seq<char> {
    key + match v { Some(x) => x, None => "not-set"@ }
}

/// A value line reads back as its value.
proof fn lemma_value_line(key: Seq<char>, v: Option<Seq<char>>)
    requires
        key.len() > 1,
        key.last() == ' ',
        v matches Some(x) ==> one_line_value(x),
    ensures
        crate::chars::strip_cr(value_line(key, v)) == value_line(key, v),
        crate::sync_parse::prop_value(value_line(key, v), key) == v,
        value_line(key, v).len() > 1,
        value_line(key, v)[0] == key[0],
{
    reveal_strlit("not-set");
    let x = match v { Some(x) => x, None => "not-set"@ };
    let l = value_line(key, v);
    assert(l.take(key.len() as int) =~= key);
    assert(l.skip(key.len() as int) =~= x);
    assert(l[0] == key[0]);
    match v {
        Some(y) => {
            crate::chars::lemma_trimmed_end(y);
            if y.len() > 0 {
                assert(l.last() == y.last());
            } else {
                assert(l.last() == key.last());
            }
        },
        None => {
            assert(x[0] == 'n');
            assert(crate::text::skip_ws(x) == x);
            assert(x.last() == 't');
            assert(crate::chars::trim_end(x) == x);
            assert(l.last() == 't');
        },
    }
}

/// The text of a page head, piece by piece.
#[verifier::spinoff_prover]
proof fn lemma_head_pieces(tag: Seq<char>, st: Option<Seq<char>>, pr: Option<Seq<char>>, dl: Option<Seq<char>>, id: Seq<char>,
    rest: Seq<char>)
    ensures
        page_head(tag, st, pr, dl, id) + rest == "type:: "@ + tag + "\n"@ + (value_line("status:: "@, st) + "\n"@
            + (value_line("priority:: "@, pr) + "\n"@ + ("deadline:: "@ + match dl { Some(x) => x, None => "TBD"@ } + "\n"@
            + ("tags:: "@ + tag + "\n"@ + (Seq::<char>::empty() + "\n"@ + ("- item-id: "@ + id + "\n"@ + rest)))))),
{
    let nl = "\n"@;
    reveal_strlit("\n");
    assert("\nstatus:: "@ =~= nl + "status:: "@) by { reveal_strlit("\nstatus:: "); reveal_strlit("status:: "); }
    assert("\npriority:: "@ =~= nl + "priority:: "@) by { reveal_strlit("\npriority:: "); reveal_strlit("priority:: "); }
    assert("\ndeadline:: "@ =~= nl + "deadline:: "@) by { reveal_strlit("\ndeadline:: "); reveal_strlit("deadline:: "); }
    assert("\ntags:: "@ =~= nl + "tags:: "@) by { reveal_strlit("\ntags:: "); reveal_strlit("tags:: "); }
    assert("\n\n- item-id: "@ =~= nl + (Seq::<char>::empty() + nl + "- item-id: "@)) by {
        reveal_strlit("\n\n- item-id: "); reveal_strlit("- item-id: ");
    }
    let sv = match st { Some(x) => x, None => "not-set"@ };
    let pv = match pr { Some(x) => x, None => "not-set"@ };
    let dv = match dl { Some(x) => x, None => "TBD"@ };
    let l7 = "- item-id: "@ + id;
    let r7 = l7 + nl + rest;
    let r6 = Seq::<char>::empty() + nl + r7;
    let r5 = "tags:: "@ + tag + nl + r6;
    let r4 = "deadline:: "@ + dv + nl + r5;
    let r3 = "priority:: "@ + pv + nl + r4;
    let r2 = "status:: "@ + sv + nl + r3;
    let p1 = "type:: "@ + tag;
    let p2 = p1 + "\nstatus:: "@ + sv;
    let p3 = p2 + "\npriority:: "@ + pv;
    let p4 = p3 + "\ndeadline:: "@ + dv;
    let p5 = p4 + "\ntags:: "@ + tag;
    let p6 = p5 + "\n\n- item-id: "@ + id;
    assert(page_head(tag, st, pr, dl, id) == p6 + nl);
    assert(p6 + nl + rest =~= p5 + nl + r6);
    assert(p5 + nl + r6 =~= p4 + nl + r5);
    assert(p4 + nl + r5 =~= p3 + nl + r4);
    assert(p3 + nl + r4 =~= p2 + nl + r3);
    assert(p2 + nl + r3 =~= p1 + nl + r2);
}

/// A piece after a prefix without line feeds has none when it has none.
proof fn lemma_no_nl(p: Seq<char>, x: Seq<char>)
    requires
        !p.contains('\n'),
        !x.contains('\n'),
    ensures
        !(p + x).contains('\n'),
{
    if (p + x).contains('\n') {
        let i = choose|i: int| 0 <= i < (p + x).len() && (p + x)[i] == '\n';
        if i < p.len() {
            assert(p[i] == '\n');
        } else {
            assert(x[i - p.len()] == '\n');
        }
    }
}

/// The lines of a page head.
pub open spec fn head_lines(tag: Seq<char>, st: Option<Seq<char>>, pr: Option<Seq<char>>, dl: Option<Seq<char>>, id: Seq<char>)
    -> Seq<Seq<char>> {
    seq![crate::chars::strip_cr("type:: "@ + tag), value_line("status:: "@, st), value_line("priority:: "@, pr),
        crate::chars::strip_cr("deadline:: "@ + match dl { Some(x) => x, None => "TBD"@ }), crate::chars::strip_cr("tags:: "@ + tag),
        Seq::<char>::empty(), crate::chars::strip_cr("- item-id: "@ + id)]
}

/// Seven lines without line feeds, each ended by one, before a rest: the
/// lines of the text are the seven, then those of the rest.
#[verifier::spinoff_prover]
proof fn lemma_seven_lines(l1: Seq<char>, l2: Seq<char>, l3: Seq<char>, l4: Seq<char>, l5: Seq<char>, l6: Seq<char>,
    l7: Seq<char>, rest: Seq<char>)
    requires
        !l1.contains('\n'),
        !l2.contains('\n'),
        !l3.contains('\n'),
        !l4.contains('\n'),
        !l5.contains('\n'),
        !l6.contains('\n'),
        !l7.contains('\n'),
    ensures
        crate::chars::lines_of(l1 + "\n"@ + (l2 + "\n"@ + (l3 + "\n"@ + (l4 + "\n"@ + (l5 + "\n"@ + (l6 + "\n"@
            + (l7 + "\n"@ + rest)))))))
            == seq![crate::chars::strip_cr(l1), crate::chars::strip_cr(l2), crate::chars::strip_cr(l3), crate::chars::strip_cr(l4),
                crate::chars::strip_cr(l5), crate::chars::strip_cr(l6), crate::chars::strip_cr(l7)] + crate::chars::lines_of(rest),
{
    let nl = "\n"@;
    let r7 = l7 + nl + rest;
    let r6 = l6 + nl + r7;
    let r5 = l5 + nl + r6;
    let r4 = l4 + nl + r5;
    let r3 = l3 + nl + r4;
    let r2 = l2 + nl + r3;
    crate::chars::lemma_lines_cons(l1, r2);
    crate::chars::lemma_lines_cons(l2, r3);
    crate::chars::lemma_lines_cons(l3, r4);
    crate::chars::lemma_lines_cons(l4, r5);
    crate::chars::lemma_lines_cons(l5, r6);
    crate::chars::lemma_lines_cons(l6, r7);
    crate::chars::lemma_lines_cons(l7, rest);
    let lr = crate::chars::lines_of(rest);
    let c = |l: Seq<char>| crate::chars::strip_cr(l);
    assert(crate::chars::lines_of(r6) =~= seq![c(l6), c(l7)] + lr);
    assert(crate::chars::lines_of(r5) =~= seq![c(l5), c(l6), c(l7)] + lr);
    assert(crate::chars::lines_of(r4) =~= seq![c(l4), c(l5), c(l6), c(l7)] + lr);
    assert(crate::chars::lines_of(r3) =~= seq![c(l3), c(l4), c(l5), c(l6), c(l7)] + lr);
    assert(crate::chars::lines_of(r2) =~= seq![c(l2), c(l3), c(l4), c(l5), c(l6), c(l7)] + lr);
    assert(crate::chars::lines_of(l1 + nl + r2) =~= seq![c(l1), c(l2), c(l3), c(l4), c(l5), c(l6), c(l7)] + lr);
}

/// The lines of a page head hold no line feed.
proof fn lemma_head_no_nl(tag: Seq<char>, st: Option<Seq<char>>, pr: Option<Seq<char>>, dl: Option<Seq<char>>, id: Seq<char>)
    requires
        !tag.contains('\n'),
        !id.contains('\n'),
        dl matches Some(d) ==> !d.contains('\n'),
        st matches Some(x) ==> one_line_value(x),
        pr matches Some(x) ==> one_line_value(x),
    ensures
        !("type:: "@ + tag).contains('\n'),
        !value_line("status:: "@, st).contains('\n'),
        !value_line("priority:: "@, pr).contains('\n'),
        !("deadline:: "@ + match dl { Some(x) => x, None => "TBD"@ }).contains('\n'),
        !("tags:: "@ + tag).contains('\n'),
        !("- item-id: "@ + id).contains('\n'),
{
    assert(!"type:: "@.contains('\n')) by { reveal_strlit("type:: "); }
    assert(!"tags:: "@.contains('\n')) by { reveal_strlit("tags:: "); }
    assert(!"- item-id: "@.contains('\n')) by { reveal_strlit("- item-id: "); }
    assert(!"deadline:: "@.contains('\n')) by { reveal_strlit("deadline:: "); }
    assert(!"status:: "@.contains('\n')) by { reveal_strlit("status:: "); }
    assert(!"priority:: "@.contains('\n')) by { reveal_strlit("priority:: "); }
    assert(!"TBD"@.contains('\n')) by { reveal_strlit("TBD"); }
    assert(!"not-set"@.contains('\n')) by { reveal_strlit("not-set"); }
    lemma_no_nl("type:: "@, tag);
    lemma_no_nl("tags:: "@, tag);
    lemma_no_nl("- item-id: "@, id);
    lemma_no_nl("deadline:: "@, match dl { Some(x) => x, None => "TBD"@ });
    lemma_no_nl("status:: "@, match st { Some(x) => x, None => "not-set"@ });
    lemma_no_nl("priority:: "@, match pr { Some(x) => x, None => "not-set"@ });
}

/// A page head splits into its seven lines, before the lines of what
/// follows it.
proof fn lemma_head_lines(tag: Seq<char>, st: Option<Seq<char>>, pr: Option<Seq<char>>, dl: Option<Seq<char>>, id: Seq<char>,
    rest: Seq<char>)
    requires
        !tag.contains('\n'),
        !id.contains('\n'),
        dl matches Some(d) ==> !d.contains('\n'),
        st matches Some(x) ==> one_line_value(x),
        pr matches Some(x) ==> one_line_value(x),
    ensures
        crate::chars::lines_of(page_head(tag, st, pr, dl, id) + rest) == head_lines(tag, st, pr, dl, id) + crate::chars::lines_of(rest),
{
    lemma_head_pieces(tag, st, pr, dl, id, rest);
    lemma_head_no_nl(tag, st, pr, dl, id);
    let l2 = value_line("status:: "@, st);
    let l3 = value_line("priority:: "@, pr);
    lemma_seven_lines("type:: "@ + tag, l2, l3, "deadline:: "@ + match dl { Some(x) => x, None => "TBD"@ }, "tags:: "@ + tag,
        Seq::<char>::empty(), "- item-id: "@ + id, rest);
    assert("status:: "@.len() > 1 && "status:: "@.last() == ' ') by { reveal_strlit("status:: "); }
    assert("priority:: "@.len() > 1 && "priority:: "@.last() == ' ') by { reveal_strlit("priority:: "); }
    lemma_value_line("status:: "@, st);
    lemma_value_line("priority:: "@, pr);
    assert(crate::chars::strip_cr(Seq::<char>::empty()) == Seq::<char>::empty());
}

/// What an exported page head says of status and priority reads back: the
/// properties read from a page made of the head export writes and any text
/// after it that sets neither property are the status and priority the
/// head was written with, when the type tag, deadline and item identifier
/// hold no line feed and each value is a one-line value.
pub proof fn law_page_head_reads_back(tag: Seq<char>, st: Option<Seq<char>>, pr: Option<Seq<char>>,
    dl: Option<Seq<char>>, id: Seq<char>, rest: Seq<char>)
    requires
        !tag.contains('\n'),
        !id.contains('\n'),
        dl matches Some(d) ==> !d.contains('\n'),
        st matches Some(x) ==> one_line_value(x),
        pr matches Some(x) ==> one_line_value(x),
        sets_no(rest, "status:: "@),
        sets_no(rest, "priority:: "@),
    ensures
        crate::sync_parse::page_properties(page_head(tag, st, pr, dl, id) + rest) == (st, pr),
{
    reveal_strlit("status:: ");
    reveal_strlit("priority:: ");
    reveal_strlit("type:: ");
    reveal_strlit("deadline:: ");
    reveal_strlit("tags:: ");
    reveal_strlit("- item-id: ");
    lemma_head_lines(tag, st, pr, dl, id, rest);
    let head = head_lines(tag, st, pr, dl, id);
    let lr = crate::chars::lines_of(rest);
    lemma_value_line("status:: "@, st);
    lemma_value_line("priority:: "@, pr);
    let fs = |l: Seq<char>| crate::sync_parse::prop_value(l, "status:: "@);
    let fp = |l: Seq<char>| crate::sync_parse::prop_value(l, "priority:: "@);
    let dv = match dl { Some(x) => x, None => "TBD"@ };
    lemma_other_line("type:: "@ + tag, "status:: "@);
    lemma_other_line("type:: "@ + tag, "priority:: "@);
    lemma_other_line("deadline:: "@ + dv, "status:: "@);
    lemma_other_line("deadline:: "@ + dv, "priority:: "@);
    lemma_other_line("tags:: "@ + tag, "status:: "@);
    lemma_other_line("tags:: "@ + tag, "priority:: "@);
    lemma_other_line("- item-id: "@ + id, "status:: "@);
    lemma_other_line("- item-id: "@ + id, "priority:: "@);
    lemma_other_line(head[1], "priority:: "@);
    lemma_other_line(head[2], "status:: "@);
    assert(crate::chars::strip_cr(head[1]) == head[1]);
    assert(crate::chars::strip_cr(head[2]) == head[2]);
    assert forall|i: int| 0 <= i < head.len() && i != 1 implies (#[trigger] fs(head[i])) is None by {
        if i == 2 { assert(fs(head[2]) is None); }
    }
    assert forall|i: int| 0 <= i < head.len() && i != 2 implies (#[trigger] fp(head[i])) is None by {
        if i == 1 { assert(fp(head[1]) is None); }
    }
    crate::seqs::lemma_filter_map_one(head, fs, 1);
    crate::seqs::lemma_filter_map_one(head, fp, 2);
    crate::seqs::lemma_filter_map_concat(head, lr, fs);
    crate::seqs::lemma_filter_map_concat(head, lr, fp);
    assert(head.filter_map(fs) + lr.filter_map(fs) =~= head.filter_map(fs));
    assert(head.filter_map(fp) + lr.filter_map(fp) =~= head.filter_map(fp));
}

/// The exported status of an item is the status last recorded for it when
/// there is one, whatever status its extraction proposed; the proposed
/// status is exported only when none was recorded.
pub proof fn law_export_status_prefers_recorded(events: Seq<Json>, id: Seq<char>)
    ensures
        explicit_status(events, id) matches Some(x) ==> export_status(events, id) == Some(x),
        explicit_status(events, id) is None ==> export_status(events, id) == proposed_values(events, id).0,
{
}

/// Once a status update for an item is logged, the export shows that
/// status: the item's exported status is the new one, whatever was proposed
/// or recorded before, and the page of the item begins with its properties
/// with that status.
pub proof fn law_export_shows_status_update(schema: ProjectSchema, events: Seq<Json>, ev: OutEvent, j: Json,
    id: Seq<char>, t: Seq<char>, st: Seq<char>, prev: JView)
    requires
        ev_is(ev, "ItemStatusUpdated"@, status_module(), ev.correlation_id@, status_updated_fields(id, t, st, prev)),
        logs(j, ev),
    ensures
        export_status(events.push(j), id) == Some(st),
        forall|k: int, text: Seq<char>| 0 <= k < page_items(schema, events.push(j)).len()
            && page_items(schema, events.push(j))[k].0.item_id == id
            && #[trigger] page_text_is(schema, events.push(j), k, text)
            ==> exists|rest: Seq<char>| text == page_head(logseq_tag(page_items(schema, events.push(j))[k].1), Some(st),
                export_priority(events.push(j), id), export_deadline(events.push(j), id), id) + rest,
{
    law_status_read_after_write(schema, events, ev, j, id, t, st, prev, id);
    let e2 = events.push(j);
    assert forall|k: int, text: Seq<char>| 0 <= k < page_items(schema, e2).len()
        && page_items(schema, e2)[k].0.item_id == id
        && #[trigger] page_text_is(schema, e2, k, text)
        implies exists|rest: Seq<char>| text == page_head(logseq_tag(page_items(schema, e2)[k].1), Some(st),
            export_priority(e2, id), export_deadline(e2, id), id) + rest by {
        let pages = page_items(schema, e2);
        let it = pages[k].0;
        let rel = choose|rel: Seq<char>| sections_are(schema, it.item_id, export_links(e2), page_ids(pages), page_slugs(pages), rel)
            && text == page_head(logseq_tag(pages[k].1), export_status(e2, it.item_id), export_priority(e2, it.item_id),
                export_deadline(e2, it.item_id), it.item_id) + rel + tasks_section(task_items(schema, e2), it.item_id);
        let rest = rel + tasks_section(task_items(schema, e2), it.item_id);
        let head = page_head(logseq_tag(pages[k].1), Some(st), export_priority(e2, id), export_deadline(e2, id), id);
        assert(text == head + rest);
    }
}

/// The exported priority of an item is the priority last recorded for it
/// when there is one, whatever priority its extraction proposed; the
/// proposed priority is exported only when none was recorded.
pub proof fn law_export_priority_prefers_recorded(events: Seq<Json>, id: Seq<char>)
    ensures
        explicit_priority(events, id) matches Some(x) ==> export_priority(events, id) == Some(x),
        explicit_priority(events, id) is None ==> export_priority(events, id) == proposed_values(events, id).1,
{
}

/// Once a priority update for an item is logged, the item's exported
/// priority is the new one, whatever was proposed or recorded before.
pub proof fn law_export_shows_priority_update(events: Seq<Json>, ev: OutEvent, j: Json, id: Seq<char>, p: Seq<char>, prev: JView)
    requires
        ev_is(ev, "ItemPriorityUpdated"@, status_module(), ev.correlation_id@, priority_updated_fields(id, p, prev)),
        logs(j, ev),
    ensures
        export_priority(events.push(j), id) == Some(p),
{
    law_priority_read_after_write(events, ev, j, id, p, prev, id);
}

} // verus!
