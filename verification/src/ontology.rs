//! Enriching the project record from proposals: the snapshot of the record
//! a proposer is shown, the checks every proposal of a link, a status or a
//! priority must pass, and the review and confirmation decisions.
use vstd::prelude::*;
use crate::text::{str_eq, views, strictly_sorted, sorted_distinct};
use crate::seqs::{last_index, is_last, first_index, is_first, any_of, lemma_last_index, lemma_first_index, lemma_first_index_none};
use crate::payload::{Json, JView, OutEvent, ModuleEvent, appended_in, lemma_appended_in_none, lemma_appended_in_push, emit,
    js, jo, jv, jopt_v, pv, str_of, pstr_of, get, as_array, jstr, jpstr, jget, jarr, jpayload, payload1, payload2, payload3,
    payload5, jlist};
use crate::record::{ItemView, RecordedItem, items_view, items_of_sessions, sessions_of, read_session_items, has_id, or_empty,
    own, ov, last_set, lemma_filter_map_push, find_last_item};
use crate::links::{LinkView, differs_from};
use crate::chars::{trim, chars_of, string_of, trim_bounds};

verus! {

// ─── What the review reads of the record ──────────────────────────────────────

/// The module that records reviews.
pub open spec fn review_module() -> Seq<char> {
    "ontology_suggest"@
}

/// The items of the incorporated sessions, session after session.
pub open spec fn session_items_of(events: Seq<Json>) -> Seq<ItemView> {
    items_of_sessions(events, sessions_of(events))
}

/// The item a map from identifiers to items, filled session after session,
/// holds for `id`.
pub open spec fn review_item(events: Seq<Json>, id: Seq<char>) -> Option<ItemView> {
    match last_index(session_items_of(events), has_id(id)) {
        Some(k) => Some(session_items_of(events)[k]),
        None => None,
    }
}

/// The link an `ItemLinked` or `ItemUnlinked` event names, when it names
/// all three parts.
pub open spec fn full_link(e: Json) -> Option<LinkView> {
    match (pstr_of(e, "source_id"@), pstr_of(e, "link_type"@), pstr_of(e, "target_id"@)) {
        (Some(s), Some(l), Some(t)) => Some((s, l, t)),
        _ => None,
    }
}

/// The active links after one more event, as the review counts them.
pub open spec fn review_link_step(links: Seq<LinkView>, e: Json) -> Seq<LinkView> {
    if str_of(e, "event_type"@) == Some("ItemLinked"@) && str_of(e, "source_module"@) == Some("item_links"@) {
        match full_link(e) {
            Some(l) => links.push(l),
            None => links,
        }
    } else if str_of(e, "event_type"@) == Some("ItemUnlinked"@) && str_of(e, "source_module"@) == Some("item_links"@) {
        match full_link(e) {
            Some(l) => links.filter(differs_from(l)),
            None => links,
        }
    } else {
        links
    }
}

/// The active links of a log, as the review counts them.
pub open spec fn review_links(events: Seq<Json>) -> Seq<LinkView>
    decreases events.len(),
{
    if events.len() == 0 {
        Seq::empty()
    } else {
        review_link_step(review_links(events.drop_last()), events.last())
    }
}

/// The value `field` an update of type `etype` of item `id` sets, from any
/// module.
pub open spec fn any_update(id: Seq<char>, etype: Seq<char>, field: Seq<char>) -> spec_fn(Json) -> Option<Option<Seq<char>>> {
    |e: Json| if str_of(e, "event_type"@) == Some(etype) && pstr_of(e, "item_id"@) == Some(id) {
        Some(pstr_of(e, field))
    } else {
        None
    }
}

/// The status last set for item `id` by any module.
pub open spec fn latest_status(events: Seq<Json>, id: Seq<char>) -> Option<Seq<char>> {
    last_set(events.filter_map(any_update(id, "ItemStatusUpdated"@, "new_status"@)))
}

/// The priority last set for item `id` by any module.
pub open spec fn latest_priority(events: Seq<Json>, id: Seq<char>) -> Option<Seq<char>> {
    last_set(events.filter_map(any_update(id, "ItemPriorityUpdated"@, "new_priority"@)))
}

/// The items of the incorporated sessions.
pub fn build_item_registry(events: &Vec<Json>) -> (r: Vec<RecordedItem>)
    ensures
        items_view(r@) == session_items_of(events@),
{
    read_session_items(events)
}

/// The item the registry holds for `id`.
fn review_lookup(registry: &Vec<RecordedItem>, id: &str, Ghost(events): Ghost<Seq<Json>>) -> (r: Option<usize>)
    requires
        items_view(registry@) == session_items_of(events),
    ensures
        match review_item(events, id@) {
            Some(it) => r matches Some(k) && k < registry.len() && registry@[k as int]@ == it,
            None => r is None,
        },
{
    let r = find_last_item(registry, id);
    proof {
        match r {
            Some(k) => { lemma_last_index(items_view(registry@), has_id(id@), k as int); },
            None => {},
        }
    }
    r
}

/// Whether two links are the same.
fn same_triple(l: &(String, String, String), s: &str, lt: &str, t: &str) -> (r: bool)
    ensures
        r == ((l.0@, l.1@, l.2@) == (s@, lt@, t@)),
{
    str_eq(l.0.as_str(), s) && str_eq(l.1.as_str(), lt) && str_eq(l.2.as_str(), t)
}

/// The views of links held as triples.
pub open spec fn triples_view(v: Seq<(String, String, String)>) -> Seq<LinkView> {
    v.map_values(|l: (String, String, String)| (l.0@, l.1@, l.2@))
}

/// The links other than the given one, in order.
fn drop_link(links: &Vec<(String, String, String)>, s: &str, lt: &str, t: &str) -> (r: Vec<(String, String, String)>)
    ensures
        triples_view(r@) == triples_view(links@).filter(differs_from((s@, lt@, t@))),
{
    let ghost lv = triples_view(links@);
    let ghost p = differs_from((s@, lt@, t@));
    let mut kept: Vec<(String, String, String)> = Vec::new();
    for i in 0..links.len()
        invariant
            p == differs_from((s@, lt@, t@)),
            lv == triples_view(links@),
            triples_view(kept@) == lv.take(i as int).filter(p),
    {
        proof {
            assert(lv.take(i + 1).drop_last() =~= lv.take(i as int));
            assert(lv.take(i + 1).last() == lv[i as int]);
            reveal(Seq::filter);
        }
        let ghost before = triples_view(kept@);
        if !same_triple(&links[i], s, lt, t) {
            kept.push((links[i].0.clone(), links[i].1.clone(), links[i].2.clone()));
            proof { assert(triples_view(kept@) =~= before.push(lv[i as int])); }
        }
    }
    proof { assert(lv.take(lv.len() as int) =~= lv); }
    kept
}

/// The active links of the log, as the review counts them: each
/// `ItemLinked` event of item links naming all three parts adds its link,
/// each such `ItemUnlinked` event removes it.
pub fn build_active_links(events: &Vec<Json>) -> (r: Vec<(String, String, String)>)
    ensures
        triples_view(r@) == review_links(events@),
{
    let mut links: Vec<(String, String, String)> = Vec::new();
    for i in 0..events.len()
        invariant
            triples_view(links@) == review_links(events@.take(i as int)),
    {
        proof {
            assert(events@.take(i + 1).drop_last() =~= events@.take(i as int));
            assert(events@.take(i + 1).last() == events@[i as int]);
        }
        let e = &events[i];
        let linked = match (jstr(e, "event_type"), jstr(e, "source_module")) {
            (Some(et), Some(sm)) => str_eq(sm, "item_links") && (str_eq(et, "ItemLinked") || str_eq(et, "ItemUnlinked")),
            _ => false,
        };
        if linked {
            let is_add = match jstr(e, "event_type") { Some(et) => str_eq(et, "ItemLinked"), None => false };
            match (jpstr(e, "source_id"), jpstr(e, "link_type"), jpstr(e, "target_id")) {
                (Some(s), Some(lt), Some(t)) => {
                    if is_add {
                        let ghost before = triples_view(links@);
                        links.push((s.to_owned(), lt.to_owned(), t.to_owned()));
                        proof { assert(triples_view(links@) =~= before.push((s@, lt@, t@))); }
                    } else {
                        links = drop_link(&links, s, lt, t);
                    }
                },
                _ => {},
            }
        }
    }
    proof { assert(events@.take(events.len() as int) =~= events@); }
    links
}

/// The value an update of type `etype` of item `id` last set, from any
/// module.
fn latest_update(events: &Vec<Json>, id: &str, etype: &str, field: &str) -> (r: Option<String>)
    ensures
        ov(r) == last_set(events@.filter_map(any_update(id@, etype@, field@))),
{
    let ghost f = any_update(id@, etype@, field@);
    let mut last: Option<String> = None;
    for i in 0..events.len()
        invariant
            f == any_update(id@, etype@, field@),
            ov(last) == last_set(events@.take(i as int).filter_map(f)),
    {
        proof {
            assert(events@.take(i + 1) =~= events@.take(i as int).push(events@[i as int]));
            lemma_filter_map_push(events@.take(i as int), events@[i as int], f);
        }
        let e = &events[i];
        let hit = match (jstr(e, "event_type"), jpstr(e, "item_id")) {
            (Some(et), Some(x)) => str_eq(et, etype) && str_eq(x, id),
            _ => false,
        };
        if hit {
            last = own(jpstr(e, field));
        }
    }
    proof { assert(events@.take(events.len() as int) =~= events@); }
    last
}

/// The status last set for an item by any module.
pub fn current_status(events: &Vec<Json>, item_id: &str) -> (r: Option<String>)
    ensures
        ov(r) == latest_status(events@, item_id@),
{
    latest_update(events, item_id, "ItemStatusUpdated", "new_status")
}

/// The priority last set for an item by any module.
pub fn current_priority(events: &Vec<Json>, item_id: &str) -> (r: Option<String>)
    ensures
        ov(r) == latest_priority(events@, item_id@),
{
    latest_update(events, item_id, "ItemPriorityUpdated", "new_priority")
}

// ─── The fixed review vocabulary ──────────────────────────────────────────────

/// `t` is one of `a`, `b`.
pub open spec fn one_of2(t: Seq<char>, a: Seq<char>, b: Seq<char>) -> bool {
    t == a || t == b
}

/// Which link types may join which item types.
pub open spec fn link_type_allowed(lt: Seq<char>, st: Seq<char>, tt: Seq<char>) -> bool {
    if lt == "blocks"@ {
        one_of2(st, "task"@, "issue"@) && one_of2(tt, "task"@, "milestone"@)
    } else if lt == "affects"@ {
        one_of2(st, "risk"@, "issue"@) && (one_of2(tt, "task"@, "milestone"@) || tt == "stakeholder"@)
    } else if lt == "assigned_to"@ {
        one_of2(st, "task"@, "issue"@) && tt == "stakeholder"@
    } else if lt == "mitigated_by"@ {
        st == "risk"@ && tt == "task"@
    } else if lt == "escalates_to"@ {
        one_of2(st, "risk"@, "issue"@) && tt == "stakeholder"@
    } else {
        lt == "related_to"@
    }
}

/// Whether a link of type `link_type` may join items of the given types.
pub fn is_valid_link_type(link_type: &str, source_type: &str, target_type: &str) -> (r: bool)
    ensures
        r == link_type_allowed(link_type@, source_type@, target_type@),
{
    if str_eq(link_type, "blocks") {
        (str_eq(source_type, "task") || str_eq(source_type, "issue"))
            && (str_eq(target_type, "task") || str_eq(target_type, "milestone"))
    } else if str_eq(link_type, "affects") {
        (str_eq(source_type, "risk") || str_eq(source_type, "issue"))
            && (str_eq(target_type, "task") || str_eq(target_type, "milestone") || str_eq(target_type, "stakeholder"))
    } else if str_eq(link_type, "assigned_to") {
        (str_eq(source_type, "task") || str_eq(source_type, "issue")) && str_eq(target_type, "stakeholder")
    } else if str_eq(link_type, "mitigated_by") {
        str_eq(source_type, "risk") && str_eq(target_type, "task")
    } else if str_eq(link_type, "escalates_to") {
        (str_eq(source_type, "risk") || str_eq(source_type, "issue")) && str_eq(target_type, "stakeholder")
    } else {
        str_eq(link_type, "related_to")
    }
}

/// The link vocabulary, type by type: `blocks` joins a task or an issue to a
/// task or a milestone; `affects` a risk or an issue to a task, a milestone
/// or a stakeholder; `assigned_to` a task or an issue to a stakeholder;
/// `mitigated_by` a risk to a task, and nothing else (not a task to a
/// risk); `escalates_to` a risk or an issue to a stakeholder; `related_to`
/// any two items; and no other link type joins anything.
pub proof fn law_link_vocabulary(lt: Seq<char>, s: Seq<char>, t: Seq<char>)
    ensures
        lt == "blocks"@ ==> (link_type_allowed(lt, s, t)
            <==> (s == "task"@ || s == "issue"@) && (t == "task"@ || t == "milestone"@)),
        lt == "affects"@ ==> (link_type_allowed(lt, s, t)
            <==> (s == "risk"@ || s == "issue"@) && (t == "task"@ || t == "milestone"@ || t == "stakeholder"@)),
        lt == "assigned_to"@ ==> (link_type_allowed(lt, s, t) <==> (s == "task"@ || s == "issue"@) && t == "stakeholder"@),
        lt == "mitigated_by"@ ==> (link_type_allowed(lt, s, t) <==> s == "risk"@ && t == "task"@),
        lt == "escalates_to"@ ==> (link_type_allowed(lt, s, t) <==> (s == "risk"@ || s == "issue"@) && t == "stakeholder"@),
        lt == "related_to"@ ==> link_type_allowed(lt, s, t),
        lt != "blocks"@ && lt != "affects"@ && lt != "assigned_to"@ && lt != "mitigated_by"@ && lt != "escalates_to"@
            && lt != "related_to"@ ==> !link_type_allowed(lt, s, t),
{
    reveal_strlit("blocks");
    reveal_strlit("affects");
    reveal_strlit("assigned_to");
    reveal_strlit("mitigated_by");
    reveal_strlit("escalates_to");
    reveal_strlit("related_to");
    assert("blocks"@[0] != "affects"@[0]);
    assert("blocks"@[0] != "assigned_to"@[0]);
    assert("blocks"@[0] != "mitigated_by"@[0]);
    assert("blocks"@[0] != "escalates_to"@[0]);
    assert("blocks"@[0] != "related_to"@[0]);
    assert("affects"@[1] != "assigned_to"@[1]);
    assert("affects"@[0] != "mitigated_by"@[0]);
    assert("affects"@[0] != "escalates_to"@[0]);
    assert("affects"@[0] != "related_to"@[0]);
    assert("assigned_to"@[0] != "mitigated_by"@[0]);
    assert("assigned_to"@[0] != "escalates_to"@[0]);
    assert("assigned_to"@[0] != "related_to"@[0]);
    assert("mitigated_by"@[0] != "escalates_to"@[0]);
    assert("mitigated_by"@[0] != "related_to"@[0]);
    assert("escalates_to"@[0] != "related_to"@[0]);
}

/// A `mitigated_by` link runs from a risk to a task only: it is allowed
/// from a risk to a task, and from no item that is not a risk, nor to one
/// that is not a task.
pub proof fn law_mitigation_runs_risk_to_task(s: Seq<char>, t: Seq<char>)
    ensures
        link_type_allowed("mitigated_by"@, "risk"@, "task"@),
        !link_type_allowed("mitigated_by"@, "task"@, "risk"@),
        link_type_allowed("mitigated_by"@, s, t) ==> s == "risk"@ && t == "task"@,
{
    reveal_strlit("risk");
    reveal_strlit("task");
    assert("risk"@[0] != "task"@[0]);
    law_link_vocabulary("mitigated_by"@, "risk"@, "task"@);
    law_link_vocabulary("mitigated_by"@, "task"@, "risk"@);
    law_link_vocabulary("mitigated_by"@, s, t);
}

/// The statuses each item type may have.
pub open spec fn statuses_of(t: Seq<char>) -> Seq<Seq<char>> {
    if t == "task"@ {
        seq!["todo"@, "doing"@, "done"@, "waiting"@, "cancelled"@]
    } else if t == "milestone"@ {
        seq!["pending"@, "achieved"@, "missed"@]
    } else if t == "risk"@ {
        seq!["open"@, "mitigated"@, "accepted"@, "closed"@]
    } else if t == "issue"@ {
        seq!["open"@, "in_progress"@, "resolved"@, "closed"@]
    } else if t == "stakeholder"@ {
        seq!["active"@, "inactive"@]
    } else {
        Seq::empty()
    }
}

/// The statuses an item type may have.
pub fn valid_statuses(item_type: &str) -> (r: Vec<&'static str>)
    ensures
        r@.map_values(|s: &str| s@) == statuses_of(item_type@),
{
    let r: Vec<&'static str> = if str_eq(item_type, "task") {
        vec!["todo", "doing", "done", "waiting", "cancelled"]
    } else if str_eq(item_type, "milestone") {
        vec!["pending", "achieved", "missed"]
    } else if str_eq(item_type, "risk") {
        vec!["open", "mitigated", "accepted", "closed"]
    } else if str_eq(item_type, "issue") {
        vec!["open", "in_progress", "resolved", "closed"]
    } else if str_eq(item_type, "stakeholder") {
        vec!["active", "inactive"]
    } else {
        Vec::new()
    };
    proof { assert(r@.map_values(|s: &str| s@) =~= statuses_of(item_type@)); }
    r
}

/// Whether `s` is one of the statuses an item type may have.
fn status_listed(item_type: &str, s: &str) -> (r: bool)
    ensures
        r == statuses_of(item_type@).contains(s@),
{
    let v = valid_statuses(item_type);
    let ghost vs = v@.map_values(|x: &str| x@);
    let mut i: usize = 0;
    while i < v.len()
        invariant
            vs == v@.map_values(|x: &str| x@),
            vs == statuses_of(item_type@),
            i <= v.len(),
            forall|k: int| 0 <= k < i ==> vs[k] != s@,
        decreases v.len() - i,
    {
        if str_eq(v[i], s) {
            proof { assert(vs[i as int] == s@); }
            return true;
        }
        i = i + 1;
    }
    false
}


// ─── The snapshot ─────────────────────────────────────────────────────────────

/// A value, or `none`.
pub open spec fn or_none_text(o: Option<Seq<char>>) -> Seq<char> {
    match o {
        Some(x) => x,
        None => "none"@,
    }
}

/// The snapshot line of item `id`.
pub open spec fn snapshot_item(events: Seq<Json>, id: Seq<char>) -> Seq<char> {
    match review_item(events, id) {
        Some(it) => "- id="@ + id + " type="@ + it.item_type + " status="@ + or_none_text(latest_status(events, id))
            + " priority="@ + or_none_text(latest_priority(events, id)) + " description="@ + it.description + "\n"@,
        None => Seq::empty(),
    }
}

/// The snapshot lines of the items `ids`, in that order.
pub open spec fn items_text(events: Seq<Json>, ids: Seq<Seq<char>>) -> Seq<char>
    decreases ids.len(),
{
    if ids.len() == 0 {
        Seq::empty()
    } else {
        items_text(events, ids.drop_last()) + snapshot_item(events, ids.last())
    }
}

/// The snapshot line of a link.
pub open spec fn link_line(l: LinkView) -> Seq<char> {
    "- "@ + l.0 + " --"@ + l.1 + "--> "@ + l.2 + "\n"@
}

/// The snapshot lines of links, in order.
pub open spec fn links_text(links: Seq<LinkView>) -> Seq<char>
    decreases links.len(),
{
    if links.len() == 0 {
        Seq::empty()
    } else {
        links_text(links.drop_last()) + link_line(links.last())
    }
}

/// The snapshot of the record with its items listed in the order `ids`:
/// the items with their types, statuses, priorities and descriptions, then
/// the active links.
pub open spec fn snapshot_text(events: Seq<Json>, ids: Seq<Seq<char>>) -> Seq<char> {
    let links = review_links(events);
    "# Project Record Snapshot\n\n## Items\n"@ + items_text(events, ids) + "\n## Existing Links\n"@
        + if links.len() == 0 { "(none)\n"@ } else { links_text(links) }
}

/// The identifiers of the items of the incorporated sessions.
pub open spec fn review_ids(events: Seq<Json>) -> Set<Seq<char>> {
    session_items_of(events).map_values(|it: ItemView| it.item_id).to_set()
}

/// The snapshot line of one item.
fn snapshot_line(events: &Vec<Json>, registry: &Vec<RecordedItem>, id: &str) -> (r: String)
    requires
        items_view(registry@) == session_items_of(events@),
    ensures
        r@ == snapshot_item(events@, id@),
{
    match review_lookup(registry, id, Ghost(events@)) {
        Some(k) => {
            let it = &registry[k];
            let st = match current_status(events, id) { Some(x) => x, None => "none".to_owned() };
            let pr = match current_priority(events, id) { Some(x) => x, None => "none".to_owned() };
            let mut r = "- id=".to_owned();
            r.append(id);
            r.append(" type=");
            r.append(it.item_type.as_str());
            r.append(" status=");
            r.append(st.as_str());
            r.append(" priority=");
            r.append(pr.as_str());
            r.append(" description=");
            r.append(it.description.as_str());
            r.append("\n");
            r
        },
        None => String::new(),
    }
}

/// A human-readable snapshot of the project record: its items in
/// increasing identifier order, then its active links.
pub fn build_snapshot(events: &Vec<Json>) -> (r: String)
    ensures
        exists|ids: Seq<Seq<char>>| strictly_sorted(ids) && ids.to_set() == review_ids(events@)
            && r@ == snapshot_text(events@, ids),
{
    let registry = build_item_registry(events);
    let mut all_ids: Vec<String> = Vec::new();
    for i in 0..registry.len()
        invariant
            all_ids.len() == i,
            i <= registry.len(),
            forall|k: int| 0 <= k < i ==> (#[trigger] all_ids@[k])@ == registry@[k].item_id@,
    {
        all_ids.push(registry[i].item_id.clone());
    }
    proof {
        assert(views(all_ids@) =~= items_view(registry@).map_values(|it: ItemView| it.item_id));
    }
    let ids = sorted_distinct(&all_ids);
    let ghost iv = views(ids@);
    let mut out = "# Project Record Snapshot\n\n## Items\n".to_owned();
    let ghost head = out@;
    proof { assert(iv.take(0) =~= Seq::<Seq<char>>::empty()); }
    for i in 0..ids.len()
        invariant
            iv == views(ids@),
            items_view(registry@) == session_items_of(events@),
            out@ == head + items_text(events@, iv.take(i as int)),
    {
        proof {
            assert(iv.take(i + 1).drop_last() =~= iv.take(i as int));
            assert(iv.take(i + 1).last() == ids@[i as int]@);
        }
        let line = snapshot_line(events, &registry, ids[i].as_str());
        out.append(line.as_str());
        proof { assert(out@ =~= head + items_text(events@, iv.take(i + 1))); }
    }
    proof { assert(iv.take(ids.len() as int) =~= iv); }
    out.append("\n## Existing Links\n");
    let links = build_active_links(events);
    let ghost lv = triples_view(links@);
    let ghost mid = out@;
    if links.len() == 0 {
        out.append("(none)\n");
    } else {
        proof { assert(lv.take(0) =~= Seq::<LinkView>::empty()); }
        for i in 0..links.len()
            invariant
                lv == triples_view(links@),
                out@ == mid + links_text(lv.take(i as int)),
        {
            proof {
                assert(lv.take(i + 1).drop_last() =~= lv.take(i as int));
                assert(lv.take(i + 1).last() == lv[i as int]);
            }
            out.append("- ");
            out.append(links[i].0.as_str());
            out.append(" --");
            out.append(links[i].1.as_str());
            out.append("--> ");
            out.append(links[i].2.as_str());
            out.append("\n");
            proof { assert(out@ =~= mid + links_text(lv.take(i + 1))); }
        }
        proof { assert(lv.take(links.len() as int) =~= lv); }
    }
    proof {
        assert(out@ =~= snapshot_text(events@, iv));
    }
    out
}

// ─── Checking proposals ───────────────────────────────────────────────────────

/// A string member of a proposal, or the empty string.
pub open spec fn member(p: Json, k: Seq<char>) -> Seq<char> {
    or_empty(str_of(p, k))
}

/// What is wrong with a proposal, if anything: a link must name its source,
/// type and target, join two recorded items with a type allowed for their
/// types, and not be active already; a status must name a recorded item
/// and a status its type may have, other than the latest; a priority must
/// name a recorded item and `high`, `medium` or `low`, other than the
/// latest; no other kind of proposal is known.
pub open spec fn proposal_problem(p: Json, events: Seq<Json>) -> Option<Seq<char>> {
    let ptype = member(p, "type"@);
    if ptype == "link"@ {
        let src = member(p, "source_id"@);
        let lt = member(p, "link_type"@);
        let tgt = member(p, "target_id"@);
        if src.len() == 0 || lt.len() == 0 || tgt.len() == 0 {
            Some("link proposal missing required fields"@)
        } else {
            match review_item(events, src) {
                None => Some("source item "@ + src + " not found in project record"@),
                Some(si) => match review_item(events, tgt) {
                    None => Some("target item "@ + tgt + " not found in project record"@),
                    Some(ti) => if !link_type_allowed(lt, si.item_type, ti.item_type) {
                        Some("invalid link type "@ + lt + " for "@ + si.item_type + "->"@ + ti.item_type)
                    } else if review_links(events).contains((src, lt, tgt)) {
                        Some("link already exists"@)
                    } else {
                        None
                    },
                },
            }
        }
    } else if ptype == "status"@ {
        let id = member(p, "item_id"@);
        let proposed = member(p, "proposed_status"@);
        if id.len() == 0 || proposed.len() == 0 {
            Some("status proposal missing required fields"@)
        } else {
            match review_item(events, id) {
                None => Some("item "@ + id + " not found in project record"@),
                Some(it) => if !statuses_of(it.item_type).contains(proposed) {
                    Some("invalid status "@ + proposed + " for type "@ + it.item_type)
                } else if latest_status(events, id) == Some(proposed) {
                    Some("status already set to proposed value"@)
                } else {
                    None
                },
            }
        }
    } else if ptype == "priority"@ {
        let id = member(p, "item_id"@);
        let proposed = member(p, "proposed_priority"@);
        if id.len() == 0 || proposed.len() == 0 {
            Some("priority proposal missing required fields"@)
        } else if review_item(events, id) is None {
            Some("item "@ + id + " not found in project record"@)
        } else if !crate::status::valid_priority(proposed) {
            Some("invalid priority "@ + proposed)
        } else if latest_priority(events, id) == Some(proposed) {
            Some("priority already set to proposed value"@)
        } else {
            None
        }
    } else {
        Some("unknown proposal type "@ + ptype)
    }
}

/// A string member of a proposal, or the empty string.
fn member_of<'a>(p: &'a Json, k: &str) -> (r: &'a str)
    ensures
        r@ == member(*p, k@),
{
    match jstr(p, k) {
        Some(x) => x,
        None => {
            proof { reveal_strlit(""); }
            ""
        },
    }
}

/// Whether the links hold the given one.
fn holds_triple(links: &Vec<(String, String, String)>, s: &str, lt: &str, t: &str) -> (r: bool)
    ensures
        r == triples_view(links@).contains((s@, lt@, t@)),
{
    let mut i: usize = 0;
    while i < links.len()
        invariant
            i <= links.len(),
            forall|k: int| 0 <= k < i ==> triples_view(links@)[k] != (s@, lt@, t@),
        decreases links.len() - i,
    {
        if same_triple(&links[i], s, lt, t) {
            proof { assert(triples_view(links@)[i as int] == (s@, lt@, t@)); }
            return true;
        }
        i = i + 1;
    }
    false
}

/// `a + b + c` as a string.
fn text3(a: &str, b: &str, c: &str) -> (r: String)
    ensures
        r@ == a@ + b@ + c@,
{
    crate::text::cat3(a, b, c)
}

/// Checks a link proposal.
fn link_problem(p: &Json, registry: &Vec<RecordedItem>, links: &Vec<(String, String, String)>, Ghost(events): Ghost<Seq<Json>>) -> (r: Option<String>)
    requires
        items_view(registry@) == session_items_of(events),
        triples_view(links@) == review_links(events),
        member(*p, "type"@) == "link"@,
    ensures
        ov(r) == proposal_problem(*p, events),
{
    let src = member_of(p, "source_id");
    let lt = member_of(p, "link_type");
    let tgt = member_of(p, "target_id");
    if src.unicode_len() == 0 || lt.unicode_len() == 0 || tgt.unicode_len() == 0 {
        return Some("link proposal missing required fields".to_owned());
    }
    let si = match review_lookup(registry, src, Ghost(events)) {
        Some(k) => k,
        None => return Some(text3("source item ", src, " not found in project record")),
    };
    let ti = match review_lookup(registry, tgt, Ghost(events)) {
        Some(k) => k,
        None => return Some(text3("target item ", tgt, " not found in project record")),
    };
    let st = registry[si].item_type.as_str();
    let tt = registry[ti].item_type.as_str();
    if !is_valid_link_type(lt, st, tt) {
        let mut m = text3("invalid link type ", lt, " for ");
        m.append(st);
        m.append("->");
        m.append(tt);
        return Some(m);
    }
    if holds_triple(links, src, lt, tgt) {
        return Some("link already exists".to_owned());
    }
    None
}

/// Checks a status proposal.
fn status_problem(p: &Json, registry: &Vec<RecordedItem>, events: &Vec<Json>) -> (r: Option<String>)
    requires
        items_view(registry@) == session_items_of(events@),
        member(*p, "type"@) == "status"@,
    ensures
        ov(r) == proposal_problem(*p, events@),
{
    proof {
        reveal_strlit("status");
        reveal_strlit("link");
        assert("status"@[0] != "link"@[0]);
    }
    let id = member_of(p, "item_id");
    let proposed = member_of(p, "proposed_status");
    if id.unicode_len() == 0 || proposed.unicode_len() == 0 {
        return Some("status proposal missing required fields".to_owned());
    }
    let k = match review_lookup(registry, id, Ghost(events@)) {
        Some(k) => k,
        None => return Some(text3("item ", id, " not found in project record")),
    };
    let it = registry[k].item_type.as_str();
    if !status_listed(it, proposed) {
        let mut m = text3("invalid status ", proposed, " for type ");
        m.append(it);
        return Some(m);
    }
    match current_status(events, id) {
        Some(c) => {
            if str_eq(c.as_str(), proposed) {
                return Some("status already set to proposed value".to_owned());
            }
        },
        None => {},
    }
    None
}

/// Checks a priority proposal.
fn priority_problem(p: &Json, registry: &Vec<RecordedItem>, events: &Vec<Json>) -> (r: Option<String>)
    requires
        items_view(registry@) == session_items_of(events@),
        member(*p, "type"@) == "priority"@,
    ensures
        ov(r) == proposal_problem(*p, events@),
{
    proof {
        reveal_strlit("status");
        reveal_strlit("link");
        reveal_strlit("priority");
        assert("priority"@[0] != "link"@[0]);
        assert("priority"@[0] != "status"@[0]);
    }
    let id = member_of(p, "item_id");
    let proposed = member_of(p, "proposed_priority");
    if id.unicode_len() == 0 || proposed.unicode_len() == 0 {
        return Some("priority proposal missing required fields".to_owned());
    }
    if review_lookup(registry, id, Ghost(events@)).is_none() {
        return Some(text3("item ", id, " not found in project record"));
    }
    if !crate::status::is_valid_priority(proposed) {
        return Some(crate::text::cat2("invalid priority ", proposed));
    }
    match current_priority(events, id) {
        Some(c) => {
            if str_eq(c.as_str(), proposed) {
                return Some("priority already set to proposed value".to_owned());
            }
        },
        None => {},
    }
    None
}

/// Checks a proposal against the record: `None` when it is valid, else
/// the reason it is skipped.
pub fn validate_proposal(proposal: &Json, registry: &Vec<RecordedItem>, active_links: &Vec<(String, String, String)>,
    events: &Vec<Json>) -> (r: Option<String>)
    requires
        items_view(registry@) == session_items_of(events@),
        triples_view(active_links@) == review_links(events@),
    ensures
        ov(r) == proposal_problem(*proposal, events@),
{
    let ptype = member_of(proposal, "type");
    if str_eq(ptype, "link") {
        link_problem(proposal, registry, active_links, Ghost(events@))
    } else if str_eq(ptype, "status") {
        status_problem(proposal, registry, events)
    } else if str_eq(ptype, "priority") {
        priority_problem(proposal, registry, events)
    } else {
        Some(crate::text::cat2("unknown proposal type ", ptype))
    }
}


// ─── Reviews ──────────────────────────────────────────────────────────────────

/// A list of strings as a JSON value.
pub open spec fn str_list(s: Seq<Seq<char>>) -> JView {
    JView::List(s.map_values(|x: Seq<char>| JView::Str(x)))
}

/// Starts a review of the record: when the incorporated sessions hold no
/// item, records `OntologyReviewFailedEmptyRecord` and gives `None`;
/// otherwise records `OntologyReviewRequested` with the number of distinct
/// items and gives the snapshot to show the proposer.
pub fn begin_review(events: &Vec<Json>, cid: &str, outbox: &mut Vec<OutEvent>) -> (r: Option<String>)
    ensures
        review_ids(events@).len() == 0 ==> r is None && crate::payload::appended(old(outbox)@, final(outbox)@, review_module(), cid@,
            seq![("OntologyReviewFailedEmptyRecord"@, seq![("failure_reason"@, JView::Str("empty_project_record"@))])]),
        review_ids(events@).len() > 0 ==> crate::payload::appended(old(outbox)@, final(outbox)@, review_module(), cid@,
            seq![("OntologyReviewRequested"@, seq![("item_count"@, JView::Num(review_ids(events@).len() as u64))])]),
        review_ids(events@).len() > 0 ==> (r matches Some(snap) && exists|ids: Seq<Seq<char>>| strictly_sorted(ids)
            && ids.to_set() == review_ids(events@) && snap@ == snapshot_text(events@, ids)),
{
    let ghost start = outbox@;
    proof { crate::payload::lemma_appended_none(start, review_module(), cid@); }
    let registry = build_item_registry(events);
    let mut all_ids: Vec<String> = Vec::new();
    for i in 0..registry.len()
        invariant
            all_ids.len() == i,
            i <= registry.len(),
            forall|k: int| 0 <= k < i ==> (#[trigger] all_ids@[k])@ == registry@[k].item_id@,
    {
        all_ids.push(registry[i].item_id.clone());
    }
    proof {
        assert(views(all_ids@) =~= items_view(registry@).map_values(|it: ItemView| it.item_id));
    }
    let ids = sorted_distinct(&all_ids);
    proof {
        vstd::seq_lib::seq_to_set_is_finite(views(ids@));
        crate::text::lemma_strictly_sorted_distinct(views(ids@));
        views(ids@).unique_seq_to_set();
    }
    if ids.len() == 0 {
        emit(outbox, "OntologyReviewFailedEmptyRecord", "ontology_suggest", cid, payload1("failure_reason", js("empty_project_record")));
        proof {
            crate::payload::lemma_appended_push(start, start, outbox@, review_module(), cid@, Seq::empty(),
                ("OntologyReviewFailedEmptyRecord"@, seq![("failure_reason"@, JView::Str("empty_project_record"@))]));
        }
        return None;
    }
    emit(outbox, "OntologyReviewRequested", "ontology_suggest", cid, payload1("item_count", Json::Num(ids.len() as u64)));
    proof {
        crate::payload::lemma_appended_push(start, start, outbox@, review_module(), cid@, Seq::empty(),
            ("OntologyReviewRequested"@, seq![("item_count"@, JView::Num(review_ids(events@).len() as u64))]));
    }
    Some(build_snapshot(events))
}

/// Records that the proposer could not be reached.
pub fn review_proposer_failed(detail: &str, cid: &str, outbox: &mut Vec<OutEvent>)
    ensures
        crate::payload::appended(old(outbox)@, final(outbox)@, review_module(), cid@,
            seq![("OntologyReviewFailedLLMUnavailable"@, seq![("failure_reason"@, JView::Str("llm_unavailable"@)),
                ("error_detail"@, JView::Str(detail@))])]),
{
    let ghost start = outbox@;
    proof { crate::payload::lemma_appended_none(start, review_module(), cid@); }
    emit(outbox, "OntologyReviewFailedLLMUnavailable", "ontology_suggest", cid,
        payload2("failure_reason", js("llm_unavailable"), "error_detail", js(detail)));
    proof {
        crate::payload::lemma_appended_push(start, start, outbox@, review_module(), cid@, Seq::empty(),
            ("OntologyReviewFailedLLMUnavailable"@, seq![("failure_reason"@, JView::Str("llm_unavailable"@)),
                ("error_detail"@, JView::Str(detail@))]));
    }
}

/// The first element of an array, or the member `0` of an object (the
/// step `/0` of a JSON pointer).
pub open spec fn at0(v: Json) -> Option<Json> {
    match v {
        Json::List(l) => if l.len() > 0 { Some(l@[0]) } else { None },
        Json::Obj(m) => crate::seqs::lookup(m@, "0"@),
        _ => None,
    }
}

/// The text of a proposer reply (`/candidates/0/content/parts/0/text`).
pub open spec fn reply_text_of(resp: Json) -> Option<Seq<char>> {
    match at0(get(resp, "candidates"@)) {
        Some(c) => match at0(get(get(c, "content"@), "parts"@)) {
            Some(p) => crate::payload::as_str(get(p, "text"@)),
            None => None,
        },
        None => None,
    }
}

/// The step `/0` of a JSON pointer.
fn at0_exec(v: &Json) -> (r: Option<&Json>)
    ensures
        match at0(*v) {
            Some(x) => r matches Some(y) && *y == x,
            None => r is None,
        },
{
    match v {
        Json::List(l) => if l.len() > 0 { Some(&l[0]) } else { None },
        Json::Obj(m) => match crate::seqs::find_key(m, "0") {
            Some(i) => Some(&m[i].1),
            None => None,
        },
        _ => None,
    }
}

/// The text of a proposer reply.
pub fn reply_text(resp: &Json) -> (r: Option<String>)
    ensures
        ov(r) == reply_text_of(*resp),
{
    let cands = match jget(resp, "candidates") { Some(c) => c, None => return None };
    let c = match at0_exec(cands) { Some(c) => c, None => return None };
    let content = match jget(c, "content") { Some(x) => x, None => return None };
    let parts = match jget(content, "parts") { Some(x) => x, None => return None };
    let p = match at0_exec(parts) { Some(p) => p, None => return None };
    own(jstr(p, "text"))
}

/// `s` without every leading copy of `p` (`str::trim_start_matches`).
pub open spec fn strip_leading(s: Seq<char>, p: Seq<char>) -> Seq<char>
    decreases s.len(),
{
    if p.len() > 0 && crate::chars::starts_with(s, p) {
        strip_leading(s.skip(p.len() as int), p)
    } else {
        s
    }
}

/// `s` ends with `p`.
pub open spec fn ends_with(s: Seq<char>, p: Seq<char>) -> bool {
    p.len() <= s.len() && s.skip(s.len() - p.len()) == p
}

/// `s` without every trailing copy of `p` (`str::trim_end_matches`).
pub open spec fn strip_trailing(s: Seq<char>, p: Seq<char>) -> Seq<char>
    decreases s.len(),
{
    if p.len() > 0 && ends_with(s, p) {
        strip_trailing(s.take(s.len() - p.len()), p)
    } else {
        s
    }
}

/// A proposer reply without white space and code fences around it.
pub open spec fn cleaned(text: Seq<char>) -> Seq<char> {
    trim(strip_trailing(strip_leading(strip_leading(trim(text), "```json"@), "```"@), "```"@))
}

/// Where `v[lo..hi]` starts once every leading copy of `p` is skipped.
fn strip_leading_in(v: &Vec<char>, lo: usize, hi: usize, p: &str) -> (a: usize)
    requires
        lo <= hi <= v.len(),
    ensures
        lo <= a <= hi,
        v@.subrange(a as int, hi as int) == strip_leading(v@.subrange(lo as int, hi as int), p@),
{
    let m = p.unicode_len();
    let mut a = lo;
    while m > 0 && crate::chars::has_prefix(v, a, hi, p)
        invariant
            lo <= a <= hi <= v.len(),
            m == p@.len(),
            strip_leading(v@.subrange(lo as int, hi as int), p@) == strip_leading(v@.subrange(a as int, hi as int), p@),
        decreases hi - a,
    {
        proof { assert(v@.subrange(a as int, hi as int).skip(m as int) =~= v@.subrange(a + m, hi as int)); }
        a = a + m;
    }
    a
}

/// Where `v[lo..hi]` ends once every trailing copy of `p` is dropped.
pub(crate) fn strip_trailing_in(v: &Vec<char>, lo: usize, hi: usize, p: &str) -> (b: usize)
    requires
        lo <= hi <= v.len(),
    ensures
        lo <= b <= hi,
        v@.subrange(lo as int, b as int) == strip_trailing(v@.subrange(lo as int, hi as int), p@),
{
    let m = p.unicode_len();
    let mut b = hi;
    loop
        invariant
            lo <= b <= hi <= v.len(),
            m == p@.len(),
            strip_trailing(v@.subrange(lo as int, hi as int), p@) == strip_trailing(v@.subrange(lo as int, b as int), p@),
        decreases b - lo,
    {
        if m == 0 || b - lo < m {
            return b;
        }
        let ends = crate::chars::has_prefix(v, b - m, b, p);
        proof {
            assert(v@.subrange(lo as int, b as int).skip(b - lo - m) =~= v@.subrange(b - m, b as int));
            assert(v@.subrange(b - m, b as int).take(m as int) =~= v@.subrange(b - m, b as int));
        }
        if !ends {
            return b;
        }
        proof { assert(v@.subrange(lo as int, b as int).take(b - lo - m) =~= v@.subrange(lo as int, b - m)); }
        b = b - m;
    }
}

/// A proposer reply without white space and code fences around it.
pub fn clean_reply(text: &str) -> (r: String)
    ensures
        r@ == cleaned(text@),
{
    let v = chars_of(text);
    proof { assert(v@.subrange(0, v.len() as int) =~= v@); }
    let (a, b) = trim_bounds(&v, 0, v.len());
    let a1 = strip_leading_in(&v, a, b, "```json");
    let a2 = strip_leading_in(&v, a1, b, "```");
    let b1 = strip_trailing_in(&v, a2, b, "```");
    let (x, y) = trim_bounds(&v, a2, b1);
    string_of(&v, x, y)
}

/// The proposals of a parsed proposer reply (its `proposals` array).
pub fn reply_proposals(parsed: &Json) -> (r: Option<&Vec<Json>>)
    ensures
        match as_array(get(*parsed, "proposals"@)) {
            Some(a) => r matches Some(x) && x@ == a,
            None => r is None,
        },
{
    jarr(parsed, "proposals")
}

/// The proposal passes the checks.
pub open spec fn passes(events: Seq<Json>) -> spec_fn(Json) -> bool {
    |p: Json| proposal_problem(p, events) is None
}

/// Ends a review with the proposer's proposals: records
/// `OntologyReviewProposed` with the review identifier and the proposals
/// that pass the checks, in order; gives their number.
pub fn finish_review(events: &Vec<Json>, proposals: Vec<Json>, review_id: &str, cid: &str, outbox: &mut Vec<OutEvent>) -> (r: usize)
    ensures
        ({
            let valid = proposals@.filter(passes(events@));
            &&& r == valid.len()
            &&& crate::payload::appended(old(outbox)@, final(outbox)@, review_module(), cid@,
                seq![("OntologyReviewProposed"@, seq![("review_id"@, JView::Str(review_id@)), ("proposal_count"@, JView::Num(valid.len() as u64)),
                    ("proposals"@, JView::List(valid.map_values(|p: Json| jv(p))))])])
        }),
{
    let ghost start = outbox@;
    let ghost all = proposals@;
    let ghost f = passes(events@);
    let registry = build_item_registry(events);
    let links = build_active_links(events);
    let mut valid: Vec<Json> = Vec::new();
    let mut rest = proposals;
    let mut i: usize = 0;
    let n = rest.len();
    while rest.len() > 0
        invariant
            f == passes(events@),
            items_view(registry@) == session_items_of(events@),
            triples_view(links@) == review_links(events@),
            n == all.len(),
            i + rest.len() == n,
            rest@ == all.skip(i as int),
            valid@ == all.take(i as int).filter(f),
        decreases rest.len(),
    {
        let p = rest.remove(0);
        proof {
            assert(p == all[i as int]);
            assert(all.take(i + 1).drop_last() =~= all.take(i as int));
            assert(all.take(i + 1).last() == all[i as int]);
            assert(rest@ =~= all.skip(i + 1));
            reveal(Seq::filter);
        }
        let ok = validate_proposal(&p, &registry, &links, events).is_none();
        if ok {
            valid.push(p);
        }
        i = i + 1;
    }
    proof { assert(all.take(n as int) =~= all); }
    let count = valid.len();
    let ghost vv = valid@;
    let lst = Json::List(valid);
    proof {
        match jv(lst) {
            JView::List(x) => { assert(x =~= vv.map_values(|p: Json| jv(p))); },
            _ => {},
        }
    }
    proof { crate::payload::lemma_appended_none(start, review_module(), cid@); }
    emit(outbox, "OntologyReviewProposed", "ontology_suggest", cid,
        payload3("review_id", js(review_id), "proposal_count", Json::Num(count as u64), "proposals", lst));
    proof {
        crate::payload::lemma_appended_push(start, start, outbox@, review_module(), cid@, Seq::empty(),
            ("OntologyReviewProposed"@, seq![("review_id"@, JView::Str(review_id@)), ("proposal_count"@, JView::Num(vv.len() as u64)),
                    ("proposals"@, JView::List(vv.map_values(|p: Json| jv(p))))]));
    }
    count
}


// ─── Confirming a review ──────────────────────────────────────────────────────

/// The event is the proposal of review `rid`.
pub open spec fn proposes_review(rid: Seq<char>) -> spec_fn(Json) -> bool {
    |e: Json| str_of(e, "event_type"@) == Some("OntologyReviewProposed"@) && pstr_of(e, "review_id"@) == Some(rid)
}

/// The proposals of the first proposal event of review `rid`, if there is
/// one (none when it lists no array).
pub open spec fn review_proposals(events: Seq<Json>, rid: Seq<char>) -> Option<Seq<Json>> {
    match first_index(events, proposes_review(rid)) {
        Some(k) => Some(match as_array(get(get(events[k], "payload"@), "proposals"@)) {
            Some(a) => a,
            None => Seq::empty(),
        }),
        None => None,
    }
}

/// The identifier of a proposal, if it has one.
pub open spec fn proposal_id(p: Json) -> Option<Seq<char>> {
    str_of(p, "proposal_id"@)
}

/// The proposal has identifier `pid`.
pub open spec fn has_proposal_id(pid: Seq<char>) -> spec_fn(Json) -> bool {
    |p: Json| str_of(p, "proposal_id"@) == Some(pid)
}

/// The type of the review's item `id`, or `unknown`.
pub open spec fn review_type(events: Seq<Json>, id: Seq<char>) -> Seq<char> {
    match review_item(events, id) {
        Some(it) => it.item_type,
        None => "unknown"@,
    }
}

/// The event that applies a proposal: a link is recorded by item links, a
/// status or a priority by item status.
pub open spec fn applying_event(p: Json, events: Seq<Json>) -> Option<ModuleEvent> {
    let t = member(p, "type"@);
    if t == "link"@ {
        let src = member(p, "source_id"@);
        let tgt = member(p, "target_id"@);
        Some(("item_links"@, ("ItemLinked"@, seq![("source_id"@, JView::Str(src)), ("source_type"@, JView::Str(review_type(events, src))),
            ("link_type"@, JView::Str(member(p, "link_type"@))), ("target_id"@, JView::Str(tgt)),
            ("target_type"@, JView::Str(review_type(events, tgt)))])))
    } else if t == "status"@ {
        let id = member(p, "item_id"@);
        Some(("item_status"@, ("ItemStatusUpdated"@, seq![("item_id"@, JView::Str(id)), ("item_type"@, JView::Str(review_type(events, id))),
            ("new_status"@, JView::Str(member(p, "proposed_status"@))), ("previous_status"@, jopt_v(latest_status(events, id)))])))
    } else if t == "priority"@ {
        let id = member(p, "item_id"@);
        Some(("item_status"@, ("ItemPriorityUpdated"@, seq![("item_id"@, JView::Str(id)),
            ("new_priority"@, JView::Str(member(p, "proposed_priority"@))), ("previous_priority"@, jopt_v(latest_priority(events, id)))])))
    } else {
        None
    }
}

/// Where a confirmation stands: the events decided, the proposals applied
/// and skipped, and the reasons proposals failed their checks.
pub ghost struct ConfirmState {
    pub evs: Seq<ModuleEvent>,
    pub applied: Seq<Seq<char>>,
    pub skipped: Seq<Seq<char>>,
    pub reasons: Seq<(Seq<char>, Seq<char>)>,
}

/// Confirming one accepted proposal identifier: an identifier no proposal
/// of the review has, or a proposal that fails its checks, is skipped;
/// otherwise the proposal is applied.
pub open spec fn confirm_step(events: Seq<Json>, all: Seq<Json>, st: ConfirmState, pid: Seq<char>) -> ConfirmState {
    match first_index(all, has_proposal_id(pid)) {
        None => ConfirmState { skipped: st.skipped.push(pid), ..st },
        Some(k) => match proposal_problem(all[k], events) {
            Some(reason) => ConfirmState { skipped: st.skipped.push(pid), reasons: st.reasons.push((pid, reason)), ..st },
            None => match applying_event(all[k], events) {
                Some(me) => ConfirmState { evs: st.evs.push(me), applied: st.applied.push(pid), ..st },
                None => ConfirmState { skipped: st.skipped.push(pid), ..st },
            },
        },
    }
}

/// Confirming the accepted identifiers in turn.
pub open spec fn confirm_fold(events: Seq<Json>, all: Seq<Json>, ids: Seq<Seq<char>>) -> ConfirmState
    decreases ids.len(),
{
    if ids.len() == 0 {
        ConfirmState { evs: Seq::empty(), applied: Seq::empty(), skipped: Seq::empty(), reasons: Seq::empty() }
    } else {
        confirm_step(events, all, confirm_fold(events, all, ids.drop_last()), ids.last())
    }
}

/// The identifiers accepted: every proposal identifier of the review when
/// all are accepted, else those given.
pub open spec fn accepted_ids_of(all: Seq<Json>, accept: Seq<Seq<char>>, accept_all: bool) -> Seq<Seq<char>> {
    if accept_all { all.filter_map(|p: Json| proposal_id(p)) } else { accept }
}

/// A review event.
pub open spec fn review_ev(etype: Seq<char>, fields: Seq<(Seq<char>, JView)>) -> ModuleEvent {
    (review_module(), (etype, fields))
}

/// The events confirming review `rid` decides: `OntologyConfirmFailedReviewNotFound`
/// when no event proposes it; otherwise `OntologyConfirmRequested`, the
/// events applying the accepted proposals that pass their checks, and
/// `OntologyReviewConfirmed` with what was applied, rejected and skipped.
pub open spec fn confirm_events(events: Seq<Json>, rid: Seq<char>, accept: Seq<Seq<char>>, reject: Seq<Seq<char>>, accept_all: bool) -> Seq<ModuleEvent> {
    match review_proposals(events, rid) {
        None => seq![review_ev("OntologyConfirmFailedReviewNotFound"@, seq![("failure_reason"@, JView::Str("review_not_found"@)),
            ("review_id"@, JView::Str(rid))])],
        Some(all) => {
            let ids = accepted_ids_of(all, accept, accept_all);
            let st = confirm_fold(events, all, ids);
            seq![review_ev("OntologyConfirmRequested"@, seq![("review_id"@, JView::Str(rid)), ("accepted_ids"@, str_list(ids)),
                ("rejected_ids"@, str_list(reject))])]
            + st.evs
            + seq![review_ev("OntologyReviewConfirmed"@, seq![("review_id"@, JView::Str(rid)),
                ("accepted_count"@, JView::Num(st.applied.len() as u64)), ("rejected_count"@, JView::Num(reject.len() as u64)),
                ("skipped_count"@, JView::Num(st.skipped.len() as u64)), ("accepted_ids"@, str_list(st.applied)),
                ("rejected_ids"@, str_list(reject)), ("skipped_ids"@, str_list(st.skipped))])]
        },
    }
}

/// The outcome of confirming a review.
pub enum ConfirmOutcome {
    /// No event proposes the review.
    ReviewNotFound,
    /// The review was confirmed; `reasons` pairs each proposal that failed
    /// its checks with the reason.
    Confirmed { applied: Vec<String>, skipped: Vec<String>, reasons: Vec<(String, String)> },
}

/// The position of the first event proposing review `rid`.
fn find_review(events: &Vec<Json>, rid: &str) -> (r: Option<usize>)
    ensures
        match first_index(events@, proposes_review(rid@)) {
            Some(k) => r == Some(k as usize) && 0 <= k < events.len(),
            None => r is None,
        },
{
    let mut i: usize = 0;
    while i < events.len()
        invariant
            i <= events.len(),
            forall|k: int| 0 <= k < i ==> !proposes_review(rid@)(#[trigger] events@[k]),
        decreases events.len() - i,
    {
        let e = &events[i];
        let hit = match (jstr(e, "event_type"), jpstr(e, "review_id")) {
            (Some(t), Some(x)) => str_eq(t, "OntologyReviewProposed") && str_eq(x, rid),
            _ => false,
        };
        if hit {
            proof {
                assert(is_first(events@, proposes_review(rid@), i as int));
                lemma_first_index(events@, proposes_review(rid@), i as int);
            }
            return Some(i);
        }
        i = i + 1;
    }
    proof { lemma_first_index_none(events@, proposes_review(rid@)); }
    None
}

/// The first proposal with identifier `pid`.
fn find_proposal(all: &Vec<Json>, pid: &str) -> (r: Option<usize>)
    ensures
        match first_index(all@, has_proposal_id(pid@)) {
            Some(k) => r == Some(k as usize) && 0 <= k < all.len(),
            None => r is None,
        },
{
    let mut i: usize = 0;
    while i < all.len()
        invariant
            i <= all.len(),
            forall|k: int| 0 <= k < i ==> !has_proposal_id(pid@)(#[trigger] all@[k]),
        decreases all.len() - i,
    {
        let hit = match jstr(&all[i], "proposal_id") {
            Some(x) => str_eq(x, pid),
            None => false,
        };
        if hit {
            proof {
                assert(is_first(all@, has_proposal_id(pid@), i as int));
                lemma_first_index(all@, has_proposal_id(pid@), i as int);
            }
            return Some(i);
        }
        i = i + 1;
    }
    proof { lemma_first_index_none(all@, has_proposal_id(pid@)); }
    None
}

/// The type of the registry's item `id`, or `unknown`.
fn review_type_exec(registry: &Vec<RecordedItem>, id: &str, Ghost(events): Ghost<Seq<Json>>) -> (r: String)
    requires
        items_view(registry@) == session_items_of(events),
    ensures
        r@ == review_type(events, id@),
{
    match review_lookup(registry, id, Ghost(events)) {
        Some(k) => registry[k].item_type.clone(),
        None => "unknown".to_owned(),
    }
}

/// Applies a proposal that passed its checks.
fn apply_proposal(p: &Json, registry: &Vec<RecordedItem>, events: &Vec<Json>, cid: &str, outbox: &mut Vec<OutEvent>,
    Ghost(start): Ghost<Seq<OutEvent>>, Ghost(evs): Ghost<Seq<ModuleEvent>>) -> (applied: bool)
    requires
        items_view(registry@) == session_items_of(events@),
        appended_in(start, old(outbox)@, cid@, evs),
    ensures
        applied == applying_event(*p, events@) is Some,
        appended_in(start, final(outbox)@, cid@, match applying_event(*p, events@) { Some(me) => evs.push(me), None => evs }),
{
    let t = member_of(p, "type");
    let ghost mid = outbox@;
    if str_eq(t, "link") {
        let src = member_of(p, "source_id");
        let tgt = member_of(p, "target_id");
        let st = review_type_exec(registry, src, Ghost(events@));
        let tt = review_type_exec(registry, tgt, Ghost(events@));
        emit(outbox, "ItemLinked", "item_links", cid,
            payload5("source_id", js(src), "source_type", js(st.as_str()), "link_type", js(member_of(p, "link_type")),
                "target_id", js(tgt), "target_type", js(tt.as_str())));
        proof { lemma_appended_in_push(start, mid, outbox@, cid@, evs, applying_event(*p, events@).unwrap()); }
        true
    } else if str_eq(t, "status") {
        proof { reveal_strlit("status"); reveal_strlit("link"); assert("status"@[0] != "link"@[0]); }
        let id = member_of(p, "item_id");
        let it = review_type_exec(registry, id, Ghost(events@));
        let prev = current_status(events, id);
        emit(outbox, "ItemStatusUpdated", "item_status", cid,
            crate::payload::payload4("item_id", js(id), "item_type", js(it.as_str()), "new_status", js(member_of(p, "proposed_status")),
                "previous_status", jo(&prev)));
        proof { lemma_appended_in_push(start, mid, outbox@, cid@, evs, applying_event(*p, events@).unwrap()); }
        true
    } else if str_eq(t, "priority") {
        proof {
            reveal_strlit("status"); reveal_strlit("link"); reveal_strlit("priority");
            assert("priority"@[0] != "link"@[0]);
            assert("priority"@[0] != "status"@[0]);
        }
        let id = member_of(p, "item_id");
        let prev = current_priority(events, id);
        emit(outbox, "ItemPriorityUpdated", "item_status", cid,
            payload3("item_id", js(id), "new_priority", js(member_of(p, "proposed_priority")), "previous_priority", jo(&prev)));
        proof { lemma_appended_in_push(start, mid, outbox@, cid@, evs, applying_event(*p, events@).unwrap()); }
        true
    } else {
        false
    }
}

/// Confirms review `review_id` against the log `events`: the accepted
/// proposal identifiers (all of the review's when `accept_all`) are applied
/// when their proposals pass the checks, and skipped otherwise. Appends the
/// events of `confirm_events`.
pub fn confirm_review(events: &Vec<Json>, review_id: &str, accept: &Vec<String>, reject: &Vec<String>, accept_all: bool,
    cid: &str, outbox: &mut Vec<OutEvent>) -> (r: ConfirmOutcome)
    ensures
        appended_in(old(outbox)@, final(outbox)@, cid@, confirm_events(events@, review_id@, views(accept@), views(reject@), accept_all)),
        review_proposals(events@, review_id@) is None <==> r is ReviewNotFound,
        r matches ConfirmOutcome::Confirmed { applied, skipped, reasons } ==> ({
            let all = review_proposals(events@, review_id@).unwrap();
            let st = confirm_fold(events@, all, accepted_ids_of(all, views(accept@), accept_all));
            views(applied@) == st.applied && views(skipped@) == st.skipped
                && reasons@.map_values(|x: (String, String)| (x.0@, x.1@)) == st.reasons
        }),
{
    let ghost start = outbox@;
    proof { lemma_appended_in_none(start, cid@); }
    let k = match find_review(events, review_id) {
        Some(k) => k,
        None => {
            emit(outbox, "OntologyConfirmFailedReviewNotFound", "ontology_suggest", cid,
                payload2("failure_reason", js("review_not_found"), "review_id", js(review_id)));
            proof {
                lemma_appended_in_push(start, start, outbox@, cid@, Seq::empty(),
                    review_ev("OntologyConfirmFailedReviewNotFound"@, seq![("failure_reason"@, JView::Str("review_not_found"@)),
                        ("review_id"@, JView::Str(review_id@))]));
                assert(Seq::<ModuleEvent>::empty().push(review_ev("OntologyConfirmFailedReviewNotFound"@, seq![("failure_reason"@, JView::Str("review_not_found"@)),
                        ("review_id"@, JView::Str(review_id@))])) =~= confirm_events(events@, review_id@, views(accept@), views(reject@), accept_all));
            }
            return ConfirmOutcome::ReviewNotFound;
        },
    };
    let empty: Vec<Json> = Vec::new();
    let all: &Vec<Json> = match jpayload(&events[k]) {
        Some(pl) => match jarr(pl, "proposals") {
            Some(a) => a,
            None => &empty,
        },
        None => &empty,
    };
    let ghost allv = all@;
    proof { assert(review_proposals(events@, review_id@) == Some(allv)); }
    let mut ids: Vec<String> = Vec::new();
    if accept_all {
        let ghost f = |p: Json| proposal_id(p);
        for i in 0..all.len()
            invariant
                allv == all@,
                f == (|p: Json| proposal_id(p)),
                views(ids@) == allv.take(i as int).filter_map(f),
        {
            proof {
                assert(allv.take(i + 1) =~= allv.take(i as int).push(allv[i as int]));
                lemma_filter_map_push(allv.take(i as int), allv[i as int], f);
            }
            let ghost before = views(ids@);
            match jstr(&all[i], "proposal_id") {
                Some(x) => {
                    ids.push(x.to_owned());
                    proof { assert(views(ids@) =~= before.push(x@)); }
                },
                None => {},
            }
        }
        proof { assert(allv.take(all.len() as int) =~= allv); }
    } else {
        for i in 0..accept.len()
            invariant
                views(ids@) == views(accept@.take(i as int)),
        {
            let ghost before = views(ids@);
            ids.push(accept[i].clone());
            proof {
                assert(views(ids@) =~= before.push(accept@[i as int]@));
                assert(views(accept@.take(i + 1)) =~= views(accept@.take(i as int)).push(accept@[i as int]@));
            }
        }
        proof { assert(accept@.take(accept.len() as int) =~= accept@); }
    }
    let ghost idv = views(ids@);
    proof { assert(idv == accepted_ids_of(allv, views(accept@), accept_all)); }
    let ghost req = review_ev("OntologyConfirmRequested"@, seq![("review_id"@, JView::Str(review_id@)), ("accepted_ids"@, str_list(idv)),
                ("rejected_ids"@, str_list(views(reject@)))]);
    emit(outbox, "OntologyConfirmRequested", "ontology_suggest", cid,
        payload3("review_id", js(review_id), "accepted_ids", jlist(&ids), "rejected_ids", jlist(reject)));
    proof { lemma_appended_in_push(start, start, outbox@, cid@, Seq::empty(), req); }
    let registry = build_item_registry(events);
    let links = build_active_links(events);
    let mut applied: Vec<String> = Vec::new();
    let mut skipped: Vec<String> = Vec::new();
    let mut reasons: Vec<(String, String)> = Vec::new();
    proof { assert(idv.take(0) =~= Seq::<Seq<char>>::empty()); }
    for i in 0..ids.len()
        invariant
            allv == all@,
            idv == views(ids@),
            items_view(registry@) == session_items_of(events@),
            triples_view(links@) == review_links(events@),
            ({
                let st = confirm_fold(events@, allv, idv.take(i as int));
                &&& appended_in(start, outbox@, cid@, seq![req] + st.evs)
                &&& views(applied@) == st.applied
                &&& views(skipped@) == st.skipped
                &&& reasons@.map_values(|x: (String, String)| (x.0@, x.1@)) == st.reasons
            }),
    {
        let ghost st = confirm_fold(events@, allv, idv.take(i as int));
        proof {
            assert(idv.take(i + 1).drop_last() =~= idv.take(i as int));
            assert(idv.take(i + 1).last() == ids@[i as int]@);
        }
        let pid = ids[i].as_str();
        let ghost ab = views(applied@);
        let ghost sb = views(skipped@);
        let ghost rb = reasons@.map_values(|x: (String, String)| (x.0@, x.1@));
        match find_proposal(all, pid) {
            None => {
                skipped.push(pid.to_owned());
                proof { assert(views(skipped@) =~= sb.push(pid@)); }
            },
            Some(j) => {
                match validate_proposal(&all[j], &registry, &links, events) {
                    Some(reason) => {
                        skipped.push(pid.to_owned());
                        reasons.push((pid.to_owned(), reason));
                        proof {
                            assert(views(skipped@) =~= sb.push(pid@));
                            assert(reasons@.map_values(|x: (String, String)| (x.0@, x.1@)) =~= rb.push((pid@, reasons@.last().1@)));
                        }
                    },
                    None => {
                        proof { assert(seq![req] + st.evs =~= seq![req] + st.evs); }
                        let done = apply_proposal(&all[j], &registry, events, cid, outbox, Ghost(start), Ghost(seq![req] + st.evs));
                        if done {
                            applied.push(pid.to_owned());
                            proof {
                                assert(views(applied@) =~= ab.push(pid@));
                                assert((seq![req] + st.evs).push(applying_event(allv[j as int], events@).unwrap())
                                    =~= seq![req] + st.evs.push(applying_event(allv[j as int], events@).unwrap()));
                            }
                        } else {
                            skipped.push(pid.to_owned());
                            proof { assert(views(skipped@) =~= sb.push(pid@)); }
                        }
                    },
                }
            },
        }
    }
    proof { assert(idv.take(ids.len() as int) =~= idv); }
    let ghost st = confirm_fold(events@, allv, idv);
    let ghost mid = outbox@;
    let mut fields = crate::payload::payload4("review_id", js(review_id), "accepted_count", Json::Num(applied.len() as u64),
        "rejected_count", Json::Num(reject.len() as u64), "skipped_count", Json::Num(skipped.len() as u64));
    crate::payload::add_field(&mut fields, "accepted_ids", jlist(&applied));
    crate::payload::add_field(&mut fields, "rejected_ids", jlist(reject));
    crate::payload::add_field(&mut fields, "skipped_ids", jlist(&skipped));
    let ghost fv = pv(fields@);
    let ghost fin = review_ev("OntologyReviewConfirmed"@, seq![("review_id"@, JView::Str(review_id@)),
                ("accepted_count"@, JView::Num(st.applied.len() as u64)), ("rejected_count"@, JView::Num(views(reject@).len() as u64)),
                ("skipped_count"@, JView::Num(st.skipped.len() as u64)), ("accepted_ids"@, str_list(st.applied)),
                ("rejected_ids"@, str_list(views(reject@))), ("skipped_ids"@, str_list(st.skipped))]);
    proof { assert(fv =~= fin.1.1); }
    emit(outbox, "OntologyReviewConfirmed", "ontology_suggest", cid, fields);
    proof {
        lemma_appended_in_push(start, mid, outbox@, cid@, seq![req] + st.evs, fin);
        assert((seq![req] + st.evs).push(fin) =~= confirm_events(events@, review_id@, views(accept@), views(reject@), accept_all));
    }
    ConfirmOutcome::Confirmed { applied, skipped, reasons }
}

} // verus!
