//! Typed links between items: the active links a log records, and the
//! decisions of adding, removing and listing links.
use vstd::prelude::*;
use crate::text::str_eq;
use crate::seqs::{has_key, contains_key, last_index, is_last, any_of, lemma_last_index};
use crate::payload::{logs, Json, JView, OutEvent, EventSpec, appended, lemma_appended_none, lemma_appended_push, ev_is, emit,
    js, pv, payload3, pstr_of, str_of};
use crate::record::{ItemView, RecordedItem, items_view, record_items, read_all_record_items, find_last_item, has_id,
    event_is, or_empty, own_or_empty, is_event, lemma_filter_map_push};
use crate::payload::jpstr;
use crate::schema::{ProjectSchema, resolved_type, resolve_type};

verus! {

/// A link from one item to another, of a relation type.
pub struct LinkRecord {
    pub source_id: String,
    pub link_type: String,
    pub target_id: String,
}

/// A link as values: source, relation type, target.
pub type LinkView = (Seq<char>, Seq<char>, Seq<char>);

impl View for LinkRecord {
    type V = LinkView;

    open spec fn view(&self) -> LinkView {
        (self.source_id@, self.link_type@, self.target_id@)
    }
}

/// The views of a list of links.
pub open spec fn links_view(s: Seq<LinkRecord>) -> Seq<LinkView> {
    s.map_values(|l: LinkRecord| l@)
}

/// The module that records links.
pub open spec fn links_module() -> Seq<char> {
    "item_links"@
}

/// The link an `ItemLinked` or `ItemUnlinked` event names, absent fields
/// read as empty.
pub open spec fn named_link(e: Json) -> LinkView {
    (or_empty(pstr_of(e, "source_id"@)), or_empty(pstr_of(e, "link_type"@)), or_empty(pstr_of(e, "target_id"@)))
}

/// A link other than `l`.
pub open spec fn differs_from(l: LinkView) -> spec_fn(LinkView) -> bool {
    |x: LinkView| x != l
}

/// The active links after one more event: an `ItemLinked` event naming a
/// source, a type and a target adds its link; an `ItemUnlinked` event
/// removes every copy of its link; other events change nothing.
pub open spec fn link_step(links: Seq<LinkView>, e: Json) -> Seq<LinkView> {
    let l = named_link(e);
    if event_is(e, links_module(), "ItemLinked"@) {
        if l.0.len() > 0 && l.1.len() > 0 && l.2.len() > 0 {
            links.push(l)
        } else {
            links
        }
    } else if event_is(e, links_module(), "ItemUnlinked"@) {
        links.filter(differs_from(l))
    } else {
        links
    }
}

/// The active links of a log, in the order they were added.
pub open spec fn active_links(events: Seq<Json>) -> Seq<LinkView>
    decreases events.len(),
{
    if events.len() == 0 {
        Seq::empty()
    } else {
        link_step(active_links(events.drop_last()), events.last())
    }
}

/// Whether two links are the same.
fn same_link(l: &LinkRecord, s: &str, lt: &str, t: &str) -> (r: bool)
    ensures
        r == (l@ == (s@, lt@, t@)),
{
    str_eq(l.source_id.as_str(), s) && str_eq(l.link_type.as_str(), lt) && str_eq(l.target_id.as_str(), t)
}

/// A copy of a link.
fn copy_link(l: &LinkRecord) -> (r: LinkRecord)
    ensures
        r@ == l@,
{
    LinkRecord { source_id: l.source_id.clone(), link_type: l.link_type.clone(), target_id: l.target_id.clone() }
}

/// The links other than the given one, in order.
pub fn keep_other_links(links: &Vec<LinkRecord>, s: &str, lt: &str, t: &str) -> (r: Vec<LinkRecord>)
    ensures
        links_view(r@) == links_view(links@).filter(differs_from((s@, lt@, t@))),
{
    let ghost lv = links_view(links@);
    let ghost p = differs_from((s@, lt@, t@));
    let mut kept: Vec<LinkRecord> = Vec::new();
    for i in 0..links.len()
        invariant
            p == differs_from((s@, lt@, t@)),
            lv == links_view(links@),
            links_view(kept@) == lv.take(i as int).filter(p),
    {
        proof {
            assert(lv.take(i + 1).drop_last() =~= lv.take(i as int));
            assert(lv.take(i + 1).last() == lv[i as int]);
            reveal(Seq::filter);
        }
        let ghost before = links_view(kept@);
        if !same_link(&links[i], s, lt, t) {
            kept.push(copy_link(&links[i]));
            proof { assert(links_view(kept@) =~= before.push(lv[i as int])); }
        }
    }
    proof { assert(lv.take(lv.len() as int) =~= lv); }
    kept
}

/// The active links of the log, in the order they were added.
pub fn build_links(events: &Vec<Json>) -> (r: Vec<LinkRecord>)
    ensures
        links_view(r@) == active_links(events@),
{
    let mut links: Vec<LinkRecord> = Vec::new();
    for i in 0..events.len()
        invariant
            links_view(links@) == active_links(events@.take(i as int)),
    {
        proof {
            assert(events@.take(i + 1).drop_last() =~= events@.take(i as int));
            assert(events@.take(i + 1).last() == events@[i as int]);
        }
        let e = &events[i];
        let ghost before = links_view(links@);
        if is_event(e, "item_links", "ItemLinked") {
            let s = own_or_empty(jpstr(e, "source_id"));
            let lt = own_or_empty(jpstr(e, "link_type"));
            let t = own_or_empty(jpstr(e, "target_id"));
            if s.unicode_len() > 0 && lt.unicode_len() > 0 && t.unicode_len() > 0 {
                links.push(LinkRecord { source_id: s, link_type: lt, target_id: t });
                proof { assert(links_view(links@) =~= before.push(named_link(events@[i as int]))); }
            }
        } else if is_event(e, "item_links", "ItemUnlinked") {
            let s = own_or_empty(jpstr(e, "source_id"));
            let lt = own_or_empty(jpstr(e, "link_type"));
            let t = own_or_empty(jpstr(e, "target_id"));
            links = keep_other_links(&links, s.as_str(), lt.as_str(), t.as_str());
        }
    }
    proof { assert(events@.take(events.len() as int) =~= events@); }
    links
}

/// Whether a list of links holds the given one.
fn holds_link(links: &Vec<LinkRecord>, s: &str, lt: &str, t: &str) -> (r: bool)
    ensures
        r == links_view(links@).contains((s@, lt@, t@)),
{
    let mut i: usize = 0;
    while i < links.len()
        invariant
            i <= links.len(),
            forall|k: int| 0 <= k < i ==> (#[trigger] links@[k])@ != (s@, lt@, t@),
        decreases links.len() - i,
    {
        if same_link(&links[i], s, lt, t) {
            proof { assert(links_view(links@)[i as int] == (s@, lt@, t@)); }
            return true;
        }
        i = i + 1;
    }
    proof {
        assert forall|k: int| 0 <= k < links_view(links@).len() implies links_view(links@)[k] != (s@, lt@, t@) by {
            assert(links_view(links@)[k] == links@[k]@);
        }
    }
    false
}

/// The item a map from identifiers to items, filled in record order,
/// holds for `id`: the last item of the record with that identifier.
pub open spec fn registry_item(events: Seq<Json>, id: Seq<char>) -> Option<ItemView> {
    match last_index(record_items(events), has_id(id)) {
        Some(k) => Some(record_items(events)[k]),
        None => None,
    }
}

/// The registry of items: every item of the record, in record order (a
/// later item with the same identifier takes the place of an earlier one).
pub fn build_item_registry(events: &Vec<Json>) -> (r: Vec<RecordedItem>)
    ensures
        items_view(r@) == record_items(events@),
{
    read_all_record_items(events)
}

/// The item the registry holds for `id`.
fn registry_lookup(registry: &Vec<RecordedItem>, id: &str) -> (r: Option<usize>)
    ensures
        r matches Some(k) ==> k < registry.len() && Some(items_view(registry@)[k as int]) == match last_index(items_view(registry@), has_id(id@)) {
            Some(k) => Some(items_view(registry@)[k]),
            None => None,
        },
        r is None ==> last_index(items_view(registry@), has_id(id@)) is None,
{
    let r = find_last_item(registry, id);
    proof {
        match r {
            Some(k) => { lemma_last_index(items_view(registry@), has_id(id@), k as int); },
            None => {},
        }
    }
    r
}

/// The fields naming a link.
pub open spec fn link_fields(s: Seq<char>, lt: Seq<char>, t: Seq<char>) -> Seq<(Seq<char>, JView)> {
    seq![("source_id"@, JView::Str(s)), ("link_type"@, JView::Str(lt)), ("target_id"@, JView::Str(t))]
}

/// The fields of a failure on a missing item.
pub open spec fn missing_item_fields(operation: Seq<char>, id: Seq<char>) -> Seq<(Seq<char>, JView)> {
    seq![("failure_reason"@, JView::Str("item_not_found"@)), ("operation"@, JView::Str(operation)), ("missing_item_id"@, JView::Str(id))]
}

/// The fields of a failure on an item whose type the vocabulary does not
/// know.
pub open spec fn unrecognized_type_fields(id: Seq<char>, ty: Seq<char>, role: Seq<char>) -> Seq<(Seq<char>, JView)> {
    seq![("failure_reason"@, JView::Str("item_type_unrecognized"@)), ("item_id"@, JView::Str(id)),
        ("item_type"@, JView::Str(ty)), ("role"@, JView::Str(role))]
}

/// The event that decides a request to add the link `s --[lt]--> t`: the
/// first failure among a missing source, a missing target, a source or
/// target type the vocabulary does not know, a relation type it does not
/// define and a link already active; else `ItemLinked`.
pub open spec fn add_link_event(schema: ProjectSchema, events: Seq<Json>, s: Seq<char>, lt: Seq<char>, t: Seq<char>) -> EventSpec {
    match registry_item(events, s) {
        None => ("LinkFailedItemNotFound"@, missing_item_fields("add"@, s)),
        Some(si) => match registry_item(events, t) {
            None => ("LinkFailedItemNotFound"@, missing_item_fields("add"@, t)),
            Some(ti) => if resolved_type(schema, si.item_type) is None {
                ("LinkFailedItemTypeUnrecognized"@, unrecognized_type_fields(s, si.item_type, "source"@))
            } else if resolved_type(schema, ti.item_type) is None {
                ("LinkFailedItemTypeUnrecognized"@, unrecognized_type_fields(t, ti.item_type, "target"@))
            } else if !has_key(schema.relations@, lt) {
                ("LinkFailedRelationTypeUnrecognized"@, seq![("failure_reason"@, JView::Str("relation_type_unrecognized"@)),
                    ("relation_type"@, JView::Str(lt))])
            } else if active_links(events).contains((s, lt, t)) {
                ("LinkFailedDuplicateLink"@, seq![("failure_reason"@, JView::Str("duplicate_link"@))] + link_fields(s, lt, t))
            } else {
                ("ItemLinked"@, seq![("source_id"@, JView::Str(s)), ("source_type"@, JView::Str(si.item_type)),
                    ("link_type"@, JView::Str(lt)), ("target_id"@, JView::Str(t)), ("target_type"@, JView::Str(ti.item_type))])
            },
        },
    }
}

/// The outcome of a request to add a link.
pub enum LinkAdd {
    SourceNotFound,
    TargetNotFound,
    SourceTypeUnrecognized { item_type: String },
    TargetTypeUnrecognized { item_type: String },
    RelationUnrecognized,
    Duplicate,
    /// The link was recorded between these two items.
    Linked { source: RecordedItem, target: RecordedItem },
}

/// The outcome of a request to add a link, as values.
pub open spec fn add_link_matches(r: LinkAdd, schema: ProjectSchema, events: Seq<Json>, s: Seq<char>, lt: Seq<char>, t: Seq<char>) -> bool {
    match registry_item(events, s) {
        None => r is SourceNotFound,
        Some(si) => match registry_item(events, t) {
            None => r is TargetNotFound,
            Some(ti) => if resolved_type(schema, si.item_type) is None {
                r matches LinkAdd::SourceTypeUnrecognized { item_type } && item_type@ == si.item_type
            } else if resolved_type(schema, ti.item_type) is None {
                r matches LinkAdd::TargetTypeUnrecognized { item_type } && item_type@ == ti.item_type
            } else if !has_key(schema.relations@, lt) {
                r is RelationUnrecognized
            } else if active_links(events).contains((s, lt, t)) {
                r is Duplicate
            } else {
                r matches LinkAdd::Linked { source, target } && source@ == si && target@ == ti
            },
        },
    }
}

/// Decides a request to add the link `source_id --[link_type]--> target_id`
/// against the log `events`: records `LinkAddRequested`, then the deciding
/// event of `add_link_event`.
pub fn add_link(schema: &ProjectSchema, events: &Vec<Json>, source_id: &str, link_type: &str, target_id: &str, cid: &str, outbox: &mut Vec<OutEvent>) -> (r: LinkAdd)
    ensures
        appended(old(outbox)@, final(outbox)@, links_module(), cid@,
            seq![("LinkAddRequested"@, link_fields(source_id@, link_type@, target_id@)),
                add_link_event(*schema, events@, source_id@, link_type@, target_id@)]),
        add_link_matches(r, *schema, events@, source_id@, link_type@, target_id@),
{
    let ghost start = outbox@;
    let ghost req: EventSpec = ("LinkAddRequested"@, link_fields(source_id@, link_type@, target_id@));
    let ghost dec = add_link_event(*schema, events@, source_id@, link_type@, target_id@);
    proof { lemma_appended_none(start, links_module(), cid@); }
    emit(outbox, "LinkAddRequested", "item_links", cid, payload3("source_id", js(source_id), "link_type", js(link_type), "target_id", js(target_id)));
    proof { lemma_appended_push(start, start, outbox@, links_module(), cid@, Seq::empty(), req); }
    let ghost mid = outbox@;
    let registry = build_item_registry(events);
    let links = build_links(events);
    let si = match registry_lookup(&registry, source_id) {
        Some(k) => k,
        None => {
            emit(outbox, "LinkFailedItemNotFound", "item_links", cid,
                payload3("failure_reason", js("item_not_found"), "operation", js("add"), "missing_item_id", js(source_id)));
            proof {
                lemma_appended_push(start, mid, outbox@, links_module(), cid@, seq![req], dec);
                assert(seq![req].push(dec) =~= seq![req, dec]);
            }
            return LinkAdd::SourceNotFound;
        },
    };
    let ti = match registry_lookup(&registry, target_id) {
        Some(k) => k,
        None => {
            emit(outbox, "LinkFailedItemNotFound", "item_links", cid,
                payload3("failure_reason", js("item_not_found"), "operation", js("add"), "missing_item_id", js(target_id)));
            proof {
                lemma_appended_push(start, mid, outbox@, links_module(), cid@, seq![req], dec);
                assert(seq![req].push(dec) =~= seq![req, dec]);
            }
            return LinkAdd::TargetNotFound;
        },
    };
    if resolve_type(schema, registry[si].item_type.as_str()).is_none() {
        emit(outbox, "LinkFailedItemTypeUnrecognized", "item_links", cid,
            crate::payload::payload4("failure_reason", js("item_type_unrecognized"), "item_id", js(source_id),
                "item_type", js(registry[si].item_type.as_str()), "role", js("source")));
        proof {
            lemma_appended_push(start, mid, outbox@, links_module(), cid@, seq![req], dec);
            assert(seq![req].push(dec) =~= seq![req, dec]);
        }
        let item_type = registry[si].item_type.clone();
        return LinkAdd::SourceTypeUnrecognized { item_type };
    }
    if resolve_type(schema, registry[ti].item_type.as_str()).is_none() {
        emit(outbox, "LinkFailedItemTypeUnrecognized", "item_links", cid,
            crate::payload::payload4("failure_reason", js("item_type_unrecognized"), "item_id", js(target_id),
                "item_type", js(registry[ti].item_type.as_str()), "role", js("target")));
        proof {
            lemma_appended_push(start, mid, outbox@, links_module(), cid@, seq![req], dec);
            assert(seq![req].push(dec) =~= seq![req, dec]);
        }
        let item_type = registry[ti].item_type.clone();
        return LinkAdd::TargetTypeUnrecognized { item_type };
    }
    if !contains_key(&schema.relations, link_type) {
        emit(outbox, "LinkFailedRelationTypeUnrecognized", "item_links", cid,
            crate::payload::payload2("failure_reason", js("relation_type_unrecognized"), "relation_type", js(link_type)));
        proof {
            lemma_appended_push(start, mid, outbox@, links_module(), cid@, seq![req], dec);
            assert(seq![req].push(dec) =~= seq![req, dec]);
        }
        return LinkAdd::RelationUnrecognized;
    }
    if holds_link(&links, source_id, link_type, target_id) {
        emit(outbox, "LinkFailedDuplicateLink", "item_links", cid,
            crate::payload::payload4("failure_reason", js("duplicate_link"), "source_id", js(source_id),
                "link_type", js(link_type), "target_id", js(target_id)));
        proof {
            assert(seq![("failure_reason"@, JView::Str("duplicate_link"@))] + link_fields(source_id@, link_type@, target_id@)
                =~= seq![("failure_reason"@, JView::Str("duplicate_link"@)), ("source_id"@, JView::Str(source_id@)),
                    ("link_type"@, JView::Str(link_type@)), ("target_id"@, JView::Str(target_id@))]);
            lemma_appended_push(start, mid, outbox@, links_module(), cid@, seq![req], dec);
            assert(seq![req].push(dec) =~= seq![req, dec]);
        }
        return LinkAdd::Duplicate;
    }
    emit(outbox, "ItemLinked", "item_links", cid,
        crate::payload::payload5("source_id", js(source_id), "source_type", js(registry[si].item_type.as_str()),
            "link_type", js(link_type), "target_id", js(target_id), "target_type", js(registry[ti].item_type.as_str())));
    proof {
        lemma_appended_push(start, mid, outbox@, links_module(), cid@, seq![req], dec);
        assert(seq![req].push(dec) =~= seq![req, dec]);
    }
    LinkAdd::Linked { source: copy_item(&registry[si]), target: copy_item(&registry[ti]) }
}


/// The event that decides a request to remove the link
/// `s --[lt]--> t`: the first failure among a missing source, a missing
/// target and a link that is not active; else `ItemUnlinked`. The
/// vocabulary takes no part: a change of vocabulary never prevents the
/// removal of a link.
pub open spec fn remove_link_event(events: Seq<Json>, s: Seq<char>, lt: Seq<char>, t: Seq<char>) -> EventSpec {
    match registry_item(events, s) {
        None => ("LinkFailedItemNotFound"@, missing_item_fields("remove"@, s)),
        Some(si) => match registry_item(events, t) {
            None => ("LinkFailedItemNotFound"@, missing_item_fields("remove"@, t)),
            Some(ti) => if !active_links(events).contains((s, lt, t)) {
                ("LinkFailedLinkNotFound"@, seq![("failure_reason"@, JView::Str("link_not_found"@))] + link_fields(s, lt, t))
            } else {
                ("ItemUnlinked"@, link_fields(s, lt, t))
            },
        },
    }
}

/// The outcome of a request to remove a link.
pub enum LinkRemove {
    SourceNotFound,
    TargetNotFound,
    LinkNotFound,
    /// The link between these two items was removed.
    Unlinked { source: RecordedItem, target: RecordedItem },
}

/// The outcome of a request to remove a link, as values.
pub open spec fn remove_link_matches(r: LinkRemove, events: Seq<Json>, s: Seq<char>, lt: Seq<char>, t: Seq<char>) -> bool {
    match registry_item(events, s) {
        None => r is SourceNotFound,
        Some(si) => match registry_item(events, t) {
            None => r is TargetNotFound,
            Some(ti) => if !active_links(events).contains((s, lt, t)) {
                r is LinkNotFound
            } else {
                r matches LinkRemove::Unlinked { source, target } && source@ == si && target@ == ti
            },
        },
    }
}

/// A copy of a recorded item.
pub fn copy_item(it: &RecordedItem) -> (r: RecordedItem)
    ensures
        r@ == it@,
{
    RecordedItem {
        item_id: it.item_id.clone(),
        item_type: it.item_type.clone(),
        description: it.description.clone(),
        uncertain: it.uncertain,
        uncertainty_reason: it.uncertainty_reason.clone(),
        session_id: it.session_id.clone(),
        parent_item_id: it.parent_item_id.clone(),
        current_marker: it.current_marker.clone(),
    }
}

/// Decides a request to remove the link
/// `source_id --[link_type]--> target_id` against the log `events`:
/// records `LinkRemoveRequested`, then the deciding event of
/// `remove_link_event`.
pub fn remove_link(events: &Vec<Json>, source_id: &str, link_type: &str, target_id: &str, cid: &str, outbox: &mut Vec<OutEvent>) -> (r: LinkRemove)
    ensures
        appended(old(outbox)@, final(outbox)@, links_module(), cid@,
            seq![("LinkRemoveRequested"@, link_fields(source_id@, link_type@, target_id@)),
                remove_link_event(events@, source_id@, link_type@, target_id@)]),
        remove_link_matches(r, events@, source_id@, link_type@, target_id@),
{
    let ghost start = outbox@;
    let ghost req: EventSpec = ("LinkRemoveRequested"@, link_fields(source_id@, link_type@, target_id@));
    let ghost dec = remove_link_event(events@, source_id@, link_type@, target_id@);
    proof { lemma_appended_none(start, links_module(), cid@); }
    emit(outbox, "LinkRemoveRequested", "item_links", cid, payload3("source_id", js(source_id), "link_type", js(link_type), "target_id", js(target_id)));
    proof { lemma_appended_push(start, start, outbox@, links_module(), cid@, Seq::empty(), req); }
    let ghost mid = outbox@;
    let registry = build_item_registry(events);
    let links = build_links(events);
    let si = match registry_lookup(&registry, source_id) {
        Some(k) => k,
        None => {
            emit(outbox, "LinkFailedItemNotFound", "item_links", cid,
                payload3("failure_reason", js("item_not_found"), "operation", js("remove"), "missing_item_id", js(source_id)));
            proof {
                lemma_appended_push(start, mid, outbox@, links_module(), cid@, seq![req], dec);
                assert(seq![req].push(dec) =~= seq![req, dec]);
            }
            return LinkRemove::SourceNotFound;
        },
    };
    let ti = match registry_lookup(&registry, target_id) {
        Some(k) => k,
        None => {
            emit(outbox, "LinkFailedItemNotFound", "item_links", cid,
                payload3("failure_reason", js("item_not_found"), "operation", js("remove"), "missing_item_id", js(target_id)));
            proof {
                lemma_appended_push(start, mid, outbox@, links_module(), cid@, seq![req], dec);
                assert(seq![req].push(dec) =~= seq![req, dec]);
            }
            return LinkRemove::TargetNotFound;
        },
    };
    if !holds_link(&links, source_id, link_type, target_id) {
        emit(outbox, "LinkFailedLinkNotFound", "item_links", cid,
            crate::payload::payload4("failure_reason", js("link_not_found"), "source_id", js(source_id),
                "link_type", js(link_type), "target_id", js(target_id)));
        proof {
            assert(seq![("failure_reason"@, JView::Str("link_not_found"@))] + link_fields(source_id@, link_type@, target_id@)
                =~= seq![("failure_reason"@, JView::Str("link_not_found"@)), ("source_id"@, JView::Str(source_id@)),
                    ("link_type"@, JView::Str(link_type@)), ("target_id"@, JView::Str(target_id@))]);
            lemma_appended_push(start, mid, outbox@, links_module(), cid@, seq![req], dec);
            assert(seq![req].push(dec) =~= seq![req, dec]);
        }
        return LinkRemove::LinkNotFound;
    }
    emit(outbox, "ItemUnlinked", "item_links", cid,
        payload3("source_id", js(source_id), "link_type", js(link_type), "target_id", js(target_id)));
    proof {
        lemma_appended_push(start, mid, outbox@, links_module(), cid@, seq![req], dec);
        assert(seq![req].push(dec) =~= seq![req, dec]);
    }
    LinkRemove::Unlinked { source: copy_item(&registry[si]), target: copy_item(&registry[ti]) }
}


/// A listed link: the link with the types of its ends (`unknown` for an
/// item the record does not hold), whether it leaves the item asked about,
/// and its label in that direction.
pub struct LinkEntry {
    pub source_id: String,
    pub source_type: String,
    pub link_type: String,
    pub target_id: String,
    pub target_type: String,
    pub outgoing: bool,
    pub display_label: String,
}

/// A listed link, as values.
pub ghost struct LinkEntryView {
    pub link: LinkView,
    pub source_type: Seq<char>,
    pub target_type: Seq<char>,
    pub outgoing: bool,
    pub display_label: Seq<char>,
}

impl View for LinkEntry {
    type V = LinkEntryView;

    open spec fn view(&self) -> LinkEntryView {
        LinkEntryView {
            link: (self.source_id@, self.link_type@, self.target_id@),
            source_type: self.source_type@,
            target_type: self.target_type@,
            outgoing: self.outgoing,
            display_label: self.display_label@,
        }
    }
}

/// The views of listed links.
pub open spec fn entries_view(s: Seq<LinkEntry>) -> Seq<LinkEntryView> {
    s.map_values(|e: LinkEntry| e@)
}

/// Whether a link is listed for `item` and in which direction: every link,
/// outgoing, when no item is asked about; else the links leaving the item
/// (outgoing) and those reaching it (incoming).
pub open spec fn direction(item: Option<Seq<char>>, l: LinkView) -> Option<bool> {
    match item {
        None => Some(true),
        Some(iid) => if l.0 == iid { Some(true) } else if l.2 == iid { Some(false) } else { None },
    }
}

/// The type of the registry's item `id`, or `unknown`.
pub open spec fn type_or_unknown(events: Seq<Json>, id: Seq<char>) -> Seq<char> {
    match registry_item(events, id) {
        Some(it) => it.item_type,
        None => "unknown"@,
    }
}

/// The entry a link gives, when it is listed and the vocabulary defines its
/// relation type.
pub open spec fn listed_entry(schema: ProjectSchema, events: Seq<Json>, item: Option<Seq<char>>) -> spec_fn(LinkView) -> Option<LinkEntryView> {
    |l: LinkView| match direction(item, l) {
        Some(out) => if has_key(schema.relations@, l.1) {
            Some(LinkEntryView {
                link: l,
                source_type: type_or_unknown(events, l.0),
                target_type: type_or_unknown(events, l.2),
                outgoing: out,
                display_label: crate::schema::relation_label(schema, l.1, out),
            })
        } else {
            None
        },
        None => None,
    }
}

/// The link, when it is listed and the vocabulary does not define its
/// relation type.
pub open spec fn excluded_link(schema: ProjectSchema, item: Option<Seq<char>>) -> spec_fn(LinkView) -> Option<LinkView> {
    |l: LinkView| match direction(item, l) {
        Some(out) => if has_key(schema.relations@, l.1) { None } else { Some(l) },
        None => None,
    }
}

/// A listed link as a JSON object.
pub open spec fn entry_json(e: LinkEntryView) -> JView {
    JView::Obj(seq![("source_id"@, JView::Str(e.link.0)), ("source_type"@, JView::Str(e.source_type)),
        ("link_type"@, JView::Str(e.link.1)), ("target_id"@, JView::Str(e.link.2)), ("target_type"@, JView::Str(e.target_type)),
        ("direction"@, JView::Str(if e.outgoing { "outgoing"@ } else { "incoming"@ })), ("display_label"@, JView::Str(e.display_label))])
}

/// The event of an excluded link.
pub open spec fn excluded_event(l: LinkView) -> EventSpec {
    ("LinkRelationTypeUnknown"@, link_fields(l.0, l.1, l.2))
}

/// The listing of links.
pub struct LinkListing {
    /// The listed links, in the order they were added.
    pub entries: Vec<LinkEntry>,
    /// How many links were left out because the vocabulary does not define
    /// their relation type.
    pub excluded: usize,
}

/// The type of the registry's item `id`, or `unknown`.
fn registry_type(registry: &Vec<RecordedItem>, id: &str) -> (r: String)
    ensures
        r@ == match last_index(items_view(registry@), has_id(id@)) {
            Some(k) => items_view(registry@)[k].item_type,
            None => "unknown"@,
        },
{
    match registry_lookup(registry, id) {
        Some(k) => registry[k].item_type.clone(),
        None => "unknown".to_owned(),
    }
}

/// A listed link as a JSON object.
fn entry_to_json(e: &LinkEntry) -> (r: Json)
    ensures
        crate::payload::jv(r) == entry_json(e@),
{
    let p = crate::payload::payload7("source_id", js(e.source_id.as_str()), "source_type", js(e.source_type.as_str()),
        "link_type", js(e.link_type.as_str()), "target_id", js(e.target_id.as_str()), "target_type", js(e.target_type.as_str()),
        "direction", js(if e.outgoing { "outgoing" } else { "incoming" }), "display_label", js(e.display_label.as_str()));
    let ghost pvw = pv(p@);
    let r = Json::Obj(p);
    proof {
        match crate::payload::jv(r) {
            JView::Obj(x) => { assert(x =~= pvw); },
            _ => {},
        }
    }
    r
}

/// Lists the links of the log, every one or those of one item.
///
/// Records `LinkListRequested`; then `LinkRelationTypeUnknown` for each
/// listed link whose relation type the vocabulary does not define (such a
/// link is left out); then `LinkListReturned` with the number of links
/// listed, the listed links and the number left out.
pub fn list_links(schema: &ProjectSchema, events: &Vec<Json>, item_id: Option<&str>, cid: &str, outbox: &mut Vec<OutEvent>) -> (r: LinkListing)
    ensures
        ({
            let item = match item_id { Some(x) => Some(x@), None => None::<Seq<char>> };
            let links = active_links(events@);
            let listed = links.filter_map(listed_entry(*schema, events@, item));
            let excluded = links.filter_map(excluded_link(*schema, item));
            &&& entries_view(r.entries@) == listed
            &&& r.excluded == excluded.len()
            &&& appended(old(outbox)@, final(outbox)@, links_module(), cid@,
                seq![("LinkListRequested"@, seq![("item_id"@, crate::payload::jopt_v(item))])]
                + excluded.map_values(|l: LinkView| excluded_event(l))
                + seq![("LinkListReturned"@, seq![("item_id"@, crate::payload::jopt_v(item)),
                    ("link_count"@, JView::Num(listed.len() as u64)),
                    ("links"@, JView::List(listed.map_values(|e: LinkEntryView| entry_json(e)))),
                    ("links_excluded_relation_unknown"@, JView::Num(excluded.len() as u64))])])
        }),
{
    let ghost item = match item_id { Some(x) => Some(x@), None => None::<Seq<char>> };
    let ghost start = outbox@;
    let ghost req: EventSpec = ("LinkListRequested"@, seq![("item_id"@, crate::payload::jopt_v(item))]);
    let owned_item = crate::record::own(item_id);
    proof { lemma_appended_none(start, links_module(), cid@); }
    emit(outbox, "LinkListRequested", "item_links", cid, crate::payload::payload1("item_id", crate::payload::jo(&owned_item)));
    proof { lemma_appended_push(start, start, outbox@, links_module(), cid@, Seq::empty(), req); }
    let registry = build_item_registry(events);
    let links = build_links(events);
    let ghost lv = links_view(links@);
    let ghost fl = listed_entry(*schema, events@, item);
    let ghost fx = excluded_link(*schema, item);
    let mut entries: Vec<LinkEntry> = Vec::new();
    let mut entry_values: Vec<Json> = Vec::new();
    let mut excluded: usize = 0;
    for i in 0..links.len()
        invariant
            lv == links_view(links@),
            lv == active_links(events@),
            items_view(registry@) == record_items(events@),
            fl == listed_entry(*schema, events@, item),
            fx == excluded_link(*schema, item),
            item == match item_id { Some(x) => Some(x@), None => None::<Seq<char>> },
            entries_view(entries@) == lv.take(i as int).filter_map(fl),
            entry_values@.len() == entries@.len(),
            forall|k: int| 0 <= k < entries@.len() ==> crate::payload::jv(#[trigger] entry_values@[k]) == entry_json(entries@[k]@),
            excluded == lv.take(i as int).filter_map(fx).len(),
            excluded <= i,
            appended(start, outbox@, links_module(), cid@,
                seq![req] + lv.take(i as int).filter_map(fx).map_values(|l: LinkView| excluded_event(l))),
    {
        proof {
            assert(lv.take(i + 1) =~= lv.take(i as int).push(lv[i as int]));
            lemma_filter_map_push(lv.take(i as int), lv[i as int], fl);
            lemma_filter_map_push(lv.take(i as int), lv[i as int], fx);
        }
        let l = &links[i];
        let dir: Option<bool> = match item_id {
            None => Some(true),
            Some(iid) => if str_eq(l.source_id.as_str(), iid) {
                Some(true)
            } else if str_eq(l.target_id.as_str(), iid) {
                Some(false)
            } else {
                None
            },
        };
        assert(l@ == lv[i as int]);
        assert(dir == direction(item, l@));
        let ghost ex_before = lv.take(i as int).filter_map(fx);
        match dir {
            None => {},
            Some(out) => {
                if !contains_key(&schema.relations, l.link_type.as_str()) {
                    let ghost mid = outbox@;
                    emit(outbox, "LinkRelationTypeUnknown", "item_links", cid,
                        payload3("source_id", js(l.source_id.as_str()), "link_type", js(l.link_type.as_str()), "target_id", js(l.target_id.as_str())));
                    proof {
                        lemma_appended_push(start, mid, outbox@, links_module(), cid@,
                            seq![req] + ex_before.map_values(|l: LinkView| excluded_event(l)), excluded_event(l@));
                        assert(seq![req] + ex_before.push(l@).map_values(|l: LinkView| excluded_event(l))
                            =~= (seq![req] + ex_before.map_values(|l: LinkView| excluded_event(l))).push(excluded_event(l@)));
                    }
                    excluded = excluded + 1;
                } else {
                    let label = if out {
                        logseq_forward(schema, l.link_type.as_str())
                    } else {
                        logseq_inverse(schema, l.link_type.as_str())
                    };
                    let e = LinkEntry {
                        source_id: l.source_id.clone(),
                        source_type: registry_type(&registry, l.source_id.as_str()),
                        link_type: l.link_type.clone(),
                        target_id: l.target_id.clone(),
                        target_type: registry_type(&registry, l.target_id.as_str()),
                        outgoing: out,
                        display_label: label,
                    };
                    let ghost before = entries_view(entries@);
                    let ej = entry_to_json(&e);
                    entry_values.push(ej);
                    entries.push(e);
                    proof { assert(entries_view(entries@) =~= before.push(fl(lv[i as int]).unwrap())); }
                }
            },
        }
    }
    proof {
        assert(lv.take(links.len() as int) =~= lv);
    }
    let ghost listed = lv.filter_map(fl);
    let ghost exl = lv.filter_map(fx);
    let ghost mid = outbox@;
    let count = entries.len();
    let lst = Json::List(entry_values);
    proof {
        match crate::payload::jv(lst) {
            JView::List(x) => { assert(x =~= listed.map_values(|e: LinkEntryView| entry_json(e))); },
            _ => {},
        }
    }
    emit(outbox, "LinkListReturned", "item_links", cid,
        crate::payload::payload4("item_id", crate::payload::jo(&owned_item), "link_count", Json::Num(count as u64),
            "links", lst, "links_excluded_relation_unknown", Json::Num(excluded as u64)));
    proof {
        let fin: EventSpec = ("LinkListReturned"@, seq![("item_id"@, crate::payload::jopt_v(item)),
                    ("link_count"@, JView::Num(listed.len() as u64)),
                    ("links"@, JView::List(listed.map_values(|e: LinkEntryView| entry_json(e)))),
                    ("links_excluded_relation_unknown"@, JView::Num(exl.len() as u64))]);
        lemma_appended_push(start, mid, outbox@, links_module(), cid@,
            seq![req] + exl.map_values(|l: LinkView| excluded_event(l)), fin);
        assert((seq![req] + exl.map_values(|l: LinkView| excluded_event(l))).push(fin)
            =~= seq![req] + exl.map_values(|l: LinkView| excluded_event(l)) + seq![fin]);
    }
    LinkListing { entries, excluded }
}

/// The forward label of a relation, owned.
fn logseq_forward(schema: &ProjectSchema, relation: &str) -> (r: String)
    ensures
        r@ == crate::schema::relation_label(*schema, relation@, true),
{
    crate::schema::logseq_forward_label(schema, relation).to_owned()
}

/// The inverse label of a relation, owned.
fn logseq_inverse(schema: &ProjectSchema, relation: &str) -> (r: String)
    ensures
        r@ == crate::schema::relation_label(*schema, relation@, false),
{
    crate::schema::logseq_inverse_label(schema, relation).to_owned()
}



// ─── Laws ─────────────────────────────────────────────────────────────────────

/// The fields of an `ItemLinked` event.
pub open spec fn linked_fields(s: Seq<char>, st: Seq<char>, lt: Seq<char>, t: Seq<char>, tt: Seq<char>) -> Seq<(Seq<char>, JView)> {
    seq![("source_id"@, JView::Str(s)), ("source_type"@, JView::Str(st)),
        ("link_type"@, JView::Str(lt)), ("target_id"@, JView::Str(t)), ("target_type"@, JView::Str(tt))]
}

/// Filtering out a link that a sequence does not hold keeps the sequence.
proof fn lemma_filter_absent(links: Seq<LinkView>, l: LinkView)
    requires
        !links.contains(l),
    ensures
        links.filter(differs_from(l)) == links,
    decreases links.len(),
{
    reveal(Seq::filter);
    if links.len() > 0 {
        assert(!links.drop_last().contains(l)) by {
            if links.drop_last().contains(l) {
                let k = choose|k: int| 0 <= k < links.drop_last().len() && links.drop_last()[k] == l;
                assert(links[k] == l);
            }
        }
        lemma_filter_absent(links.drop_last(), l);
        assert(links.last() != l) by {
            assert(links[links.len() - 1] == links.last());
        }
        assert(links.drop_last().push(links.last()) =~= links);
    }
}

/// What the log record of an `ItemLinked` event names.
proof fn lemma_linked_record(j: Json, ev: OutEvent, s: Seq<char>, st: Seq<char>, lt: Seq<char>, t: Seq<char>, tt: Seq<char>)
    requires
        ev_is(ev, "ItemLinked"@, links_module(), ev.correlation_id@, linked_fields(s, st, lt, t, tt)),
        logs(j, ev),
    ensures
        event_is(j, links_module(), "ItemLinked"@),
        !event_is(j, links_module(), "ItemUnlinked"@),
        named_link(j) == (s, lt, t),
        crate::record::leaves_record(j),
{
    reveal_strlit("ItemLinked");
    reveal_strlit("ItemUnlinked");
    reveal_strlit("ItemsIncorporated");
    reveal_strlit("TaskAdded");
    reveal_strlit("ItemsExtracted");
    reveal_strlit("ExtractionConfirmed");
    reveal_strlit("source_id");
    reveal_strlit("source_type");
    reveal_strlit("link_type");
    reveal_strlit("target_id");
    let f = linked_fields(s, st, lt, t, tt);
    crate::payload::lemma_logged_pstr(j, ev, "source_id"@);
    crate::payload::lemma_logged_pstr(j, ev, "link_type"@);
    crate::payload::lemma_logged_pstr(j, ev, "target_id"@);
    crate::payload::lemma_vstr_at(f, 0);
    assert(f[0].0[0] != f[2].0[0] && f[1].0[0] != f[2].0[0]);
    crate::payload::lemma_vstr_at(f, 2);
    assert(f[0].0[0] != f[3].0[0] && f[1].0[0] != f[3].0[0] && f[2].0[0] != f[3].0[0]);
    crate::payload::lemma_vstr_at(f, 3);
    assert("ItemLinked"@[4] != "ItemUnlinked"@[4]);
    assert("ItemLinked"@[4] != "ItemsIncorporated"@[4]);
    assert("ItemLinked"@[4] != "ItemsExtracted"@[4]);
    assert("ItemLinked"@[0] != "TaskAdded"@[0]);
    assert("ItemLinked"@[0] != "ExtractionConfirmed"@[0]);
}

/// What the log record of an `ItemUnlinked` event names.
proof fn lemma_unlinked_record(j: Json, ev: OutEvent, s: Seq<char>, lt: Seq<char>, t: Seq<char>)
    requires
        ev_is(ev, "ItemUnlinked"@, links_module(), ev.correlation_id@, link_fields(s, lt, t)),
        logs(j, ev),
    ensures
        !event_is(j, links_module(), "ItemLinked"@),
        event_is(j, links_module(), "ItemUnlinked"@),
        named_link(j) == (s, lt, t),
        crate::record::leaves_record(j),
{
    reveal_strlit("ItemLinked");
    reveal_strlit("ItemUnlinked");
    reveal_strlit("ItemsIncorporated");
    reveal_strlit("TaskAdded");
    reveal_strlit("ItemsExtracted");
    reveal_strlit("ExtractionConfirmed");
    reveal_strlit("source_id");
    reveal_strlit("link_type");
    reveal_strlit("target_id");
    let f = link_fields(s, lt, t);
    crate::payload::lemma_logged_pstr(j, ev, "source_id"@);
    crate::payload::lemma_logged_pstr(j, ev, "link_type"@);
    crate::payload::lemma_logged_pstr(j, ev, "target_id"@);
    crate::payload::lemma_vstr_at(f, 0);
    assert(f[0].0[0] != f[1].0[0]);
    crate::payload::lemma_vstr_at(f, 1);
    assert(f[0].0[0] != f[2].0[0] && f[1].0[0] != f[2].0[0]);
    crate::payload::lemma_vstr_at(f, 2);
    assert("ItemLinked"@[4] != "ItemUnlinked"@[4]);
    assert("ItemUnlinked"@[4] != "ItemsIncorporated"@[4]);
    assert("ItemUnlinked"@[4] != "ItemsExtracted"@[4]);
    assert("ItemUnlinked"@[0] != "TaskAdded"@[0]);
    assert("ItemUnlinked"@[0] != "ExtractionConfirmed"@[0]);
}

/// A recorded link is active: once the log holds the record of an
/// `ItemLinked` event naming a source, a relation type and a target (none
/// empty), that link is the last active link, the links before it are
/// unchanged, and so are the items of the record.
pub proof fn law_linked_is_active(events: Seq<Json>, ev: OutEvent, j: Json,
    s: Seq<char>, st: Seq<char>, lt: Seq<char>, t: Seq<char>, tt: Seq<char>)
    requires
        ev_is(ev, "ItemLinked"@, links_module(), ev.correlation_id@, linked_fields(s, st, lt, t, tt)),
        logs(j, ev),
        s.len() > 0,
        lt.len() > 0,
        t.len() > 0,
    ensures
        active_links(events.push(j)) == active_links(events).push((s, lt, t)),
        record_items(events.push(j)) == record_items(events),
{
    lemma_linked_record(j, ev, s, st, lt, t, tt);
    assert(events.push(j).drop_last() =~= events);
    crate::record::lemma_record_items_push(events, j);
}

/// A removed link is inactive: once the log holds the record of an
/// `ItemUnlinked` event, the active links are those before less every copy
/// of the removed link, and the items of the record are unchanged.
pub proof fn law_unlinked_is_inactive(events: Seq<Json>, ev: OutEvent, j: Json, s: Seq<char>, lt: Seq<char>, t: Seq<char>)
    requires
        ev_is(ev, "ItemUnlinked"@, links_module(), ev.correlation_id@, link_fields(s, lt, t)),
        logs(j, ev),
    ensures
        active_links(events.push(j)) == active_links(events).filter(differs_from((s, lt, t))),
        !active_links(events.push(j)).contains((s, lt, t)),
        record_items(events.push(j)) == record_items(events),
{
    lemma_unlinked_record(j, ev, s, lt, t);
    assert(events.push(j).drop_last() =~= events);
    crate::record::lemma_record_items_push(events, j);
    let kept = active_links(events).filter(differs_from((s, lt, t)));
    broadcast use vstd::seq_lib::group_filter_ensures;
    if kept.contains((s, lt, t)) {
        let k = choose|k: int| 0 <= k < kept.len() && kept[k] == (s, lt, t);
        assert(differs_from((s, lt, t))(kept[k]));
    }
}

/// A link that was added is refused as a duplicate when added again: once
/// the log holds the record of the `ItemLinked` event that decided a
/// request to add a link, the same request is decided by
/// `LinkFailedDuplicateLink`.
pub proof fn law_add_again_is_duplicate(schema: ProjectSchema, events: Seq<Json>, ev: OutEvent, j: Json,
    s: Seq<char>, lt: Seq<char>, t: Seq<char>)
    requires
        add_link_event(schema, events, s, lt, t).0 == "ItemLinked"@,
        ev_is(ev, "ItemLinked"@, links_module(), ev.correlation_id@, add_link_event(schema, events, s, lt, t).1),
        logs(j, ev),
        s.len() > 0,
        lt.len() > 0,
        t.len() > 0,
    ensures
        add_link_event(schema, events.push(j), s, lt, t)
            == ("LinkFailedDuplicateLink"@, seq![("failure_reason"@, JView::Str("duplicate_link"@))] + link_fields(s, lt, t)),
{
    reveal_strlit("ItemLinked");
    reveal_strlit("LinkFailedItemNotFound");
    reveal_strlit("LinkFailedItemTypeUnrecognized");
    reveal_strlit("LinkFailedRelationTypeUnrecognized");
    reveal_strlit("LinkFailedDuplicateLink");
    assert("ItemLinked"@[0] != "LinkFailedItemNotFound"@[0]);
    assert("ItemLinked"@[0] != "LinkFailedItemTypeUnrecognized"@[0]);
    assert("ItemLinked"@[0] != "LinkFailedRelationTypeUnrecognized"@[0]);
    assert("ItemLinked"@[0] != "LinkFailedDuplicateLink"@[0]);
    let si = registry_item(events, s).unwrap();
    let ti = registry_item(events, t).unwrap();
    law_linked_is_active(events, ev, j, s, si.item_type, lt, t, ti.item_type);
    let a = active_links(events);
    assert(a.push((s, lt, t))[a.len() as int] == (s, lt, t));
}

/// Removing a link undoes adding it: once the log holds the record of the
/// `ItemLinked` event that decided a request to add a link, then that of
/// the `ItemUnlinked` event that decides the request to remove it, the
/// active links are those before the add.
pub proof fn law_remove_undoes_add(schema: ProjectSchema, events: Seq<Json>, ev1: OutEvent, j1: Json, ev2: OutEvent, j2: Json,
    s: Seq<char>, lt: Seq<char>, t: Seq<char>)
    requires
        add_link_event(schema, events, s, lt, t).0 == "ItemLinked"@,
        ev_is(ev1, "ItemLinked"@, links_module(), ev1.correlation_id@, add_link_event(schema, events, s, lt, t).1),
        logs(j1, ev1),
        ev_is(ev2, "ItemUnlinked"@, links_module(), ev2.correlation_id@, remove_link_event(events.push(j1), s, lt, t).1),
        logs(j2, ev2),
        s.len() > 0,
        lt.len() > 0,
        t.len() > 0,
    ensures
        remove_link_event(events.push(j1), s, lt, t) == ("ItemUnlinked"@, link_fields(s, lt, t)),
        active_links(events.push(j1).push(j2)) == active_links(events),
{
    reveal_strlit("ItemLinked");
    reveal_strlit("LinkFailedItemNotFound");
    reveal_strlit("LinkFailedItemTypeUnrecognized");
    reveal_strlit("LinkFailedRelationTypeUnrecognized");
    reveal_strlit("LinkFailedDuplicateLink");
    assert("ItemLinked"@[0] != "LinkFailedItemNotFound"@[0]);
    assert("ItemLinked"@[0] != "LinkFailedItemTypeUnrecognized"@[0]);
    assert("ItemLinked"@[0] != "LinkFailedRelationTypeUnrecognized"@[0]);
    assert("ItemLinked"@[0] != "LinkFailedDuplicateLink"@[0]);
    let si = registry_item(events, s).unwrap();
    let ti = registry_item(events, t).unwrap();
    let a = active_links(events);
    law_linked_is_active(events, ev1, j1, s, si.item_type, lt, t, ti.item_type);
    assert(a.push((s, lt, t))[a.len() as int] == (s, lt, t));
    law_unlinked_is_inactive(events.push(j1), ev2, j2, s, lt, t);
    a.lemma_filter_push((s, lt, t), differs_from((s, lt, t)));
    lemma_filter_absent(a, (s, lt, t));
}

// ─── Showing items ────────────────────────────────────────────────────────────

/// How an item is shown next to a link: its type, description and the
/// first eight bytes of its identifier, or `(unknown)` when the record
/// has no such item.
pub open spec fn item_display(item: Option<ItemView>, id: Seq<char>) -> Seq<char> {
    match item {
        Some(it) => "["@ + it.item_type + "] "@ + it.description + " ("@ + crate::report::short_session(id) + "...)"@,
        None => "(unknown) ("@ + crate::report::short_session(id) + "...)"@,
    }
}

/// The registry's item with identifier `id` (the last one listed).
pub open spec fn registered_item(registry: Seq<ItemView>, id: Seq<char>) -> Option<ItemView> {
    match last_index(registry, has_id(id)) {
        Some(k) => Some(registry[k]),
        None => None,
    }
}

/// Shows an item of the registry by its identifier.
pub fn display_item(id: &str, registry: &Vec<RecordedItem>) -> (r: String)
    requires
        crate::report::shortenable(id@),
    ensures
        r@ == item_display(registered_item(items_view(registry@), id@), id@),
{
    let short = crate::report::short_session_id(id);
    match find_last_item(registry, id) {
        Some(k) => {
            proof { lemma_last_index(items_view(registry@), has_id(id@), k as int); }
            let it = &registry[k];
            let mut r = "[".to_owned();
            r.append(it.item_type.as_str());
            r.append("] ");
            r.append(it.description.as_str());
            r.append(" (");
            r.append(short.as_str());
            r.append("...)");
            r
        },
        None => {
            let mut r = "(unknown) (".to_owned();
            r.append(short.as_str());
            r.append("...)");
            r
        },
    }
}

} // verus!
