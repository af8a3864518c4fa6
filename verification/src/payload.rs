//! JSON values as the library sees them, and the events it decides to
//! append to the event log.
//!
//! Every operation of the library that records something pushes `OutEvent`s;
//! the caller gives each one an identifier and a time stamp and appends it
//! to the log as a JSON line. Events read back from the log are `Json`
//! objects.
use vstd::prelude::*;
use crate::seqs::{lookup, has_key, find_key, key_is, is_first, any_of, first_index, lemma_first_index, lemma_first_index_some, lemma_first_index_none};

verus! {

/// A JSON value. Numbers are held as the unsigned integer they denote;
/// a number that is no `u64` is read as `Null` (the library only ever asks
/// numbers for their `u64` value).
pub enum Json {
    Null,
    Str(String),
    Num(u64),
    Bool(bool),
    List(Vec<Json>),
    Obj(Vec<(String, Json)>),
}

/// A JSON value, as values.
pub ghost enum JView {
    Null,
    Str(Seq<char>),
    Num(u64),
    Bool(bool),
    List(Seq<JView>),
    Obj(Seq<(Seq<char>, JView)>),
}

/// The view of a JSON value.
pub open spec fn jv(j: Json) -> JView
    decreases j,
{
    match j {
        Json::Null => JView::Null,
        Json::Str(s) => JView::Str(s@),
        Json::Num(n) => JView::Num(n),
        Json::Bool(b) => JView::Bool(b),
        Json::List(l) => JView::List(Seq::new(l@.len(), |i: int| if 0 <= i < l@.len() { jv(l@[i]) } else { JView::Null })),
        Json::Obj(m) => JView::Obj(Seq::new(m@.len(), |i: int| if 0 <= i < m@.len() { (m@[i].0@, jv(m@[i].1)) } else { (Seq::empty(), JView::Null) })),
    }
}

/// The view of payload fields.
pub open spec fn pv(p: Seq<(String, Json)>) -> Seq<(Seq<char>, JView)> {
    p.map_values(|f: (String, Json)| (f.0@, jv(f.1)))
}

/// An event to append to the log: its type, the module that records it, the
/// correlation identifier of the operation and its payload fields in order.
pub struct OutEvent {
    pub event_type: String,
    pub source_module: String,
    pub correlation_id: String,
    pub payload: Vec<(String, Json)>,
}

/// `v` is the string value `s`.
pub open spec fn is_str(v: Json, s: Seq<char>) -> bool {
    v matches Json::Str(t) && t@ == s
}

/// `v` is the optional string `s`: the string when present, else null.
pub open spec fn is_opt(v: Json, s: Option<Seq<char>>) -> bool {
    match s {
        Some(t) => is_str(v, t),
        None => v is Null,
    }
}

/// `v` is the list of the strings `s`.
pub open spec fn is_str_list(v: Json, s: Seq<Seq<char>>) -> bool {
    v matches Json::List(l) && l.len() == s.len() && forall|i: int| 0 <= i < s.len() ==> is_str(#[trigger] l@[i], s[i])
}

/// The view of an optional string.
pub open spec fn opt_view(s: Option<String>) -> Option<Seq<char>> {
    match s {
        Some(t) => Some(t@),
        None => None,
    }
}

/// A string payload value.
pub fn pstr(s: &str) -> (r: Json)
    ensures
        is_str(r, s@),
{
    Json::Str(s.to_owned())
}

/// An optional string payload value: the string, or null.
pub fn popt(s: &Option<String>) -> (r: Json)
    ensures
        is_opt(r, opt_view(*s)),
{
    match s {
        Some(t) => Json::Str(t.clone()),
        None => Json::Null,
    }
}

/// A list of strings as a payload value.
pub fn pstr_list(v: &Vec<String>) -> (r: Json)
    ensures
        is_str_list(r, crate::text::views(v@)),
{
    let mut l: Vec<Json> = Vec::new();
    for i in 0..v.len()
        invariant
            l.len() == i,
            forall|j: int| 0 <= j < i ==> is_str(#[trigger] l@[j], v@[j]@),
    {
        l.push(pstr(v[i].as_str()));
    }
    Json::List(l)
}

/// A payload field.
pub fn field(key: &str, value: Json) -> (r: (String, Json))
    ensures
        r.0@ == key@,
        r.1 == value,
{
    (key.to_owned(), value)
}

/// An event with the given type, module, correlation identifier and payload.
pub fn out_event(event_type: &str, source_module: &str, correlation_id: &str, payload: Vec<(String, Json)>) -> (r: OutEvent)
    ensures
        r.event_type@ == event_type@,
        r.source_module@ == source_module@,
        r.correlation_id@ == correlation_id@,
        r.payload == payload,
{
    OutEvent {
        event_type: event_type.to_owned(),
        source_module: source_module.to_owned(),
        correlation_id: correlation_id.to_owned(),
        payload,
    }
}


/// The member `k` of `v` (`v[k]`): `Null` when `v` is no object or has no
/// such member.
pub open spec fn get(v: Json, k: Seq<char>) -> Json {
    match v {
        Json::Obj(m) => match lookup(m@, k) {
            Some(x) => x,
            None => Json::Null,
        },
        _ => Json::Null,
    }
}

/// `v` is an object with a member `k`.
pub open spec fn present(v: Json, k: Seq<char>) -> bool {
    v matches Json::Obj(m) && has_key(m@, k)
}

/// The string that `v` is, if it is one.
pub open spec fn as_str(v: Json) -> Option<Seq<char>> {
    match v {
        Json::Str(s) => Some(s@),
        _ => None,
    }
}

/// The unsigned number that `v` is, if it is one.
pub open spec fn as_u64(v: Json) -> Option<u64> {
    match v {
        Json::Num(n) => Some(n),
        _ => None,
    }
}

/// The boolean that `v` is, if it is one.
pub open spec fn as_bool(v: Json) -> Option<bool> {
    match v {
        Json::Bool(b) => Some(b),
        _ => None,
    }
}

/// The elements of `v`, if it is an array.
pub open spec fn as_array(v: Json) -> Option<Seq<Json>> {
    match v {
        Json::List(l) => Some(l@),
        _ => None,
    }
}

/// `v[k]` as a string.
pub open spec fn str_of(v: Json, k: Seq<char>) -> Option<Seq<char>> {
    as_str(get(v, k))
}

/// `v["payload"][k]` as a string.
pub open spec fn pstr_of(v: Json, k: Seq<char>) -> Option<Seq<char>> {
    as_str(get(get(v, "payload"@), k))
}

/// The member `k` of `v`, if present.
pub fn jget<'a>(v: &'a Json, k: &str) -> (r: Option<&'a Json>)
    ensures
        r matches Some(x) ==> present(*v, k@) && *x == get(*v, k@),
        r is None ==> !present(*v, k@) && get(*v, k@) == Json::Null,
{
    match v {
        Json::Obj(m) => match find_key(m, k) {
            Some(i) => Some(&m[i].1),
            None => None,
        },
        _ => None,
    }
}

/// `v[k]` as a string.
pub fn jstr<'a>(v: &'a Json, k: &str) -> (r: Option<&'a str>)
    ensures
        r matches Some(s) ==> str_of(*v, k@) == Some(s@),
        r is None ==> str_of(*v, k@) is None,
{
    match jget(v, k) {
        Some(Json::Str(s)) => Some(s.as_str()),
        _ => None,
    }
}

/// `v["payload"]`, or `Null`.
pub fn jpayload<'a>(v: &'a Json) -> (r: Option<&'a Json>)
    ensures
        r matches Some(x) ==> *x == get(*v, "payload"@),
        r is None ==> get(*v, "payload"@) == Json::Null,
{
    jget(v, "payload")
}

/// `v["payload"][k]` as a string.
pub fn jpstr<'a>(v: &'a Json, k: &str) -> (r: Option<&'a str>)
    ensures
        r matches Some(s) ==> pstr_of(*v, k@) == Some(s@),
        r is None ==> pstr_of(*v, k@) is None,
{
    match jpayload(v) {
        Some(p) => jstr(p, k),
        None => None,
    }
}

/// `v[k]` as an unsigned number.
pub fn ju64(v: &Json, k: &str) -> (r: Option<u64>)
    ensures
        r == as_u64(get(*v, k@)),
{
    match jget(v, k) {
        Some(Json::Num(n)) => Some(*n),
        _ => None,
    }
}

/// `v[k]` as an array.
pub fn jarr<'a>(v: &'a Json, k: &str) -> (r: Option<&'a Vec<Json>>)
    ensures
        r matches Some(l) ==> as_array(get(*v, k@)) == Some(l@),
        r is None ==> as_array(get(*v, k@)) is None,
{
    match jget(v, k) {
        Some(Json::List(l)) => Some(l),
        _ => None,
    }
}


// ─── Building events ──────────────────────────────────────────────────────────

/// The view of an optional string as a JSON value: the string, or null.
pub open spec fn jopt_v(o: Option<Seq<char>>) -> JView {
    match o {
        Some(s) => JView::Str(s),
        None => JView::Null,
    }
}

/// `ev` has the given type, module, correlation identifier and payload.
pub open spec fn ev_is(ev: OutEvent, etype: Seq<char>, module: Seq<char>, cid: Seq<char>, fields: Seq<(Seq<char>, JView)>) -> bool {
    &&& ev.event_type@ == etype
    &&& ev.source_module@ == module
    &&& ev.correlation_id@ == cid
    &&& pv(ev.payload@) == fields
}

/// A string JSON value.
pub fn js(s: &str) -> (r: Json)
    ensures
        jv(r) == JView::Str(s@),
{
    Json::Str(s.to_owned())
}

/// An optional string as a JSON value.
pub fn jo(o: &Option<String>) -> (r: Json)
    ensures
        jv(r) == jopt_v(match o {
            Some(t) => Some(t@),
            None => None::<Seq<char>>,
        }),
{
    match o {
        Some(t) => Json::Str(t.clone()),
        None => Json::Null,
    }
}

/// A list of strings as a JSON value.
pub fn jlist(v: &Vec<String>) -> (r: Json)
    ensures
        jv(r) == JView::List(crate::text::views(v@).map_values(|s: Seq<char>| JView::Str(s))),
{
    let mut l: Vec<Json> = Vec::new();
    for i in 0..v.len()
        invariant
            l.len() == i,
            forall|j: int| 0 <= j < i ==> jv(#[trigger] l@[j]) == JView::Str(v@[j]@),
    {
        l.push(js(v[i].as_str()));
    }
    let ghost lv = l@;
    let r = Json::List(l);
    proof {
        let x = match jv(r) { JView::List(x) => x, _ => Seq::empty() };
        assert(x.len() == lv.len());
        assert forall|i: int| 0 <= i < x.len() implies x[i] == JView::Str(v@[i]@) by {
            assert(x[i] == jv(lv[i]));
        }
        assert(x =~= crate::text::views(v@).map_values(|s: Seq<char>| JView::Str(s)));
    }
    r
}

/// Appends a field to a payload.
pub fn add_field(p: &mut Vec<(String, Json)>, k: &str, v: Json)
    ensures
        pv(final(p)@) == pv(old(p)@).push((k@, jv(v))),
{
    let ghost before = pv(p@);
    p.push((k.to_owned(), v));
    proof { assert(pv(p@) =~= before.push((k@, jv(v)))); }
}

/// Appends an event to an outbox.
pub fn emit(outbox: &mut Vec<OutEvent>, etype: &str, module: &str, cid: &str, payload: Vec<(String, Json)>)
    ensures
        final(outbox)@.len() == old(outbox)@.len() + 1,
        final(outbox)@.subrange(0, old(outbox)@.len() as int) == old(outbox)@,
        ev_is(final(outbox)@.last(), etype@, module@, cid@, pv(payload@)),
{
    outbox.push(out_event(etype, module, cid, payload));
    proof { assert(outbox@.subrange(0, old(outbox)@.len() as int) =~= old(outbox)@); }
}


/// A payload of 1 field(s), in order.
pub fn payload1(k1: &str, v1: Json) -> (r: Vec<(String, Json)>)
    ensures
        pv(r@) == seq![(k1@, jv(v1))],
{
    let mut p: Vec<(String, Json)> = Vec::new();
    p.push((k1.to_owned(), v1));
    proof { assert(pv(p@) =~= seq![(k1@, jv(v1))]); }
    p
}

/// A payload of 2 field(s), in order.
pub fn payload2(k1: &str, v1: Json, k2: &str, v2: Json) -> (r: Vec<(String, Json)>)
    ensures
        pv(r@) == seq![(k1@, jv(v1)), (k2@, jv(v2))],
{
    let mut p: Vec<(String, Json)> = Vec::new();
    p.push((k1.to_owned(), v1));
    p.push((k2.to_owned(), v2));
    proof { assert(pv(p@) =~= seq![(k1@, jv(v1)), (k2@, jv(v2))]); }
    p
}

/// A payload of 3 field(s), in order.
pub fn payload3(k1: &str, v1: Json, k2: &str, v2: Json, k3: &str, v3: Json) -> (r: Vec<(String, Json)>)
    ensures
        pv(r@) == seq![(k1@, jv(v1)), (k2@, jv(v2)), (k3@, jv(v3))],
{
    let mut p: Vec<(String, Json)> = Vec::new();
    p.push((k1.to_owned(), v1));
    p.push((k2.to_owned(), v2));
    p.push((k3.to_owned(), v3));
    proof { assert(pv(p@) =~= seq![(k1@, jv(v1)), (k2@, jv(v2)), (k3@, jv(v3))]); }
    p
}

/// A payload of 4 field(s), in order.
pub fn payload4(k1: &str, v1: Json, k2: &str, v2: Json, k3: &str, v3: Json, k4: &str, v4: Json) -> (r: Vec<(String, Json)>)
    ensures
        pv(r@) == seq![(k1@, jv(v1)), (k2@, jv(v2)), (k3@, jv(v3)), (k4@, jv(v4))],
{
    let mut p: Vec<(String, Json)> = Vec::new();
    p.push((k1.to_owned(), v1));
    p.push((k2.to_owned(), v2));
    p.push((k3.to_owned(), v3));
    p.push((k4.to_owned(), v4));
    proof { assert(pv(p@) =~= seq![(k1@, jv(v1)), (k2@, jv(v2)), (k3@, jv(v3)), (k4@, jv(v4))]); }
    p
}

/// A payload of 5 field(s), in order.
pub fn payload5(k1: &str, v1: Json, k2: &str, v2: Json, k3: &str, v3: Json, k4: &str, v4: Json, k5: &str, v5: Json) -> (r: Vec<(String, Json)>)
    ensures
        pv(r@) == seq![(k1@, jv(v1)), (k2@, jv(v2)), (k3@, jv(v3)), (k4@, jv(v4)), (k5@, jv(v5))],
{
    let mut p: Vec<(String, Json)> = Vec::new();
    p.push((k1.to_owned(), v1));
    p.push((k2.to_owned(), v2));
    p.push((k3.to_owned(), v3));
    p.push((k4.to_owned(), v4));
    p.push((k5.to_owned(), v5));
    proof { assert(pv(p@) =~= seq![(k1@, jv(v1)), (k2@, jv(v2)), (k3@, jv(v3)), (k4@, jv(v4)), (k5@, jv(v5))]); }
    p
}

/// A payload of 6 field(s), in order.
pub fn payload6(k1: &str, v1: Json, k2: &str, v2: Json, k3: &str, v3: Json, k4: &str, v4: Json, k5: &str, v5: Json, k6: &str, v6: Json) -> (r: Vec<(String, Json)>)
    ensures
        pv(r@) == seq![(k1@, jv(v1)), (k2@, jv(v2)), (k3@, jv(v3)), (k4@, jv(v4)), (k5@, jv(v5)), (k6@, jv(v6))],
{
    let mut p: Vec<(String, Json)> = Vec::new();
    p.push((k1.to_owned(), v1));
    p.push((k2.to_owned(), v2));
    p.push((k3.to_owned(), v3));
    p.push((k4.to_owned(), v4));
    p.push((k5.to_owned(), v5));
    p.push((k6.to_owned(), v6));
    proof { assert(pv(p@) =~= seq![(k1@, jv(v1)), (k2@, jv(v2)), (k3@, jv(v3)), (k4@, jv(v4)), (k5@, jv(v5)), (k6@, jv(v6))]); }
    p
}

/// A payload of 7 field(s), in order.
pub fn payload7(k1: &str, v1: Json, k2: &str, v2: Json, k3: &str, v3: Json, k4: &str, v4: Json, k5: &str, v5: Json, k6: &str, v6: Json, k7: &str, v7: Json) -> (r: Vec<(String, Json)>)
    ensures
        pv(r@) == seq![(k1@, jv(v1)), (k2@, jv(v2)), (k3@, jv(v3)), (k4@, jv(v4)), (k5@, jv(v5)), (k6@, jv(v6)), (k7@, jv(v7))],
{
    let mut p: Vec<(String, Json)> = Vec::new();
    p.push((k1.to_owned(), v1));
    p.push((k2.to_owned(), v2));
    p.push((k3.to_owned(), v3));
    p.push((k4.to_owned(), v4));
    p.push((k5.to_owned(), v5));
    p.push((k6.to_owned(), v6));
    p.push((k7.to_owned(), v7));
    proof { assert(pv(p@) =~= seq![(k1@, jv(v1)), (k2@, jv(v2)), (k3@, jv(v3)), (k4@, jv(v4)), (k5@, jv(v5)), (k6@, jv(v6)), (k7@, jv(v7))]); }
    p
}


/// Two appends, one after the other, keep what stood before and put the
/// first appended event right after it.
pub proof fn lemma_two_appended(start: Seq<OutEvent>, mid: Seq<OutEvent>, fin: Seq<OutEvent>)
    requires
        mid.len() == start.len() + 1,
        mid.subrange(0, start.len() as int) == start,
        fin.len() == mid.len() + 1,
        fin.subrange(0, mid.len() as int) == mid,
    ensures
        fin.subrange(0, start.len() as int) == start,
        fin[start.len() as int] == mid.last(),
        fin.len() == start.len() + 2,
{
    assert(fin.subrange(0, start.len() as int) =~= mid.subrange(0, start.len() as int));
    assert(fin[start.len() as int] == fin.subrange(0, mid.len() as int)[start.len() as int]);
}


// ─── Sequences of appended events ─────────────────────────────────────────────

/// An event to append, as values: its type and its payload fields.
pub type EventSpec = (Seq<char>, Seq<(Seq<char>, JView)>);

/// `after` is `before` followed by events recorded by `module` under `cid`
/// whose types and payloads are, in order, those of `evs`.
pub open spec fn appended(before: Seq<OutEvent>, after: Seq<OutEvent>, module: Seq<char>, cid: Seq<char>, evs: Seq<EventSpec>) -> bool {
    &&& after.len() == before.len() + evs.len()
    &&& after.subrange(0, before.len() as int) == before
    &&& forall|i: int| 0 <= i < evs.len() ==> ev_is(#[trigger] after[before.len() + i], evs[i].0, module, cid, evs[i].1)
}

/// Nothing appended.
pub proof fn lemma_appended_none(s: Seq<OutEvent>, module: Seq<char>, cid: Seq<char>)
    ensures
        appended(s, s, module, cid, Seq::empty()),
{
    assert(s.subrange(0, s.len() as int) =~= s);
}

/// One more event appended.
pub proof fn lemma_appended_push(before: Seq<OutEvent>, mid: Seq<OutEvent>, after: Seq<OutEvent>, module: Seq<char>, cid: Seq<char>, evs: Seq<EventSpec>, e: EventSpec)
    requires
        appended(before, mid, module, cid, evs),
        after.len() == mid.len() + 1,
        after.subrange(0, mid.len() as int) == mid,
        ev_is(after.last(), e.0, module, cid, e.1),
    ensures
        appended(before, after, module, cid, evs.push(e)),
{
    assert(after.subrange(0, before.len() as int) =~= mid.subrange(0, before.len() as int));
    assert forall|i: int| 0 <= i < evs.push(e).len() implies ev_is(#[trigger] after[before.len() + i], evs.push(e)[i].0, module, cid, evs.push(e)[i].1) by {
        if i < evs.len() {
            assert(after[before.len() + i] == after.subrange(0, mid.len() as int)[before.len() + i]);
        }
    }
}


// ─── Log records ──────────────────────────────────────────────────────────────

/// `j` is the log record of `ev`: its type, module and correlation
/// identifier as string members, and its payload as the object `payload`.
pub open spec fn logs(j: Json, ev: OutEvent) -> bool {
    &&& str_of(j, "event_type"@) == Some(ev.event_type@)
    &&& str_of(j, "source_module"@) == Some(ev.source_module@)
    &&& str_of(j, "correlation_id"@) == Some(ev.correlation_id@)
    &&& get(j, "payload"@) == Json::Obj(ev.payload)
}

/// The log record of an event, with the identifier and time stamp it is
/// appended under.
pub fn log_record(ev: OutEvent, event_id: &str, timestamp: u64) -> (r: Json)
    ensures
        logs(r, ev),
        str_of(r, "event_id"@) == Some(event_id@),
        as_u64(get(r, "timestamp"@)) == Some(timestamp),
{
    let ghost e = ev;
    let mut m: Vec<(String, Json)> = Vec::new();
    m.push(("event_id".to_owned(), Json::Str(event_id.to_owned())));
    m.push(("event_type".to_owned(), Json::Str(ev.event_type)));
    m.push(("timestamp".to_owned(), Json::Num(timestamp)));
    m.push(("correlation_id".to_owned(), Json::Str(ev.correlation_id)));
    m.push(("source_module".to_owned(), Json::Str(ev.source_module)));
    m.push(("payload".to_owned(), Json::Obj(ev.payload)));
    proof {
        reveal_strlit("event_id");
        reveal_strlit("event_type");
        reveal_strlit("timestamp");
        reveal_strlit("correlation_id");
        reveal_strlit("source_module");
        reveal_strlit("payload");
        let ks: Seq<Seq<char>> = seq!["event_id"@, "event_type"@, "timestamp"@, "correlation_id"@, "source_module"@, "payload"@];
        assert forall|i: int| 0 <= i < 6 implies #[trigger] m@[i].0@ == ks[i] by {}
        assert forall|i: int, j: int| 0 <= i < 6 && 0 <= j < 6 && i != j implies #[trigger] ks[i] != #[trigger] ks[j] by {
            if ks[i] == ks[j] {
                assert(ks[i].len() == ks[j].len());
                assert(ks[i][0] == ks[j][0]);
                assert(ks[i][1] == ks[j][1]);
            }
        }
        assert forall|i: int| 0 <= i < 6 implies #[trigger] is_first(m@, key_is::<Json>(ks[i]), i) by {
            assert forall|j: int| 0 <= j < i implies !key_is::<Json>(ks[i])(#[trigger] m@[j]) by {
                assert(m@[j].0@ == ks[j]);
            }
        }
        lemma_first_index(m@, key_is::<Json>(ks[0]), 0);
        lemma_first_index(m@, key_is::<Json>(ks[1]), 1);
        lemma_first_index(m@, key_is::<Json>(ks[2]), 2);
        lemma_first_index(m@, key_is::<Json>(ks[3]), 3);
        lemma_first_index(m@, key_is::<Json>(ks[4]), 4);
        lemma_first_index(m@, key_is::<Json>(ks[5]), 5);
    }
    Json::Obj(m)
}

/// The key of a field is `k`.
pub open spec fn vkey_is(k: Seq<char>) -> spec_fn((Seq<char>, JView)) -> bool {
    |f: (Seq<char>, JView)| f.0 == k
}

/// The string value of the first field with key `k`, if it is a string.
pub open spec fn vstr_of(fields: Seq<(Seq<char>, JView)>, k: Seq<char>) -> Option<Seq<char>> {
    match first_index(fields, vkey_is(k)) {
        Some(i) => match fields[i].1 {
            JView::Str(s) => Some(s),
            _ => None,
        },
        None => None,
    }
}

/// What a log record gives back of a payload member is what the payload
/// held.
pub proof fn lemma_logged_pstr(j: Json, ev: OutEvent, k: Seq<char>)
    requires
        logs(j, ev),
    ensures
        pstr_of(j, k) == vstr_of(pv(ev.payload@), k),
{
    let p = ev.payload@;
    let q = pv(p);
    assert(q.len() == p.len());
    assert forall|i: int| 0 <= i < p.len() implies (key_is::<Json>(k)(#[trigger] p[i]) <==> vkey_is(k)(q[i])) by {}
    if any_of(p, key_is::<Json>(k)) {
        lemma_first_index_some(p, key_is::<Json>(k));
        let i = first_index(p, key_is::<Json>(k)).unwrap();
        assert forall|jj: int| 0 <= jj < i implies !vkey_is(k)(#[trigger] q[jj]) by {
            assert(!key_is::<Json>(k)(p[jj]));
        }
        assert(is_first(q, vkey_is(k), i));
        lemma_first_index(q, vkey_is(k), i);
        assert(q[i].1 == jv(p[i].1));
        match p[i].1 {
            Json::Str(s) => {},
            _ => {},
        }
    } else {
        assert forall|jj: int| 0 <= jj < q.len() implies !vkey_is(k)(#[trigger] q[jj]) by {
            assert(!key_is::<Json>(k)(p[jj]));
        }
        lemma_first_index_none(q, vkey_is(k));
    }
}

/// A field list whose keys are the given ones, pairwise distinct, gives
/// back the value at the position of each key.
pub proof fn lemma_vstr_at(fields: Seq<(Seq<char>, JView)>, i: int)
    requires
        0 <= i < fields.len(),
        forall|j: int| 0 <= j < i ==> (#[trigger] fields[j]).0 != fields[i].0,
    ensures
        vstr_of(fields, fields[i].0) == match fields[i].1 {
            JView::Str(s) => Some(s),
            _ => None::<Seq<char>>,
        },
{
    assert(is_first(fields, vkey_is(fields[i].0), i));
    lemma_first_index(fields, vkey_is(fields[i].0), i);
}


// ─── Events of several modules ────────────────────────────────────────────────

/// An event to append with the module that records it.
pub type ModuleEvent = (Seq<char>, EventSpec);

/// `after` is `before` followed by events recorded under `cid` whose
/// modules, types and payloads are, in order, those of `evs`.
pub open spec fn appended_in(before: Seq<OutEvent>, after: Seq<OutEvent>, cid: Seq<char>, evs: Seq<ModuleEvent>) -> bool {
    &&& after.len() == before.len() + evs.len()
    &&& after.subrange(0, before.len() as int) == before
    &&& forall|i: int| 0 <= i < evs.len() ==> ev_is(#[trigger] after[before.len() + i], evs[i].1.0, evs[i].0, cid, evs[i].1.1)
}

/// Nothing appended.
pub proof fn lemma_appended_in_none(s: Seq<OutEvent>, cid: Seq<char>)
    ensures
        appended_in(s, s, cid, Seq::empty()),
{
    assert(s.subrange(0, s.len() as int) =~= s);
}

/// One more event appended.
pub proof fn lemma_appended_in_push(before: Seq<OutEvent>, mid: Seq<OutEvent>, after: Seq<OutEvent>, cid: Seq<char>, evs: Seq<ModuleEvent>, e: ModuleEvent)
    requires
        appended_in(before, mid, cid, evs),
        after.len() == mid.len() + 1,
        after.subrange(0, mid.len() as int) == mid,
        ev_is(after.last(), e.1.0, e.0, cid, e.1.1),
    ensures
        appended_in(before, after, cid, evs.push(e)),
{
    assert(after.subrange(0, before.len() as int) =~= mid.subrange(0, before.len() as int));
    assert forall|i: int| 0 <= i < evs.push(e).len() implies ev_is(#[trigger] after[before.len() + i], evs.push(e)[i].1.0, evs.push(e)[i].0, cid, evs.push(e)[i].1.1) by {
        if i < evs.len() {
            assert(after[before.len() + i] == after.subrange(0, mid.len() as int)[before.len() + i]);
        }
    }
}

/// The value of the first field with key `k` (null when there is none).
pub open spec fn vget(fields: Seq<(Seq<char>, JView)>, k: Seq<char>) -> JView {
    match first_index(fields, vkey_is(k)) {
        Some(i) => fields[i].1,
        None => JView::Null,
    }
}

/// A member read from an object is, in view, the member read from its
/// view.
pub proof fn lemma_get_view(x: Json, k: Seq<char>)
    ensures
        jv(get(x, k)) == match jv(x) {
            JView::Obj(f) => vget(f, k),
            _ => JView::Null,
        },
{
    match x {
        Json::Obj(m) => {
            let p = m@;
            let q = pv(p);
            assert(jv(x) == JView::Obj(q)) by {
                match jv(x) {
                    JView::Obj(f) => { assert(f =~= q); },
                    _ => {},
                }
            }
            assert forall|i: int| 0 <= i < p.len() implies (key_is::<Json>(k)(#[trigger] p[i]) <==> vkey_is(k)(q[i])) by {}
            if any_of(p, key_is::<Json>(k)) {
                lemma_first_index_some(p, key_is::<Json>(k));
                let i = first_index(p, key_is::<Json>(k)).unwrap();
                assert forall|jj: int| 0 <= jj < i implies !vkey_is(k)(#[trigger] q[jj]) by {
                    assert(!key_is::<Json>(k)(p[jj]));
                }
                assert(is_first(q, vkey_is(k), i));
                lemma_first_index(q, vkey_is(k), i);
            } else {
                assert forall|jj: int| 0 <= jj < q.len() implies !vkey_is(k)(#[trigger] q[jj]) by {
                    assert(!key_is::<Json>(k)(p[jj]));
                }
                lemma_first_index_none(q, vkey_is(k));
            }
        },
        _ => {},
    }
}

/// The field at position `i` of a field list whose earlier keys differ
/// from its key is the one read by that key.
pub proof fn lemma_vget_at(fields: Seq<(Seq<char>, JView)>, i: int)
    requires
        0 <= i < fields.len(),
        forall|j: int| 0 <= j < i ==> (#[trigger] fields[j]).0 != fields[i].0,
    ensures
        vget(fields, fields[i].0) == fields[i].1,
{
    assert(is_first(fields, vkey_is(fields[i].0), i));
    lemma_first_index(fields, vkey_is(fields[i].0), i);
}

/// A value whose view is a list is a list of values with those views.
pub proof fn lemma_list_view(v: Json)
    requires
        jv(v) is List,
    ensures
        as_array(v) matches Some(l) && l.len() == jv(v)->List_0.len()
            && forall|i: int| 0 <= i < l.len() ==> jv(#[trigger] l[i]) == jv(v)->List_0[i],
{
}

} // verus!
