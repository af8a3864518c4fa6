//! YAML documents of vocabularies, as values: merging a vocabulary over
//! the one it extends, dropping its `extends:` key, and finding the file
//! it extends.
use vstd::prelude::*;
use crate::text::{str_eq, push_char};
use crate::chars::{chars_of, string_of, starts_with};

verus! {

/// A YAML value (numbers are kept as their text).
pub enum Yaml {
    Null,
    Bool(bool),
    Number(String),
    Str(String),
    List(Vec<Yaml>),
    Mapping(Vec<(Yaml, Yaml)>),
    Tagged(String, Box<Yaml>),
}

/// A YAML value, as values.
pub ghost enum YView {
    Null,
    Bool(bool),
    Number(Seq<char>),
    Str(Seq<char>),
    List(Seq<YView>),
    Mapping(Seq<(YView, YView)>),
    Tagged(Seq<char>, Box<YView>),
}

/// The view of a YAML value.
pub open spec fn yv(y: Yaml) -> YView
    decreases y,
{
    match y {
        Yaml::Null => YView::Null,
        Yaml::Bool(b) => YView::Bool(b),
        Yaml::Number(n) => YView::Number(n@),
        Yaml::Str(s) => YView::Str(s@),
        Yaml::List(l) => YView::List(Seq::new(l@.len(), |i: int| if 0 <= i < l@.len() { yv(l@[i]) } else { YView::Null })),
        Yaml::Mapping(m) => YView::Mapping(Seq::new(m@.len(), |i: int| if 0 <= i < m@.len() { (yv(m@[i].0), yv(m@[i].1)) } else {
            (YView::Null, YView::Null)
        })),
        Yaml::Tagged(t, b) => YView::Tagged(t@, Box::new(yv(*b))),
    }
}

/// The value under its tags.
pub open spec fn untagged(y: YView) -> YView
    decreases y,
{
    match y {
        YView::Tagged(_, b) => untagged(*b),
        _ => y,
    }
}

/// The value is a mapping, under its tags.
pub open spec fn is_mapping(y: YView) -> bool {
    untagged(y) is Mapping
}

/// The entry has key `k`.
pub open spec fn has_key_y(k: YView) -> spec_fn((YView, YView)) -> bool {
    |e: (YView, YView)| e.0 == k
}

/// The position of the (first) entry of `m` with key `k`, if any.
pub open spec fn key_index(m: Seq<(YView, YView)>, k: YView) -> Option<int> {
    crate::seqs::first_index(m, has_key_y(k))
}

/// The mapping with `k` set to `v`: in place when `k` is a key, else at
/// the end.
pub open spec fn map_insert(m: Seq<(YView, YView)>, k: YView, v: YView) -> Seq<(YView, YView)> {
    match key_index(m, k) {
        Some(i) => m.update(i, (m[i].0, v)),
        None => m.push((k, v)),
    }
}

/// The keys of a mapping are distinct.
pub open spec fn keys_distinct(m: Seq<(YView, YView)>) -> bool {
    forall|i: int, j: int| 0 <= i < j < m.len() ==> m[i].0 != m[j].0
}

/// Merges the entries `o` over `b`, one after the other: an entry whose
/// value and the value it replaces are both mappings is merged into it,
/// any other replaces it or is added.
pub open spec fn merge_entries(b: Seq<(YView, YView)>, o: Seq<(YView, YView)>) -> Seq<(YView, YView)>
    decreases o, 0int,
{
    if o.len() == 0 {
        b
    } else {
        let acc = merge_entries(b, o.drop_last());
        let k = o.last().0;
        let v = o.last().1;
        let merged = match key_index(acc, k) {
            Some(i) => if is_mapping(v) && is_mapping(acc[i].1) { ymerge(acc[i].1, v) } else { v },
            None => v,
        };
        map_insert(acc, k, merged)
    }
}

/// Merges `o` over `b`: two mappings merge entry by entry; otherwise `o`
/// replaces `b`.
pub open spec fn ymerge(b: YView, o: YView) -> YView
    decreases o, 1int,
{
    match (b, o) {
        (YView::Mapping(bm), YView::Mapping(om)) => YView::Mapping(merge_entries(bm, om)),
        (_, o) => o,
    }
}

/// The views of mapping entries.
pub open spec fn mview(m: Seq<(Yaml, Yaml)>) -> Seq<(YView, YView)> {
    Seq::new(m.len(), |i: int| (yv(m[i].0), yv(m[i].1)))
}

/// The view of a mapping is that of its entries.
proof fn lemma_mapping_view(m: Vec<(Yaml, Yaml)>)
    ensures
        yv(Yaml::Mapping(m)) == YView::Mapping(mview(m@)),
{
    match yv(Yaml::Mapping(m)) {
        YView::Mapping(x) => { assert(x =~= mview(m@)); },
        _ => {},
    }
}

/// The views of list elements.
pub open spec fn lview(l: Seq<Yaml>) -> Seq<YView> {
    Seq::new(l.len(), |i: int| yv(l[i]))
}

/// The view of a list is that of its elements.
proof fn lemma_list_view(l: Vec<Yaml>)
    ensures
        yv(Yaml::List(l)) == YView::List(lview(l@)),
{
    match yv(Yaml::List(l)) {
        YView::List(x) => { assert(x =~= lview(l@)); },
        _ => {},
    }
}

/// A copy of a YAML value.
pub fn copy_yaml(y: &Yaml) -> (r: Yaml)
    ensures
        yv(r) == yv(*y),
    decreases y,
{
    match y {
        Yaml::Null => {
            assert(yv(Yaml::Null) == YView::Null);
            Yaml::Null
        },
        Yaml::Bool(b) => Yaml::Bool(*b),
        Yaml::Number(n) => Yaml::Number(n.clone()),
        Yaml::Str(s) => Yaml::Str(s.clone()),
        Yaml::List(l) => {
            let mut out: Vec<Yaml> = Vec::new();
            for i in 0..l.len()
                invariant
                    *y == Yaml::List(*l),
                    out.len() == i,
                    forall|j: int| 0 <= j < i ==> yv(#[trigger] out@[j]) == yv(l@[j]),
            {
                proof {
                    assert(decreases_to!(*y => (*y)->List_0));
                    assert((*y)->List_0 == *l);
                    assert(decreases_to!(*l => l@));
                    assert(decreases_to!(l@ => l@[i as int]));
                    assert(decreases_to!(*y => l@[i as int]));
                }
                out.push(copy_yaml(&l[i]));
            }
            proof {
                lemma_list_view(out);
                lemma_list_view(*l);
                assert(lview(out@) =~= lview(l@));
            }
            Yaml::List(out)
        },
        Yaml::Mapping(m) => {
            let mut out: Vec<(Yaml, Yaml)> = Vec::new();
            for i in 0..m.len()
                invariant
                    *y == Yaml::Mapping(*m),
                    out.len() == i,
                    forall|j: int| 0 <= j < i ==> yv((#[trigger] out@[j]).0) == yv(m@[j].0) && yv(out@[j].1) == yv(m@[j].1),
            {
                proof {
                    assert(decreases_to!(*y => (*y)->Mapping_0));
                    assert((*y)->Mapping_0 == *m);
                    assert(decreases_to!(*m => m@));
                    assert(decreases_to!(m@ => m@[i as int]));
                    assert(decreases_to!(m@[i as int] => m@[i as int].0));
                    assert(decreases_to!(m@[i as int] => m@[i as int].1));
                    assert(decreases_to!(*y => m@[i as int].0));
                    assert(decreases_to!(*y => m@[i as int].1));
                }
                let k = copy_yaml(&m[i].0);
                let v = copy_yaml(&m[i].1);
                out.push((k, v));
            }
            proof {
                lemma_mapping_view(out);
                lemma_mapping_view(*m);
                assert(mview(out@) =~= mview(m@));
            }
            Yaml::Mapping(out)
        },
        Yaml::Tagged(t, b) => Yaml::Tagged(t.clone(), Box::new(copy_yaml(b))),
    }
}

/// Whether two YAML values are the same.
pub fn yaml_eq(a: &Yaml, b: &Yaml) -> (r: bool)
    ensures
        r == (yv(*a) == yv(*b)),
    decreases a,
{
    match (a, b) {
        (Yaml::Null, Yaml::Null) => true,
        (Yaml::Bool(x), Yaml::Bool(y)) => *x == *y,
        (Yaml::Number(x), Yaml::Number(y)) => str_eq(x.as_str(), y.as_str()),
        (Yaml::Str(x), Yaml::Str(y)) => str_eq(x.as_str(), y.as_str()),
        (Yaml::List(x), Yaml::List(y)) => {
            proof {
                lemma_list_view(*x);
                lemma_list_view(*y);
            }
            if x.len() != y.len() {
                proof {
                    if yv(*a) == yv(*b) {
                        assert(lview(x@).len() == lview(y@).len());
                    }
                }
                return false;
            }
            for i in 0..x.len()
                invariant
                    x.len() == y.len(),
                    *a == Yaml::List(*x),
                    *b == Yaml::List(*y),
                    yv(*a) == YView::List(lview(x@)),
                    yv(*b) == YView::List(lview(y@)),
                    forall|j: int| 0 <= j < i ==> lview(x@)[j] == lview(y@)[j],
            {
                proof { assert(decreases_to!(*a => x@[i as int])); }
                if !yaml_eq(&x[i], &y[i]) {
                    proof { assert(lview(x@)[i as int] != lview(y@)[i as int]); }
                    return false;
                }
            }
            proof { assert(lview(x@) =~= lview(y@)); }
            true
        },
        (Yaml::Mapping(x), Yaml::Mapping(y)) => {
            proof {
                lemma_mapping_view(*x);
                lemma_mapping_view(*y);
            }
            if x.len() != y.len() {
                proof {
                    if yv(*a) == yv(*b) {
                        assert(mview(x@).len() == mview(y@).len());
                    }
                }
                return false;
            }
            for i in 0..x.len()
                invariant
                    x.len() == y.len(),
                    *a == Yaml::Mapping(*x),
                    *b == Yaml::Mapping(*y),
                    yv(*a) == YView::Mapping(mview(x@)),
                    yv(*b) == YView::Mapping(mview(y@)),
                    forall|j: int| 0 <= j < i ==> mview(x@)[j] == mview(y@)[j],
            {
                proof {
                    assert(decreases_to!(*a => x@[i as int].0));
                    assert(decreases_to!(*a => x@[i as int].1));
                }
                let ke = yaml_eq(&x[i].0, &y[i].0);
                let ve = yaml_eq(&x[i].1, &y[i].1);
                if !ke || !ve {
                    proof { assert(mview(x@)[i as int] != mview(y@)[i as int]); }
                    return false;
                }
            }
            proof { assert(mview(x@) =~= mview(y@)); }
            true
        },
        (Yaml::Tagged(t, x), Yaml::Tagged(u, y)) => str_eq(t.as_str(), u.as_str()) && yaml_eq(x, y),
        _ => false,
    }
}

/// The value under its tags.
pub fn untag_ref(y: &Yaml) -> (r: &Yaml)
    ensures
        yv(*r) == untagged(yv(*y)),
    decreases y,
{
    match y {
        Yaml::Tagged(_, b) => {
            proof { assert(decreases_to!(*y => (*y)->Tagged_1)); }
            untag_ref(b)
        },
        _ => y,
    }
}

/// Whether the value is a mapping, under its tags.
pub fn is_mapping_value(y: &Yaml) -> (r: bool)
    ensures
        r == is_mapping(yv(*y)),
{
    let u = untag_ref(y);
    match u {
        Yaml::Mapping(m) => {
            proof { lemma_mapping_view(*m); }
            true
        },
        Yaml::List(l) => {
            proof { lemma_list_view(*l); }
            false
        },
        _ => false,
    }
}

/// The position of the first entry with key `k`.
fn find_entry(m: &Vec<(Yaml, Yaml)>, k: &Yaml) -> (r: Option<usize>)
    ensures
        r matches Some(j) ==> j < m.len() && key_index(mview(m@), yv(*k)) == Some(j as int),
        r is None ==> key_index(mview(m@), yv(*k)) is None,
{
    let ghost mv = mview(m@);
    let mut i: usize = 0;
    while i < m.len()
        invariant
            i <= m.len(),
            mv == mview(m@),
            forall|j: int| 0 <= j < i ==> !has_key_y(yv(*k))(#[trigger] mv[j]),
        decreases m.len() - i,
    {
        if yaml_eq(&m[i].0, k) {
            proof {
                assert(crate::seqs::is_first(mv, has_key_y(yv(*k)), i as int));
                crate::seqs::lemma_first_index(mv, has_key_y(yv(*k)), i as int);
            }
            return Some(i);
        }
        i = i + 1;
    }
    None
}

/// Merges a YAML value over another: mappings merge entry by entry (an
/// entry whose value and the value it replaces are both mappings is merged
/// into it, any other replaces it or is added at the end); anything else
/// replaces the base.
pub fn merge_yaml(base: Yaml, over: &Yaml) -> (r: Yaml)
    ensures
        yv(r) == ymerge(yv(base), yv(*over)),
    decreases over,
{
    match over {
        Yaml::Mapping(om) => {
            proof { lemma_mapping_view(*om); }
            match base {
                Yaml::Mapping(bm) => {
                    proof { lemma_mapping_view(bm); }
                    let ghost ov = mview(om@);
                    let ghost b0 = mview(bm@);
                    let mut acc = bm;
                    proof { assert(ov.take(0) =~= Seq::<(YView, YView)>::empty()); }
                    for i in 0..om.len()
                        invariant
                            ov == mview(om@),
                            *over == Yaml::Mapping(*om),
                            mview(acc@) == merge_entries(b0, ov.take(i as int)),
                    {
                        proof {
                            assert(ov.take(i + 1).drop_last() =~= ov.take(i as int));
                            assert(ov.take(i + 1).last() == ov[i as int]);
                        }
                        let ghost accv = mview(acc@);
                        let k = &om[i].0;
                        let v = &om[i].1;
                        match find_entry(&acc, k) {
                            Some(j) => {
                                let merged = if is_mapping_value(v) && is_mapping_value(&acc[j].1) {
                                    let bv = copy_yaml(&acc[j].1);
                                    proof {
                                        assert(decreases_to!(*over => (*over)->Mapping_0));
                                        assert((*over)->Mapping_0 == *om);
                                        assert(decreases_to!(*om => om@));
                                        assert(decreases_to!(om@ => om@[i as int]));
                                        assert(decreases_to!(om@[i as int] => om@[i as int].1));
                                        assert(decreases_to!(*over => om@[i as int].1));
                                    }
                                    merge_yaml(bv, v)
                                } else {
                                    copy_yaml(v)
                                };
                                let key = copy_yaml(&acc[j].0);
                                acc.set(j, (key, merged));
                                proof { assert(mview(acc@) =~= map_insert(accv, ov[i as int].0, yv(merged))); }
                            },
                            None => {
                                let key = copy_yaml(k);
                                let val = copy_yaml(v);
                                acc.push((key, val));
                                proof { assert(mview(acc@) =~= map_insert(accv, ov[i as int].0, ov[i as int].1)); }
                            },
                        }
                    }
                    proof {
                        assert(ov.take(om.len() as int) =~= ov);
                        lemma_mapping_view(acc);
                    }
                    Yaml::Mapping(acc)
                },
                _ => copy_yaml(over),
            }
        },
        _ => copy_yaml(over),
    }
}

/// The mapping without the entry of key `k`, its last entry moved into the
/// gap (as a swap removal does).
pub open spec fn swap_removed(m: Seq<(YView, YView)>, k: YView) -> Seq<(YView, YView)> {
    match key_index(m, k) {
        Some(i) => if i == m.len() - 1 { m.drop_last() } else { m.drop_last().update(i, m.last()) },
        None => m,
    }
}

/// The document without its `extends:` key (when it is a mapping).
pub open spec fn without_extends_key(y: YView) -> YView {
    match y {
        YView::Mapping(m) => YView::Mapping(swap_removed(m, YView::Str("extends"@))),
        _ => y,
    }
}

/// Drops the `extends:` key of a vocabulary document.
pub fn strip_extends(doc: Yaml) -> (r: Yaml)
    ensures
        yv(r) == without_extends_key(yv(doc)),
{
    match doc {
        Yaml::Mapping(mut m) => {
            proof { lemma_mapping_view(m); }
            let key = Yaml::Str("extends".to_owned());
            proof { reveal_strlit("extends"); }
            let ghost mv = mview(m@);
            assert(yv(key) == YView::Str("extends"@));
            match find_entry(&m, &key) {
                Some(i) => {
                    let n = m.len();
                    if i == n - 1 {
                        m.pop();
                        proof { assert(mview(m@) =~= mv.drop_last()); }
                    } else {
                        let last = m.pop().unwrap();
                        m.set(i, last);
                        proof { assert(mview(m@) =~= mv.drop_last().update(i as int, mv.last())); }
                    }
                    proof { lemma_mapping_view(m); }
                    Yaml::Mapping(m)
                },
                None => Yaml::Mapping(m),
            }
        },
        other => other,
    }
}

// ─── Finding the vocabulary ───────────────────────────────────────────────────

/// `~/…` with the home directory put for the tilde, when it is known.
pub open spec fn tilde_expanded(s: Seq<char>, home: Option<Seq<char>>) -> Seq<char> {
    if starts_with(s, "~/"@) && home is Some { home.unwrap() + s.skip(1) } else { s }
}

/// Expands a leading `~/` to the home directory, when it is known.
pub fn expand_tilde(s: &str, home: Option<&str>) -> (r: String)
    ensures
        r@ == tilde_expanded(s@, crate::schema::opt_str_view(home)),
{
    let v = chars_of(s);
    proof {
        assert(v@.subrange(0, v.len() as int) =~= s@);
        reveal_strlit("~/");
    }
    match home {
        Some(h) => {
            if crate::chars::has_prefix(&v, 0, v.len(), "~/") {
                let mut r = h.to_owned();
                let rest = string_of(&v, 1, v.len());
                proof { assert(v@.subrange(1, v.len() as int) =~= s@.skip(1)); }
                r.append(rest.as_str());
                r
            } else {
                s.to_owned()
            }
        },
        None => s.to_owned(),
    }
}

/// The file a vocabulary document extends: its `extends:` text (under
/// tags), with a leading `~/` expanded.
pub open spec fn extends_target(doc: YView, home: Option<Seq<char>>) -> Option<Seq<char>> {
    match untagged(doc) {
        YView::Mapping(m) => match key_index(m, YView::Str("extends"@)) {
            Some(i) => match untagged(m[i].1) {
                YView::Str(p) => Some(tilde_expanded(p, home)),
                _ => None,
            },
            None => None,
        },
        _ => None,
    }
}

/// The file a vocabulary document extends, if it names one.
pub fn extends_path(doc: &Yaml, home: Option<&str>) -> (r: Option<String>)
    ensures
        match r {
            Some(p) => extends_target(yv(*doc), crate::schema::opt_str_view(home)) == Some(p@),
            None => extends_target(yv(*doc), crate::schema::opt_str_view(home)) is None,
        },
{
    let u = untag_ref(doc);
    match u {
        Yaml::Mapping(m) => {
            proof {
                lemma_mapping_view(*m);
                reveal_strlit("extends");
            }
            let key = Yaml::Str("extends".to_owned());
            match find_entry(m, &key) {
                Some(i) => {
                    let val = untag_ref(&m[i].1);
                    match val {
                        Yaml::Str(p) => Some(expand_tilde(p.as_str(), home)),
                        Yaml::List(l) => {
                            proof { lemma_list_view(*l); }
                            None
                        },
                        Yaml::Mapping(mm) => {
                            proof { lemma_mapping_view(*mm); }
                            None
                        },
                        _ => None,
                    }
                },
                None => None,
            }
        },
        Yaml::List(l) => {
            proof { lemma_list_view(*l); }
            None
        },
        _ => None,
    }
}

/// The error when no vocabulary can be found: the two places searched.
pub fn schema_not_found() -> (r: crate::schema::SchemaError)
    ensures
        r@ == (crate::schema::SchemaErrorView::NotFound { searched: seq!["project vocabulary (project-schema.yaml)"@,
            "shared default (~/.lucidpm/default-schema.yaml)"@] }),
{
    let mut searched: Vec<String> = Vec::new();
    searched.push("project vocabulary (project-schema.yaml)".to_owned());
    searched.push("shared default (~/.lucidpm/default-schema.yaml)".to_owned());
    proof {
        assert(crate::text::views(searched@) =~= seq!["project vocabulary (project-schema.yaml)"@,
            "shared default (~/.lucidpm/default-schema.yaml)"@]);
    }
    crate::schema::SchemaError::NotFound { searched }
}

/// The error when the file a vocabulary extends does not exist.
pub fn extends_not_found(path: &str) -> (r: crate::schema::SchemaError)
    ensures
        r@ == (crate::schema::SchemaErrorView::ParseError { detail: "extends: path not found: "@ + path@ }),
{
    let mut detail = "extends: path not found: ".to_owned();
    detail.append(path);
    crate::schema::SchemaError::ParseError { detail }
}

/// Where the vocabulary comes from, given whether the project has its own
/// vocabulary file and whether the shared default exists.
pub enum SchemaSource {
    /// Neither exists.
    NotFound,
    /// Only the shared default exists: parse it.
    DefaultOnly,
    /// The project's file: merged over the file it extends, else over the
    /// shared default, else parsed alone.
    Project,
}

/// Chooses where the vocabulary comes from.
pub fn schema_source(project_exists: bool, default_exists: bool) -> (r: SchemaSource)
    ensures
        project_exists ==> r is Project,
        !project_exists && default_exists ==> r is DefaultOnly,
        !project_exists && !default_exists ==> r is NotFound,
{
    if project_exists {
        SchemaSource::Project
    } else if default_exists {
        SchemaSource::DefaultOnly
    } else {
        SchemaSource::NotFound
    }
}

/// The project document merged over its base (the file it extends, else
/// the shared default), without its `extends:` key.
pub fn merged_over_base(base: Yaml, project: Yaml) -> (r: Yaml)
    ensures
        yv(r) == ymerge(yv(base), without_extends_key(yv(project))),
{
    let over = strip_extends(project);
    merge_yaml(base, &over)
}

// ─── Laws ─────────────────────────────────────────────────────────────────────

/// The value of key `k` in a mapping (its first entry), if any.
pub open spec fn ylookup(m: Seq<(YView, YView)>, k: YView) -> Option<YView> {
    match key_index(m, k) {
        Some(i) => Some(m[i].1),
        None => None,
    }
}

/// Setting a key changes what is found under that key only.
proof fn lemma_lookup_insert(m: Seq<(YView, YView)>, k2: YView, v: YView, k: YView)
    ensures
        ylookup(map_insert(m, k2, v), k) == if k == k2 { Some(v) } else { ylookup(m, k) },
{
    let r = map_insert(m, k2, v);
    let p = has_key_y(k);
    if crate::seqs::any_of(m, has_key_y(k2)) {
        crate::seqs::lemma_first_index_some(m, has_key_y(k2));
    }
    match key_index(m, k2) {
        Some(i) => {
            assert(r == m.update(i, (m[i].0, v)));
            assert forall|j: int| 0 <= j < m.len() implies (p(#[trigger] r[j]) <==> p(m[j])) by {}
            if crate::seqs::any_of(m, p) {
                crate::seqs::lemma_first_index_some(m, p);
                let f = crate::seqs::first_index(m, p).unwrap();
                assert forall|j: int| 0 <= j < f implies !p(#[trigger] r[j]) by {
                    assert(!p(m[j]));
                }
                assert(crate::seqs::is_first(r, p, f));
                crate::seqs::lemma_first_index(r, p, f);
                if k == k2 {
                    crate::seqs::lemma_first_unique(m, p, f, i);
                } else if f == i {
                    assert(m[i].0 == k2);
                }
            } else {
                assert forall|j: int| 0 <= j < r.len() implies !p(#[trigger] r[j]) by {
                    assert(!p(m[j]));
                }
                crate::seqs::lemma_first_index_none(r, p);
                if k == k2 {
                    assert(p(m[i]));
                }
            }
        },
        None => {
            assert(r == m.push((k2, v)));
            assert forall|j: int| 0 <= j < m.len() implies !has_key_y(k2)(#[trigger] m[j]) by {
                if has_key_y(k2)(m[j]) {
                    crate::seqs::lemma_first_index_some(m, has_key_y(k2));
                }
            }
            if crate::seqs::any_of(m, p) {
                crate::seqs::lemma_first_index_some(m, p);
                let f = crate::seqs::first_index(m, p).unwrap();
                assert forall|j: int| 0 <= j < f implies !p(#[trigger] r[j]) by {
                    assert(!p(m[j]));
                }
                assert(crate::seqs::is_first(r, p, f));
                crate::seqs::lemma_first_index(r, p, f);
                if k == k2 {
                    assert(has_key_y(k2)(m[f]));
                }
            } else {
                if k == k2 {
                    assert forall|j: int| 0 <= j < m.len() implies !p(#[trigger] r[j]) by {
                        assert(!p(m[j]));
                    }
                    assert(crate::seqs::is_first(r, p, m.len() as int));
                    crate::seqs::lemma_first_index(r, p, m.len() as int);
                } else {
                    assert forall|j: int| 0 <= j < r.len() implies !p(#[trigger] r[j]) by {
                        if j < m.len() {
                            assert(!p(m[j]));
                        }
                    }
                    crate::seqs::lemma_first_index_none(r, p);
                }
            }
        },
    }
}

/// Merging a vocabulary over its base: under each key the merged document
/// holds what the overriding document holds, merged into the base's value
/// when both are mappings (maps merge recursively; lists and scalars
/// replace); under a key the overriding document lacks, it holds the
/// base's value.
pub proof fn law_merge_lookup(b: Seq<(YView, YView)>, o: Seq<(YView, YView)>, k: YView)
    requires
        keys_distinct(o),
    ensures
        ylookup(merge_entries(b, o), k) == match ylookup(o, k) {
            None => ylookup(b, k),
            Some(v) => Some(match ylookup(b, k) {
                Some(bv) => if is_mapping(v) && is_mapping(bv) { ymerge(bv, v) } else { v },
                None => v,
            }),
        },
    decreases o.len(),
{
    if o.len() > 0 {
        let o2 = o.drop_last();
        let k2 = o.last().0;
        let v2 = o.last().1;
        assert forall|i: int, j: int| 0 <= i < j < o2.len() implies o2[i].0 != o2[j].0 by {
            assert(o2[i] == o[i]);
            assert(o2[j] == o[j]);
        }
        law_merge_lookup(b, o2, k);
        law_merge_lookup(b, o2, k2);
        let acc = merge_entries(b, o2);
        let merged = match key_index(acc, k2) {
            Some(i) => if is_mapping(v2) && is_mapping(acc[i].1) { ymerge(acc[i].1, v2) } else { v2 },
            None => v2,
        };
        lemma_lookup_insert(acc, k2, merged, k);
        // what `o` holds under the last key and under the others
        assert forall|j: int| 0 <= j < o2.len() implies !has_key_y(k2)(#[trigger] o2[j]) by {
            assert(o2[j] == o[j]);
            assert(o[j].0 != o[o.len() - 1].0);
        }
        crate::seqs::lemma_first_index_none(o2, has_key_y(k2));
        let p = has_key_y(k);
        if k == k2 {
            assert forall|j: int| 0 <= j < o.len() - 1 implies !p(#[trigger] o[j]) by {
                assert(o[j] == o2[j]);
            }
            assert(crate::seqs::is_first(o, p, o.len() - 1));
            crate::seqs::lemma_first_index(o, p, o.len() - 1);
            if crate::seqs::any_of(acc, has_key_y(k2)) {
                crate::seqs::lemma_first_index_some(acc, has_key_y(k2));
            }
        } else {
            if crate::seqs::any_of(o2, p) {
                crate::seqs::lemma_first_index_some(o2, p);
                let f = crate::seqs::first_index(o2, p).unwrap();
                assert forall|j: int| 0 <= j < f implies !p(#[trigger] o[j]) by {
                    assert(o[j] == o2[j]);
                    assert(!p(o2[j]));
                }
                assert(o[f] == o2[f]);
                assert(crate::seqs::is_first(o, p, f));
                crate::seqs::lemma_first_index(o, p, f);
            } else {
                assert forall|j: int| 0 <= j < o.len() implies !p(#[trigger] o[j]) by {
                    if j < o2.len() {
                        assert(o[j] == o2[j]);
                        assert(!p(o2[j]));
                    }
                }
                crate::seqs::lemma_first_index_none(o, p);
            }
        }
    } else {
        crate::seqs::lemma_first_index_none(o, has_key_y(k));
    }
}

/// Merging over anything that is not a mapping, or with anything but a
/// mapping, gives the overriding value.
pub proof fn law_merge_replaces(b: YView, o: YView)
    requires
        !(b is Mapping && o is Mapping),
    ensures
        ymerge(b, o) == o,
{
}

} // verus!
