//! The registry of projects: reading and writing its document, and the
//! decisions of registering, listing and opening named projects.
use vstd::prelude::*;
use crate::text::{str_eq, views};
use crate::payload::{Json, JView, OutEvent, EventSpec, jv, pv, get, as_array, str_of, jstr, jarr, appended, lemma_appended_none,
    lemma_appended_push, emit, js, payload1, payload2, payload3};

verus! {

/// The views of registry entries: name and directory.
pub open spec fn entries_view(v: Seq<(String, String)>) -> Seq<(Seq<char>, Seq<char>)> {
    v.map_values(|p: (String, String)| (p.0@, p.1@))
}

/// The project an entry of the registry document describes, when it has a
/// name and a directory.
pub open spec fn project_of(p: Json) -> Option<(Seq<char>, Seq<char>)> {
    match (str_of(p, "name"@), str_of(p, "dir"@)) {
        (Some(n), Some(d)) => Some((n, d)),
        _ => None,
    }
}

/// The projects of a registry document: the entries of its `projects`
/// array that have a name and a directory, in order.
pub open spec fn registry_projects(doc: Json) -> Seq<(Seq<char>, Seq<char>)> {
    match as_array(get(doc, "projects"@)) {
        Some(a) => a.filter_map(|p: Json| project_of(p)),
        None => Seq::empty(),
    }
}

/// The projects a registry document lists.
pub fn read_registry(doc: &Json) -> (r: Vec<(String, String)>)
    ensures
        entries_view(r@) == registry_projects(*doc),
{
    let mut out: Vec<(String, String)> = Vec::new();
    match jarr(doc, "projects") {
        Some(a) => {
            for i in 0..a.len()
                invariant
                    entries_view(out@) == a@.take(i as int).filter_map(|p: Json| project_of(p)),
            {
                proof { assert(a@.take(i + 1).drop_last() =~= a@.take(i as int)); }
                let ghost before = entries_view(out@);
                match (jstr(&a[i], "name"), jstr(&a[i], "dir")) {
                    (Some(n), Some(d)) => {
                        out.push((n.to_owned(), d.to_owned()));
                        proof { assert(entries_view(out@) =~= before + seq![(n@, d@)]); }
                    },
                    _ => {},
                }
            }
            proof { assert(a@.take(a.len() as int) =~= a@); }
        },
        None => {
            proof { assert(entries_view(out@) =~= Seq::<(Seq<char>, Seq<char>)>::empty()); }
        },
    }
    out
}

/// The JSON object of a project.
pub open spec fn project_json(p: (Seq<char>, Seq<char>)) -> JView {
    JView::Obj(seq![("name"@, JView::Str(p.0)), ("dir"@, JView::Str(p.1))])
}

/// The JSON list of projects.
pub open spec fn projects_json(v: Seq<(Seq<char>, Seq<char>)>) -> JView {
    JView::List(v.map_values(|p: (Seq<char>, Seq<char>)| project_json(p)))
}

/// The JSON list of projects.
fn projects_to_json(projects: &Vec<(String, String)>) -> (r: Json)
    ensures
        jv(r) == projects_json(entries_view(projects@)),
{
    let ghost ev = entries_view(projects@);
    let mut vals: Vec<Json> = Vec::new();
    for k in 0..projects.len()
        invariant
            ev == entries_view(projects@),
            vals.len() == k,
            forall|m: int| 0 <= m < k ==> jv(#[trigger] vals@[m]) == project_json(ev[m]),
    {
        let fields = payload2("name", js(projects[k].0.as_str()), "dir", js(projects[k].1.as_str()));
        let ghost fv = pv(fields@);
        let o = Json::Obj(fields);
        proof {
            match jv(o) {
                JView::Obj(x) => { assert(x =~= fv); },
                _ => {},
            }
        }
        vals.push(o);
    }
    let r = Json::List(vals);
    proof {
        match jv(r) {
            JView::List(x) => { assert(x =~= ev.map_values(|p: (Seq<char>, Seq<char>)| project_json(p))); },
            _ => {},
        }
    }
    r
}

/// The registry document of the projects: `{"projects": [{"name", "dir"}]}`.
pub fn registry_document(projects: &Vec<(String, String)>) -> (r: Json)
    ensures
        jv(r) == JView::Obj(seq![("projects"@, projects_json(entries_view(projects@)))]),
{
    let list = projects_to_json(projects);
    let fields = payload1("projects", list);
    let ghost fv = pv(fields@);
    let r = Json::Obj(fields);
    proof {
        match jv(r) {
            JView::Obj(x) => { assert(x =~= fv); },
            _ => {},
        }
    }
    r
}

// ─── Registry events ──────────────────────────────────────────────────────────

/// The module that keeps the registry.
pub open spec fn registry_module() -> Seq<char> {
    "multi_project"@
}

/// Records one registry event.
fn emit_registry(outbox: &mut Vec<OutEvent>, etype: &str, cid: &str, payload: Vec<(String, Json)>)
    ensures
        appended(old(outbox)@, final(outbox)@, registry_module(), cid@, seq![(etype@, pv(payload@))]),
{
    let ghost start = outbox@;
    proof { lemma_appended_none(start, registry_module(), cid@); }
    emit(outbox, etype, "multi_project", cid, payload);
    proof {
        lemma_appended_push(start, start, outbox@, registry_module(), cid@, Seq::empty(), (etype@, pv(payload@)));
        assert(Seq::<EventSpec>::empty().push((etype@, pv(payload@))) =~= seq![(etype@, pv(payload@))]);
    }
}

/// A project of that name is registered.
pub open spec fn registered(projects: Seq<(Seq<char>, Seq<char>)>, name: Seq<char>) -> bool {
    exists|i: int| 0 <= i < projects.len() && (#[trigger] projects[i]).0 == name
}

/// The position of the first project with that name.
fn find_project(projects: &Vec<(String, String)>, name: &str) -> (r: Option<usize>)
    ensures
        match r {
            Some(i) => i < projects.len() && projects@[i as int].0@ == name@
                && forall|j: int| 0 <= j < i ==> (#[trigger] projects@[j]).0@ != name@,
            None => !registered(entries_view(projects@), name@),
        },
{
    let mut i: usize = 0;
    while i < projects.len()
        invariant
            i <= projects.len(),
            forall|j: int| 0 <= j < i ==> (#[trigger] projects@[j]).0@ != name@,
        decreases projects.len() - i,
    {
        if str_eq(projects[i].0.as_str(), name) {
            return Some(i);
        }
        i = i + 1;
    }
    proof {
        assert forall|j: int| 0 <= j < entries_view(projects@).len() implies (#[trigger] entries_view(projects@)[j]).0 != name@ by {
            assert(entries_view(projects@)[j].0 == projects@[j].0@);
        }
    }
    None
}

/// The outcome of registering a project.
pub enum InitCheck {
    /// A project of that name is registered already.
    Duplicate,
    /// The name is free.
    Free,
}

/// Records the request to register a project and checks its name: a name
/// registered already is refused (and the refusal recorded).
pub fn init_requested(projects: &Vec<(String, String)>, name: &str, dir: &str, cid: &str, outbox: &mut Vec<OutEvent>) -> (r: InitCheck)
    ensures
        ({
            let req: EventSpec = ("ProjectInitRequested"@, seq![("project_name"@, JView::Str(name@)), ("project_dir"@, JView::Str(dir@))]);
            if registered(entries_view(projects@), name@) {
                r is Duplicate && appended(old(outbox)@, final(outbox)@, registry_module(), cid@, seq![req,
                    ("ProjectInitFailedDuplicate"@, seq![("failure_reason"@, JView::Str("project_name_already_exists"@)),
                        ("project_name"@, JView::Str(name@))])])
            } else {
                r is Free && appended(old(outbox)@, final(outbox)@, registry_module(), cid@, seq![req])
            }
        }),
{
    let ghost start = outbox@;
    let ghost req: EventSpec = ("ProjectInitRequested"@, seq![("project_name"@, JView::Str(name@)), ("project_dir"@, JView::Str(dir@))]);
    proof { lemma_appended_none(start, registry_module(), cid@); }
    emit(outbox, "ProjectInitRequested", "multi_project", cid, payload2("project_name", js(name), "project_dir", js(dir)));
    proof {
        lemma_appended_push(start, start, outbox@, registry_module(), cid@, Seq::empty(), req);
        assert(Seq::<EventSpec>::empty().push(req) =~= seq![req]);
    }
    match find_project(projects, name) {
        Some(i) => {
            proof { assert(entries_view(projects@)[i as int].0 == name@); }
            let ghost mid = outbox@;
            let ghost dup: EventSpec = ("ProjectInitFailedDuplicate"@, seq![("failure_reason"@, JView::Str("project_name_already_exists"@)),
                ("project_name"@, JView::Str(name@))]);
            emit(outbox, "ProjectInitFailedDuplicate", "multi_project", cid,
                payload2("failure_reason", js("project_name_already_exists"), "project_name", js(name)));
            proof {
                lemma_appended_push(start, mid, outbox@, registry_module(), cid@, seq![req], dup);
                assert(seq![req].push(dup) =~= seq![req, dup]);
            }
            InitCheck::Duplicate
        },
        None => InitCheck::Free,
    }
}

/// Records that the project directory cannot be created or written.
pub fn init_directory_not_accessible(name: &str, dir: &str, cid: &str, outbox: &mut Vec<OutEvent>)
    ensures
        appended(old(outbox)@, final(outbox)@, registry_module(), cid@, seq![("ProjectInitFailedDirectoryNotAccessible"@,
            seq![("failure_reason"@, JView::Str("directory_not_accessible"@)), ("project_name"@, JView::Str(name@)),
                ("project_dir"@, JView::Str(dir@))])]),
{
    emit_registry(outbox, "ProjectInitFailedDirectoryNotAccessible", cid,
        payload3("failure_reason", js("directory_not_accessible"), "project_name", js(name), "project_dir", js(dir)));
}

/// Adds a project to the registry.
pub fn register_project(projects: &mut Vec<(String, String)>, name: &str, dir: &str)
    ensures
        entries_view(final(projects)@) == entries_view(old(projects)@).push((name@, dir@)),
{
    let ghost before = entries_view(projects@);
    projects.push((name.to_owned(), dir.to_owned()));
    proof { assert(entries_view(projects@) =~= before.push((name@, dir@))); }
}

/// Records a registered project and its directory.
pub fn project_initialized(name: &str, dir: &str, cid: &str, outbox: &mut Vec<OutEvent>)
    ensures
        appended(old(outbox)@, final(outbox)@, registry_module(), cid@, seq![("ProjectInitialized"@,
            seq![("project_name"@, JView::Str(name@)), ("project_dir"@, JView::Str(dir@))])]),
{
    emit_registry(outbox, "ProjectInitialized", cid, payload2("project_name", js(name), "project_dir", js(dir)));
}

/// Records a request to list the projects.
pub fn list_requested(cid: &str, outbox: &mut Vec<OutEvent>)
    ensures
        appended(old(outbox)@, final(outbox)@, registry_module(), cid@, seq![("ProjectListRequested"@, Seq::empty())]),
{
    let empty: Vec<(String, Json)> = Vec::new();
    proof { assert(pv(empty@) =~= Seq::<(Seq<char>, JView)>::empty()); }
    emit_registry(outbox, "ProjectListRequested", cid, empty);
}

/// Records the projects listed (their number as a 32-bit count).
pub fn list_returned(projects: &Vec<(String, String)>, cid: &str, outbox: &mut Vec<OutEvent>)
    ensures
        appended(old(outbox)@, final(outbox)@, registry_module(), cid@, seq![("ProjectListReturned"@,
            seq![("project_count"@, JView::Num((projects.len() as u32) as u64)), ("projects"@, projects_json(entries_view(projects@)))])]),
{
    let count = projects.len() as u32;
    let list = projects_to_json(projects);
    emit_registry(outbox, "ProjectListReturned", cid, payload2("project_count", Json::Num(count as u64), "projects", list));
}

/// The project is named `name`.
pub open spec fn named(name: Seq<char>) -> spec_fn((Seq<char>, Seq<char>)) -> bool {
    |p: (Seq<char>, Seq<char>)| p.0 == name
}

/// The directory of the first project of that name.
pub open spec fn project_dir(projects: Seq<(Seq<char>, Seq<char>)>, name: Seq<char>) -> Option<Seq<char>> {
    match crate::seqs::first_index(projects, named(name)) {
        Some(i) => Some(projects[i].1),
        None => None,
    }
}

/// Opens a registered project: records the request, then its directory or
/// that no project has that name; gives the directory.
pub fn open_project(projects: &Vec<(String, String)>, name: &str, cid: &str, outbox: &mut Vec<OutEvent>) -> (r: Option<String>)
    ensures
        ({
            let req: EventSpec = ("ProjectOpenRequested"@, seq![("project_name"@, JView::Str(name@))]);
            match project_dir(entries_view(projects@), name@) {
                Some(d) => r matches Some(x) && x@ == d && appended(old(outbox)@, final(outbox)@, registry_module(), cid@,
                    seq![req, ("ProjectPathReturned"@, seq![("project_name"@, JView::Str(name@)), ("project_dir"@, JView::Str(d))])]),
                None => r is None && appended(old(outbox)@, final(outbox)@, registry_module(), cid@,
                    seq![req, ("ProjectOpenFailedNotFound"@, seq![("failure_reason"@, JView::Str("project_not_found"@)),
                        ("project_name"@, JView::Str(name@))])]),
            }
        }),
{
    let ghost start = outbox@;
    let ghost ev = entries_view(projects@);
    let ghost req: EventSpec = ("ProjectOpenRequested"@, seq![("project_name"@, JView::Str(name@))]);
    proof { lemma_appended_none(start, registry_module(), cid@); }
    emit(outbox, "ProjectOpenRequested", "multi_project", cid, payload1("project_name", js(name)));
    proof {
        lemma_appended_push(start, start, outbox@, registry_module(), cid@, Seq::empty(), req);
        assert(Seq::<EventSpec>::empty().push(req) =~= seq![req]);
    }
    let ghost mid = outbox@;
    match find_project(projects, name) {
        Some(i) => {
            proof {
                assert forall|j: int| 0 <= j < i implies !named(name@)(#[trigger] ev[j]) by {
                    assert(ev[j].0 == projects@[j].0@);
                }
                assert(crate::seqs::is_first(ev, named(name@), i as int));
                crate::seqs::lemma_first_index(ev, named(name@), i as int);
            }
            let dir = projects[i].1.clone();
            let ghost e: EventSpec = ("ProjectPathReturned"@, seq![("project_name"@, JView::Str(name@)), ("project_dir"@, JView::Str(dir@))]);
            emit(outbox, "ProjectPathReturned", "multi_project", cid, payload2("project_name", js(name), "project_dir", js(dir.as_str())));
            proof {
                lemma_appended_push(start, mid, outbox@, registry_module(), cid@, seq![req], e);
                assert(seq![req].push(e) =~= seq![req, e]);
            }
            Some(dir)
        },
        None => {
            proof {
                assert forall|j: int| 0 <= j < ev.len() implies !named(name@)(#[trigger] ev[j]) by {}
                crate::seqs::lemma_first_index_none(ev, named(name@));
            }
            let ghost e: EventSpec = ("ProjectOpenFailedNotFound"@, seq![("failure_reason"@, JView::Str("project_not_found"@)),
                ("project_name"@, JView::Str(name@))]);
            emit(outbox, "ProjectOpenFailedNotFound", "multi_project", cid,
                payload2("failure_reason", js("project_not_found"), "project_name", js(name)));
            proof {
                lemma_appended_push(start, mid, outbox@, registry_module(), cid@, seq![req], e);
                assert(seq![req].push(e) =~= seq![req, e]);
            }
            None
        },
    }
}

// ─── Laws ─────────────────────────────────────────────────────────────────────

/// A project registered under a free name is found under that name with
/// its directory, and the name is no longer free (a second registration
/// under it is refused).
pub proof fn law_registered_project_opens(projects: Seq<(Seq<char>, Seq<char>)>, name: Seq<char>, dir: Seq<char>)
    requires
        !registered(projects, name),
    ensures
        registered(projects.push((name, dir)), name),
        project_dir(projects.push((name, dir)), name) == Some(dir),
{
    let after = projects.push((name, dir));
    let n = projects.len() as int;
    assert(after[n].0 == name);
    assert forall|j: int| 0 <= j < n implies !named(name)(#[trigger] after[j]) by {
        assert(after[j] == projects[j]);
    }
    assert(crate::seqs::is_first(after, named(name), n));
    crate::seqs::lemma_first_index(after, named(name), n);
}

/// Registering a project keeps every other project where it was: the
/// directory found under any other name is unchanged.
pub proof fn law_registration_keeps_others(projects: Seq<(Seq<char>, Seq<char>)>, name: Seq<char>, dir: Seq<char>, other: Seq<char>)
    requires
        other != name,
    ensures
        project_dir(projects.push((name, dir)), other) == project_dir(projects, other),
{
    let after = projects.push((name, dir));
    let n = projects.len() as int;
    assert forall|j: int| 0 <= j < n implies #[trigger] after[j] == projects[j] by {}
    if crate::seqs::any_of(projects, named(other)) {
        crate::seqs::lemma_first_index_some(projects, named(other));
        let i = crate::seqs::first_index(projects, named(other)).unwrap();
        assert forall|j: int| 0 <= j < i implies !named(other)(#[trigger] after[j]) by {
            assert(!named(other)(projects[j]));
        }
        assert(crate::seqs::is_first(after, named(other), i));
        crate::seqs::lemma_first_index(after, named(other), i);
    } else {
        assert forall|j: int| 0 <= j < after.len() implies !named(other)(#[trigger] after[j]) by {
            if j < n {
                assert(!named(other)(projects[j]));
            }
        }
        crate::seqs::lemma_first_index_none(after, named(other));
    }
}

} // verus!
