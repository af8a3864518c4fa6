use lucidpm::payload::{log_record, Json, OutEvent};
use lucidpm::projects::{init_directory_not_accessible, init_requested, list_requested, list_returned, open_project,
    project_initialized, read_registry, register_project, registry_document, InitCheck};
use lucidpm::record::SessionReadError;
use lucidpm::schema::{BlockTypeDef, LogseqRenderer, PageTypeDef, ProjectSchema, RendererConfig};
use lucidpm::state::{incorporate, incorporation_within_bounds, latest_unincorporated, read_incorporated_sessions, record_queried,
    record_query_schema_invalid, view_record, Incorporation};
use lucidpm::task::{add_task, all_record_item_ids, task_add_requested, task_add_schema_invalid, task_type_and_marker};

fn s(x: &str) -> Json {
    Json::Str(x.to_string())
}

fn obj(fields: Vec<(&str, Json)>) -> Json {
    Json::Obj(fields.into_iter().map(|(k, v)| (k.to_string(), v)).collect())
}

fn event(module: &str, etype: &str, cid: &str, payload: Json) -> Json {
    obj(vec![("event_type", s(etype)), ("source_module", s(module)), ("correlation_id", s(cid)), ("payload", payload)])
}

fn strings(v: &[&str]) -> Vec<String> {
    v.iter().map(|x| x.to_string()).collect()
}

fn schema() -> ProjectSchema {
    ProjectSchema {
        schema_version: 1,
        properties: Vec::new(),
        statuses: strings(&["done", "open", "todo"]),
        page_types: vec![(
            "Risk".to_string(),
            PageTypeDef { uses: Vec::new(), allowed_statuses: Vec::new(), aliases: strings(&["risk"]) },
        )],
        block_types: vec![(
            "Task".to_string(),
            BlockTypeDef {
                markers: vec![("DONE".to_string(), "done".to_string()), ("TODO".to_string(), "todo".to_string())],
                uses: Vec::new(),
            },
        )],
        relations: Vec::new(),
        renderers: RendererConfig { logseq: LogseqRenderer { relations: Vec::new(), properties: Vec::new() } },
    }
}

/// An extraction of the given items (id, type), confirmed with all of them accepted.
fn confirmed(sid: &str, items: &[(&str, &str)]) -> Vec<Json> {
    let entries: Vec<Json> = items.iter().map(|(id, t)| obj(vec![("item_id", s(id)), ("item_type", s(t)), ("description", s("d"))])).collect();
    let ids: Vec<Json> = items.iter().map(|(id, _)| s(id)).collect();
    vec![
        event("pm_structuring", "ItemsExtracted", sid, obj(vec![("items", Json::List(entries))])),
        event("pm_structuring", "ExtractionConfirmed", sid, obj(vec![("accepted_item_ids", Json::List(ids))])),
    ]
}

#[test]
fn a_session_is_incorporated_once() {
    let mut events = confirmed("s1", &[("r1", "risk"), ("r2", "risk")]);
    assert!(incorporation_within_bounds(&events, "s1"));
    let mut outbox: Vec<OutEvent> = Vec::new();
    match incorporate(&events, "s1", "c1", &mut outbox) {
        Ok(Incorporation::Incorporated { count, total, sessions }) => {
            assert_eq!(count, 2);
            assert_eq!(total, 2);
            assert_eq!(sessions, 1);
        },
        _ => panic!("the session should be incorporated"),
    }
    assert_eq!(outbox.len(), 2);
    assert_eq!(outbox[1].event_type, "ItemsIncorporated");
    for ev in outbox.drain(..) {
        events.push(log_record(ev, "e", 1));
    }
    assert_eq!(read_incorporated_sessions(&events), vec![("s1".to_string(), 2)]);
    let mut outbox: Vec<OutEvent> = Vec::new();
    assert!(matches!(incorporate(&events, "s1", "c2", &mut outbox), Ok(Incorporation::Duplicate)));
    assert_eq!(outbox[1].event_type, "IncorporationFailedDuplicate");
}

#[test]
fn incorporating_an_unconfirmed_session_fails() {
    let events = vec![event("pm_structuring", "ItemsExtracted", "s1", obj(vec![("items", Json::List(vec![]))]))];
    let mut outbox: Vec<OutEvent> = Vec::new();
    assert!(matches!(incorporate(&events, "s1", "c", &mut outbox), Err(SessionReadError::NoExtractionConfirmed)));
    assert_eq!(outbox.len(), 1);
    let mut outbox: Vec<OutEvent> = Vec::new();
    assert!(matches!(incorporate(&vec![], "s9", "c", &mut outbox), Err(SessionReadError::NoItemsExtracted)));
}

#[test]
fn the_latest_unincorporated_session_is_found() {
    let mut events = confirmed("s1", &[("a", "risk")]);
    events.extend(confirmed("s2", &[("b", "risk")]));
    assert_eq!(latest_unincorporated(&events), Some("s2".to_string()));
    events.push(event("project_state", "ItemsIncorporated", "c", obj(vec![("session_id", s("s2")), ("incorporated_count", Json::Num(1))])));
    assert_eq!(latest_unincorporated(&events), Some("s1".to_string()));
    events.push(event("project_state", "ItemsIncorporated", "c", obj(vec![("session_id", s("s1")), ("incorporated_count", Json::Num(1))])));
    assert_eq!(latest_unincorporated(&events), None);
}

#[test]
fn viewing_the_record_shows_known_types() {
    let sc = schema();
    let mut outbox: Vec<OutEvent> = Vec::new();
    record_queried("c", &mut outbox);
    record_query_schema_invalid("c", &mut outbox);
    assert_eq!(outbox[0].event_type, "RecordQueried");
    assert_eq!(outbox[1].event_type, "RecordQueryFailedSchemaInvalid");
    let mut outbox: Vec<OutEvent> = Vec::new();
    assert!(matches!(view_record(&sc, &vec![], "c", &mut outbox), Ok(None)));
    assert_eq!(outbox[0].event_type, "RecordQueryFailedEmpty");
    let mut events = confirmed("s1", &[("r1", "risk"), ("g1", "gadget")]);
    events.push(event("project_state", "ItemsIncorporated", "c", obj(vec![("session_id", s("s1")), ("incorporated_count", Json::Num(2))])));
    let mut outbox: Vec<OutEvent> = Vec::new();
    let listing = view_record(&sc, &events, "c", &mut outbox).ok().flatten().unwrap();
    assert_eq!(listing.total_count, 2);
    assert_eq!(listing.session_count, 1);
    assert_eq!(listing.items.len(), 1);
    assert_eq!(listing.items[0].1, "Risk");
    assert_eq!(outbox[0].event_type, "SchemaTypeUnknown");
    assert_eq!(outbox[1].event_type, "RecordReturned");
}

#[test]
fn tasks_go_under_items_of_the_record() {
    let sc = schema();
    let mut outbox: Vec<OutEvent> = Vec::new();
    task_add_requested("Write", "r1", None, "c", &mut outbox);
    task_add_schema_invalid("c", &mut outbox);
    assert!(matches!(outbox[0].payload[2].1, Json::Null));
    assert_eq!(outbox[1].event_type, "TaskAddFailedSchemaInvalid");
    let mut outbox: Vec<OutEvent> = Vec::new();
    let (t, m) = task_type_and_marker(&sc, Some("TODO"), "c", &mut outbox).unwrap();
    assert_eq!((t.as_str(), m.as_str()), ("Task", "TODO"));
    let (_, m) = task_type_and_marker(&sc, Some("LATER"), "c", &mut outbox).unwrap();
    assert_eq!(m, "DONE");
    let mut bare = schema();
    bare.block_types = Vec::new();
    assert!(task_type_and_marker(&bare, None, "c", &mut outbox).is_none());
    assert_eq!(outbox[0].event_type, "TaskAddFailedTaskTypeNotDefined");
    let mut events = confirmed("s1", &[("r1", "risk")]);
    events.push(event("project_state", "ItemsIncorporated", "c", obj(vec![("session_id", s("s1"))])));
    events.push(event("task_model", "TaskAdded", "c", obj(vec![("task_id", s("t0")), ("item_type", s("Task"))])));
    assert_eq!(all_record_item_ids(&events), strings(&["r1", "t0"]));
    let mut outbox: Vec<OutEvent> = Vec::new();
    assert!(add_task(&events, "Task", "TODO", "Write", "zz", "c", &mut outbox).is_none());
    assert_eq!(outbox[0].event_type, "TaskAddFailedParentNotFound");
    let id = add_task(&events, "Task", "TODO", "Write", "r1", "c", &mut outbox).unwrap();
    assert_eq!(id.len(), 36);
    assert_eq!(outbox[1].event_type, "TaskAdded");
}

#[test]
fn the_registry_reads_and_writes_its_document() {
    let doc = obj(vec![("projects", Json::List(vec![
        obj(vec![("name", s("alpha")), ("dir", s("/a"))]),
        obj(vec![("name", s("broken"))]),
        obj(vec![("name", s("beta")), ("dir", s("/b"))]),
    ]))]);
    let projects = read_registry(&doc);
    assert_eq!(projects, vec![("alpha".to_string(), "/a".to_string()), ("beta".to_string(), "/b".to_string())]);
    let back = read_registry(&registry_document(&projects));
    assert_eq!(back, projects);
    assert!(read_registry(&obj(vec![])).is_empty());
}

#[test]
fn registered_projects_open_and_names_are_unique() {
    let mut projects: Vec<(String, String)> = Vec::new();
    let mut outbox: Vec<OutEvent> = Vec::new();
    assert!(matches!(init_requested(&projects, "alpha", "./a", "c", &mut outbox), InitCheck::Free));
    register_project(&mut projects, "alpha", "/abs/a");
    project_initialized("alpha", "/abs/a", "c", &mut outbox);
    assert!(matches!(init_requested(&projects, "alpha", "./a", "c", &mut outbox), InitCheck::Duplicate));
    assert_eq!(outbox[3].event_type, "ProjectInitFailedDuplicate");
    init_directory_not_accessible("beta", "/x", "c", &mut outbox);
    assert_eq!(outbox[4].event_type, "ProjectInitFailedDirectoryNotAccessible");
    let mut outbox: Vec<OutEvent> = Vec::new();
    assert_eq!(open_project(&projects, "alpha", "c", &mut outbox), Some("/abs/a".to_string()));
    assert_eq!(outbox[1].event_type, "ProjectPathReturned");
    assert_eq!(open_project(&projects, "gamma", "c", &mut outbox), None);
    assert_eq!(outbox[3].event_type, "ProjectOpenFailedNotFound");
    list_requested("c", &mut outbox);
    list_returned(&projects, "c", &mut outbox);
    assert!(matches!(outbox[5].payload[0].1, Json::Num(1)));
}
