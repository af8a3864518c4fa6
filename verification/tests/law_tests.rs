use lucidpm::export::{current_deadline, render_page};
use lucidpm::extract::{record_decision, record_extraction, ExtractedItem};
use lucidpm::record::confirmed_items_for_session;
use lucidpm::journal::{new_entry_name, parse_entry};
use lucidpm::payload::{log_record, Json, OutEvent};
use lucidpm::record::RecordedItem;
use lucidpm::schema::{is_well_formed, resolve_type, validate, BlockTypeDef, LogseqRenderer, PageTypeDef, ProjectSchema, RendererConfig};
use lucidpm::sync_parse::parse_page_properties;
use lucidpm::task::{add_task, all_record_item_ids, task_type_and_marker};

fn s(x: &str) -> Json {
    Json::Str(x.to_string())
}

fn obj(fields: Vec<(&str, Json)>) -> Json {
    Json::Obj(fields.into_iter().map(|(k, v)| (k.to_string(), v)).collect())
}

fn event(module: &str, etype: &str, cid: &str, payload: Json) -> Json {
    obj(vec![("event_type", s(etype)), ("source_module", s(module)), ("correlation_id", s(cid)), ("payload", payload)])
}

fn strings(v: &[&str]) -> Vec<String> {
    v.iter().map(|x| x.to_string()).collect()
}

fn renamed_schema() -> ProjectSchema {
    ProjectSchema {
        schema_version: 1,
        properties: Vec::new(),
        statuses: strings(&["active", "done"]),
        page_types: vec![
            ("Milestone".to_string(), PageTypeDef { uses: Vec::new(), allowed_statuses: strings(&["done"]), aliases: Vec::new() }),
            (
                "Workstream".to_string(),
                PageTypeDef { uses: Vec::new(), allowed_statuses: strings(&["active", "done"]), aliases: strings(&["WorkPackage"]) },
            ),
        ],
        block_types: Vec::new(),
        relations: Vec::new(),
        renderers: RendererConfig { logseq: LogseqRenderer { relations: Vec::new(), properties: Vec::new() } },
    }
}

#[test]
fn an_alias_keeps_old_entries_visible() {
    let sc = renamed_schema();
    assert!(validate(&sc).is_ok());
    assert_eq!(resolve_type(&sc, "WorkPackage"), Some("Workstream"));
    assert_eq!(resolve_type(&sc, "Workstream"), Some("Workstream"));
    assert_eq!(resolve_type(&sc, "Package"), None);
}

#[test]
fn a_journal_entry_name_reads_back() {
    let (name, title) = new_entry_name("Weekly Sync: Q3!", ".txt", "2024-05-01");
    assert_eq!(name, "2024-05-01-weekly-sync-q3.txt");
    assert_eq!(title, "Weekly Sync: Q3!");
    assert_eq!(parse_entry(&name), Some(("weekly sync q3".to_string(), "2024-05-01".to_string())));
    let (untitled, _) = new_entry_name("", "md", "2024-05-01");
    assert_eq!(parse_entry(&untitled), Some(("2024 05 01".to_string(), "2024-05-01".to_string())));
    let (symbols, _) = new_entry_name("!!!", "md", "2024-05-01");
    assert_eq!(symbols, "2024-05-01-.md");
    assert_eq!(parse_entry(&symbols), Some(("2024-05-01".to_string(), "2024-05-01".to_string())));
}

#[test]
fn an_added_task_joins_the_record() {
    let entries = vec![obj(vec![("item_id", s("w1")), ("item_type", s("Workstream")), ("description", s("Build"))])];
    let mut events = vec![
        event("pm_structuring", "ItemsExtracted", "s1", obj(vec![("items", Json::List(entries))])),
        event("pm_structuring", "ExtractionConfirmed", "s1", obj(vec![("accepted_item_ids", Json::List(vec![s("w1")]))])),
        event("project_state", "ItemsIncorporated", "c", obj(vec![("session_id", s("s1"))])),
    ];
    let mut outbox: Vec<OutEvent> = Vec::new();
    let id = add_task(&events, "Task", "TODO", "Write plan", "w1", "c2", &mut outbox).expect("the parent is in the record");
    assert_eq!(id.len(), 36);
    for (k, c) in id.chars().enumerate() {
        if k == 8 || k == 13 || k == 18 || k == 23 {
            assert_eq!(c, '-');
        } else {
            assert!(c.is_ascii_digit() || ('a'..='f').contains(&c));
        }
    }
    assert_eq!(id.chars().nth(14), Some('4'));
    let before = all_record_item_ids(&events);
    assert_eq!(before, vec!["w1".to_string()]);
    events.push(log_record(outbox.pop().unwrap(), "e1", 1));
    let after = all_record_item_ids(&events);
    assert_eq!(after, vec!["w1".to_string(), id.clone()]);
    let mut more: Vec<OutEvent> = Vec::new();
    assert!(add_task(&events, "Task", "TODO", "Sub step", &id, "c3", &mut more).is_some());
    assert!(add_task(&events, "Task", "TODO", "Orphan", "nope", "c4", &mut more).is_none());
}

#[test]
fn a_page_head_reads_back() {
    let item = RecordedItem {
        item_id: "w1".to_string(),
        item_type: "Workstream".to_string(),
        description: "Build".to_string(),
        uncertain: false,
        uncertainty_reason: None,
        session_id: "s1".to_string(),
        parent_item_id: None,
        current_marker: None,
    };
    let sc = renamed_schema();
    let page = render_page(&item, "Workstream", Some("active"), Some("high"), None, &Vec::new(), &Vec::new(), &Vec::new(), &sc);
    assert_eq!(parse_page_properties(&page), (Some("active".to_string()), Some("high".to_string())));
    let bare = render_page(&item, "Workstream", None, None, Some("2024-06-01"), &Vec::new(), &Vec::new(), &Vec::new(), &sc);
    assert_eq!(parse_page_properties(&bare), (None, None));
}

#[test]
fn a_confirmed_extraction_becomes_the_session() {
    let items = vec![
        ExtractedItem {
            item_id: "i-1".to_string(),
            item_type: "Risk".to_string(),
            description: "Vendor delay".to_string(),
            uncertain: true,
            uncertainty_reason: Some("vague".to_string()),
            proposed_status: Some("open".to_string()),
            proposed_priority: None,
            parent_item_id: None,
            initial_marker: None,
        },
        ExtractedItem {
            item_id: "i-2".to_string(),
            item_type: "Task".to_string(),
            description: "Call vendor".to_string(),
            uncertain: false,
            uncertainty_reason: None,
            proposed_status: None,
            proposed_priority: Some("high".to_string()),
            parent_item_id: Some("w1".to_string()),
            initial_marker: Some("TODO".to_string()),
        },
    ];
    let mut outbox: Vec<OutEvent> = Vec::new();
    assert!(record_extraction(&items, "notes", Some("notes.md"), "sess", &mut outbox));
    record_decision(&items, true, "sess", &mut outbox);
    let events: Vec<Json> = outbox.into_iter().enumerate().map(|(k, ev)| log_record(ev, &format!("e{}", k), k as u64)).collect();
    let got = confirmed_items_for_session(&events, "sess");
    assert_eq!(got.len(), 2);
    assert_eq!(got[0].item_id, "i-1");
    assert_eq!(got[0].item_type, "Risk");
    assert_eq!(got[0].description, "Vendor delay");
    assert!(got[0].uncertain);
    assert_eq!(got[0].uncertainty_reason.as_deref(), Some("vague"));
    assert_eq!(got[0].session_id, "sess");
    assert_eq!(got[1].item_id, "i-2");
    assert_eq!(got[1].parent_item_id.as_deref(), Some("w1"));
    assert_eq!(got[1].uncertainty_reason, None);
    assert_eq!(got[1].current_marker, None);
    let mut rejected: Vec<OutEvent> = Vec::new();
    record_decision(&items, false, "other", &mut rejected);
    assert_eq!(rejected.len(), 1);
    assert_eq!(rejected[0].event_type, "ExtractionRejected");
}

#[test]
fn a_new_task_starts_with_the_first_marker_defined() {
    let mut sc = renamed_schema();
    let defined = vec![("TODO", "active"), ("DOING", "active"), ("DONE", "done")];
    sc.block_types = vec![(
        "Task".to_string(),
        BlockTypeDef { markers: defined.iter().map(|(k, v)| (k.to_string(), v.to_string())).collect(), uses: Vec::new() },
    )];
    let mut outbox: Vec<OutEvent> = Vec::new();
    assert_eq!(task_type_and_marker(&sc, None, "c", &mut outbox), Some(("Task".to_string(), "TODO".to_string())));
    assert_eq!(task_type_and_marker(&sc, Some("DONE"), "c", &mut outbox), Some(("Task".to_string(), "DONE".to_string())));
    assert_eq!(task_type_and_marker(&sc, Some("LATER"), "c", &mut outbox), Some(("Task".to_string(), "TODO".to_string())));
    assert!(outbox.is_empty());
}

#[test]
fn an_exported_page_shows_the_recorded_deadline() {
    let mut events = vec![event(
        "task_model",
        "TaskAdded",
        "c1",
        obj(vec![
            ("task_id", s("t1")),
            ("item_type", s("Task")),
            ("description", s("Plan")),
            ("parent_item_id", s("w1")),
            ("deadline", s("2024-06-01")),
        ]),
    )];
    assert_eq!(current_deadline(&events, "t1"), Some("2024-06-01".to_string()));
    assert_eq!(current_deadline(&events, "w1"), None);
    events.push(event(
        "task_model",
        "TaskDatesUpdated",
        "c2",
        obj(vec![("task_id", s("t1")), ("new_scheduled_date", Json::Null), ("new_deadline", s("2024-07-15"))]),
    ));
    assert_eq!(current_deadline(&events, "t1"), Some("2024-07-15".to_string()));
}

#[test]
fn well_formed_vocabularies_keep_their_keys_in_order() {
    let sc = renamed_schema();
    assert!(is_well_formed(&sc));
    let mut swapped = renamed_schema();
    swapped.page_types.reverse();
    assert!(!is_well_formed(&swapped));
    let mut twice = renamed_schema();
    twice.statuses = strings(&["done", "done"]);
    assert!(!is_well_formed(&twice));
    let mut markers = renamed_schema();
    markers.block_types = vec![(
        "Task".to_string(),
        BlockTypeDef { markers: vec![("TODO".to_string(), "active".to_string()), ("TODO".to_string(), "done".to_string())], uses: Vec::new() },
    )];
    assert!(!is_well_formed(&markers));
    markers.block_types[0].1.markers[1].0 = "DONE".to_string();
    assert!(is_well_formed(&markers));
}

#[test]
fn the_first_item_with_a_base_keeps_it() {
    let got = lucidpm::slug::number_slugs(&strings(&["fix-bug", "fix-bug", "fix-bug-2"]));
    assert_eq!(got, strings(&["fix-bug", "fix-bug-3", "fix-bug-2"]));
}
