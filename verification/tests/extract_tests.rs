use lucidpm::extract::{already_processed_files, begin_folder_scan, build_status_section, build_system_prompt, build_type_list,
    confirmation_answer, default_active_marker, display_name, eligible_file_names, extract_from_raw, folder_not_found,
    folder_scan_completed, process_raw_item, read_wp_items, record_decision, record_extraction, reply_body, submit_text,
    user_message, vocabulary_allows_proposed_status, ExtractedItem, FolderScan, RawItem, WpRecord};
use lucidpm::payload::{Json, OutEvent};
use lucidpm::schema::{BlockTypeDef, LogseqRenderer, PageTypeDef, ProjectSchema, RendererConfig};

fn s(x: &str) -> Json {
    Json::Str(x.to_string())
}

fn obj(fields: Vec<(&str, Json)>) -> Json {
    Json::Obj(fields.into_iter().map(|(k, v)| (k.to_string(), v)).collect())
}

fn event(module: &str, etype: &str, cid: &str, payload: Json) -> Json {
    obj(vec![("event_type", s(etype)), ("source_module", s(module)), ("correlation_id", s(cid)), ("payload", payload)])
}

fn strings(v: &[&str]) -> Vec<String> {
    v.iter().map(|x| x.to_string()).collect()
}

fn page(statuses: &[&str], aliases: &[&str]) -> PageTypeDef {
    PageTypeDef { uses: Vec::new(), allowed_statuses: strings(statuses), aliases: strings(aliases) }
}

fn markers(m: &[(&str, &str)]) -> Vec<(String, String)> {
    m.iter().map(|(k, v)| (k.to_string(), v.to_string())).collect()
}

fn schema() -> ProjectSchema {
    ProjectSchema {
        schema_version: 1,
        properties: Vec::new(),
        statuses: strings(&["active", "done", "open", "todo"]),
        page_types: vec![
            ("Risk".to_string(), page(&["open", "mitigated"], &["risk"])),
            ("Task".to_string(), page(&[], &["task"])),
            ("WorkPackage".to_string(), page(&["active", "done"], &["workpackage"])),
        ],
        block_types: vec![(
            "task".to_string(),
            BlockTypeDef { markers: markers(&[("DONE", "done"), ("TODO", "todo")]), uses: Vec::new() },
        )],
        relations: Vec::new(),
        renderers: RendererConfig { logseq: LogseqRenderer { relations: Vec::new(), properties: Vec::new() } },
    }
}

fn raw(t: &str, status: Option<&str>, priority: Option<&str>, parent: Option<&str>) -> RawItem {
    RawItem {
        item_type: t.to_string(),
        description: "Do it".to_string(),
        uncertain: false,
        uncertainty_reason: None,
        proposed_status: status.map(String::from),
        proposed_priority: priority.map(String::from),
        parent_item_id: parent.map(String::from),
    }
}

#[test]
fn proposed_statuses_must_be_allowed_for_the_type() {
    let sc = schema();
    assert!(vocabulary_allows_proposed_status(&sc, "risk", "open"));
    assert!(!vocabulary_allows_proposed_status(&sc, "risk", "done"));
    assert!(!vocabulary_allows_proposed_status(&sc, "Task", "open"));
    assert!(!vocabulary_allows_proposed_status(&sc, "gadget", "open"));
}

#[test]
fn page_types_go_by_their_first_alias() {
    let d = page(&[], &["risk", "hazard"]);
    assert_eq!(display_name("Risk", &d), "risk");
    let d = page(&[], &[]);
    assert_eq!(display_name("Risk", &d), "Risk");
}

#[test]
fn default_marker_prefers_todo_then_open_then_any() {
    assert_eq!(default_active_marker(&markers(&[("DONE", "done"), ("TODO", "todo"), ("LATER", "todo")])), Some("LATER".to_string()));
    assert_eq!(default_active_marker(&markers(&[("DONE", "done"), ("NOW", "doing"), ("ACTIVE", "doing")])), Some("ACTIVE".to_string()));
    assert_eq!(default_active_marker(&markers(&[("X", "done"), ("A", "cancelled")])), Some("A".to_string()));
    assert_eq!(default_active_marker(&Vec::new()), None);
}

#[test]
fn the_type_list_leaves_out_pages_a_block_type_supersedes() {
    let sc = schema();
    assert_eq!(build_type_list(&sc), "risk, task, workpackage");
}

#[test]
fn the_status_section_lists_allowed_statuses() {
    let sc = schema();
    assert_eq!(build_status_section(&sc), "- risk: open, mitigated\n- workpackage: active, done");
    let mut bare = schema();
    bare.page_types = vec![("Risk".to_string(), page(&[], &[]))];
    assert_eq!(build_status_section(&bare), "(no specific status vocabulary defined; use null)");
}

#[test]
fn the_prompt_names_types_statuses_and_work_packages() {
    let sc = schema();
    let plain = build_system_prompt(&sc, &vec![]);
    assert!(plain.starts_with("You are a project management assistant."));
    assert!(plain.contains("classify it as exactly one of the following types: risk, task, workpackage\n"));
    assert!(!plain.contains("Work Package Attribution"));
    let wps = vec![WpRecord { uuid: "w1".to_string(), description: "Build".to_string() }];
    let with = build_system_prompt(&sc, &wps);
    assert!(with.contains("\nWork Package Attribution:\nThe following work packages exist in the project record:\n  UUID: w1 — Build\n\nFor task items:"));
    assert!(with.ends_with("  ]\n}"));
}

#[test]
fn the_user_message_frames_the_text() {
    assert_eq!(
        user_message("notes"),
        "Extract structured project management elements from the following text:\n\n---\nnotes\n---"
    );
}

#[test]
fn proposed_items_are_checked_against_the_vocabulary() {
    let sc = schema();
    let wps = strings(&["w1"]);
    let item = process_raw_item(&sc, raw("risk", Some("open"), Some("urgent"), Some("w1")), &wps, Some("task"), Some("TODO"), "id1".to_string());
    assert_eq!(item.item_type, "risk");
    assert_eq!(item.proposed_status, Some("open".to_string()));
    assert_eq!(item.proposed_priority, None);
    assert_eq!(item.parent_item_id, None);
    assert_eq!(item.initial_marker, None);
    let task = process_raw_item(&sc, raw("task", None, Some("high"), Some("w1")), &wps, Some("task"), Some("TODO"), "id2".to_string());
    assert_eq!(task.parent_item_id, Some("w1".to_string()));
    assert_eq!(task.initial_marker, Some("TODO".to_string()));
    assert_eq!(task.proposed_priority, Some("high".to_string()));
    let stray = process_raw_item(&sc, raw("task", None, None, Some("w9")), &wps, Some("task"), Some("TODO"), "id3".to_string());
    assert_eq!(stray.parent_item_id, None);
    let odd = process_raw_item(&sc, raw("gadget", Some("open"), None, None), &wps, Some("task"), None, "id4".to_string());
    assert_eq!(odd.item_type, "unknown");
    assert!(odd.uncertain);
    assert_eq!(odd.uncertainty_reason, Some("type not recognized by active vocabulary: gadget".to_string()));
    assert_eq!(odd.proposed_status, None);
}

#[test]
fn extraction_gives_each_item_a_fresh_identifier() {
    let sc = schema();
    let items = extract_from_raw(&sc, vec![raw("task", None, None, None), raw("risk", None, None, None)], &vec![]);
    assert_eq!(items.len(), 2);
    assert_eq!(items[0].item_id.len(), 36);
    assert_ne!(items[0].item_id, items[1].item_id);
    assert_eq!(items[0].initial_marker, Some("TODO".to_string()));
}

#[test]
fn replies_lose_their_code_fences() {
    assert_eq!(reply_body("```json\n{\"items\": []}\n```"), "{\"items\": []}");
    assert_eq!(reply_body("  ```\n{}\n``` "), "{}");
    assert_eq!(reply_body("{\"a\":1}"), "{\"a\":1}");
}

#[test]
fn work_packages_come_from_confirmed_incorporated_sessions() {
    let sc = schema();
    let events = vec![
        event("pm_structuring", "ItemsExtracted", "s1", obj(vec![("items", Json::List(vec![
            obj(vec![("item_id", s("w1")), ("item_type", s("workpackage")), ("description", s("Build"))]),
            obj(vec![("item_id", s("r1")), ("item_type", s("risk")), ("description", s("Delay"))]),
            obj(vec![("item_id", s("w2")), ("item_type", s("WorkPackage")), ("description", s("Test"))]),
        ]))])),
        event("pm_structuring", "ExtractionConfirmed", "s1", obj(vec![("accepted_item_ids", Json::List(vec![s("w1"), s("r1")]))])),
        event("project_state", "ItemsIncorporated", "c", obj(vec![("session_id", s("s1"))])),
    ];
    let wps = read_wp_items(&sc, &events);
    assert_eq!(wps.len(), 1);
    assert_eq!(wps[0].uuid, "w1");
    assert_eq!(wps[0].description, "Build");
}

#[test]
fn processed_files_are_those_extracted_before() {
    let events = vec![
        event("pm_structuring", "ItemsExtracted", "a", obj(vec![("source_file", s("a.md"))])),
        event("pm_structuring", "ItemsExtracted", "b", obj(vec![("source_file", Json::Null)])),
    ];
    assert_eq!(already_processed_files(&events), strings(&["a.md"]));
}

#[test]
fn extraction_events_follow_the_steps() {
    let mut outbox: Vec<OutEvent> = Vec::new();
    assert!(!submit_text("   ", "c", &mut outbox));
    assert_eq!(outbox.len(), 2);
    assert_eq!(outbox[1].event_type, "ExtractionFailedEmptyInput");
    let mut outbox: Vec<OutEvent> = Vec::new();
    assert!(submit_text("héllo", "c", &mut outbox));
    assert!(matches!(outbox[0].payload[1].1, Json::Num(6)));
    assert!(!record_extraction(&vec![], "héllo", None, "c", &mut outbox));
    assert_eq!(outbox[1].event_type, "ExtractionFailedNoContent");
    let item = ExtractedItem {
        item_id: "i1".to_string(),
        item_type: "risk".to_string(),
        description: "d".to_string(),
        uncertain: true,
        uncertainty_reason: Some("vague".to_string()),
        proposed_status: None,
        proposed_priority: None,
        parent_item_id: None,
        initial_marker: None,
    };
    let items = vec![item];
    assert!(record_extraction(&items, "x", Some("n.md"), "c", &mut outbox));
    assert_eq!(outbox[2].event_type, "ItemsExtracted");
    assert!(matches!(outbox[2].payload[2].1, Json::Num(1)));
    record_decision(&items, true, "c", &mut outbox);
    assert_eq!(outbox[3].event_type, "ExtractionConfirmed");
    record_decision(&items, false, "c", &mut outbox);
    assert_eq!(outbox[4].event_type, "ExtractionRejected");
    assert!(outbox[4].payload.is_empty());
}

#[test]
fn confirmation_answers() {
    assert!(confirmation_answer(" Yes\n"));
    assert!(confirmation_answer("y"));
    assert!(!confirmation_answer("no"));
    assert!(!confirmation_answer(""));
}

#[test]
fn folder_scans_take_new_notes_in_order() {
    let names = strings(&["b.md", "a.txt", "c.pdf", "notes.md.bak"]);
    assert_eq!(eligible_file_names(&names), strings(&["a.txt", "b.md"]));
    let processed = strings(&["a.txt"]);
    let mut scan = FolderScan::new(2);
    assert!(scan.skip_if_processed("a.txt", &processed));
    assert!(!scan.skip_if_processed("b.md", &processed));
    assert!(!scan.take_content(Some("  \n")));
    assert!(scan.nothing_new());
    let mut outbox: Vec<OutEvent> = Vec::new();
    begin_folder_scan("/notes", true, "f", &mut outbox);
    folder_not_found("/notes", "f", &mut outbox);
    folder_scan_completed("/notes", &scan, "f", &mut outbox);
    assert_eq!(outbox[0].event_type, "FolderScanRequested");
    assert!(matches!(outbox[0].payload[1].1, Json::Bool(true)));
    assert_eq!(outbox[1].event_type, "ExtractionFailedFolderNotFound");
    assert!(matches!(outbox[2].payload[2].1, Json::Num(2)));
}
