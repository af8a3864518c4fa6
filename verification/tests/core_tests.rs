use lucidpm::links::{add_link, remove_link, LinkAdd, LinkRemove};
use lucidpm::ontology::{clean_reply, is_valid_link_type, valid_statuses};
use lucidpm::payload::{log_record, Json, OutEvent};
use lucidpm::priority::{priority_rank, status_rank};
use lucidpm::schema::{all_status_names, canonical_task_block_type, is_block_type, is_valid_status, marker_to_status, resolve_type,
    validate, BlockTypeDef, LogseqRenderer, PageTypeDef, ProjectSchema, RelationDef, RendererConfig, SchemaError};
use lucidpm::slug::{decimal_string, description_to_slug, number_slugs, type_to_logseq_tag};
use lucidpm::record::current_priority;
use lucidpm::status::{set_priority, set_status, PriorityUpdate, StatusUpdate};
use lucidpm::sync_parse::{extract_page_ref, parse_logseq_date, parse_page_properties, strip_last_page_ref};
use lucidpm::text::{extract_marker, join_strings, sort_strings, sorted_distinct, str_lt};

fn s(x: &str) -> Json {
    Json::Str(x.to_string())
}

fn obj(fields: Vec<(&str, Json)>) -> Json {
    Json::Obj(fields.into_iter().map(|(k, v)| (k.to_string(), v)).collect())
}

fn event(module: &str, etype: &str, cid: &str, payload: Json) -> Json {
    obj(vec![("event_type", s(etype)), ("source_module", s(module)), ("correlation_id", s(cid)), ("payload", payload)])
}

fn strings(v: &[&str]) -> Vec<String> {
    v.iter().map(|x| x.to_string()).collect()
}

fn schema() -> ProjectSchema {
    ProjectSchema {
        schema_version: 1,
        properties: Vec::new(),
        statuses: strings(&["done", "mitigated", "open", "todo"]),
        page_types: vec![
            ("Risk".to_string(), PageTypeDef { uses: Vec::new(), allowed_statuses: strings(&["open", "mitigated"]), aliases: strings(&["risk"]) }),
            ("Stakeholder".to_string(), PageTypeDef { uses: Vec::new(), allowed_statuses: Vec::new(), aliases: strings(&["stakeholder"]) }),
        ],
        block_types: vec![(
            "Task".to_string(),
            BlockTypeDef { markers: vec![("DONE".to_string(), "done".to_string()), ("TODO".to_string(), "todo".to_string())], uses: Vec::new() },
        )],
        relations: vec![("affects".to_string(), RelationDef { source: strings(&["Risk"]), target: strings(&["Stakeholder"]) })],
        renderers: RendererConfig { logseq: LogseqRenderer { relations: Vec::new(), properties: Vec::new() } },
    }
}

fn record() -> Vec<Json> {
    let entries = vec![
        obj(vec![("item_id", s("r1")), ("item_type", s("risk")), ("description", s("Delay"))]),
        obj(vec![("item_id", s("p1")), ("item_type", s("stakeholder")), ("description", s("Alice"))]),
    ];
    vec![
        event("pm_structuring", "ItemsExtracted", "s1", obj(vec![("items", Json::List(entries))])),
        event("pm_structuring", "ExtractionConfirmed", "s1", obj(vec![("accepted_item_ids", Json::List(vec![s("r1"), s("p1")]))])),
        event("project_state", "ItemsIncorporated", "c", obj(vec![("session_id", s("s1"))])),
    ]
}

#[test]
fn the_vocabulary_resolves_aliases_and_markers() {
    let sc = schema();
    assert_eq!(resolve_type(&sc, "risk"), Some("Risk"));
    assert_eq!(resolve_type(&sc, "Task"), Some("Task"));
    assert_eq!(resolve_type(&sc, "gadget"), None);
    assert!(is_block_type(&sc, "Task"));
    assert!(!is_block_type(&sc, "Risk"));
    assert!(is_valid_status(&sc, "Risk", "open"));
    assert!(!is_valid_status(&sc, "Risk", "done"));
    assert_eq!(marker_to_status(&sc, "DONE"), Some("done"));
    assert_eq!(all_status_names(&sc), vec!["done", "mitigated", "open", "todo"]);
    assert_eq!(canonical_task_block_type(&sc).map(|(n, _)| n), Some("Task"));
    assert!(validate(&sc).is_ok());
}

#[test]
fn an_alias_that_collides_with_a_type_is_refused() {
    let mut sc = schema();
    sc.page_types[1].1.aliases = strings(&["Risk"]);
    match validate(&sc) {
        Err(SchemaError::AliasCollision { alias_value, .. }) => assert_eq!(alias_value, "Risk"),
        _ => panic!("an alias collision was expected"),
    }
}

#[test]
fn a_status_set_is_read_back() {
    let sc = schema();
    let mut events = record();
    let mut outbox: Vec<OutEvent> = Vec::new();
    assert!(matches!(set_status(&sc, &events, "zz", "open", "c", &mut outbox), StatusUpdate::ItemNotFound));
    assert!(matches!(set_status(&sc, &events, "r1", "done", "c", &mut outbox), StatusUpdate::InvalidStatus { .. }));
    match set_status(&sc, &events, "r1", "mitigated", "c", &mut outbox) {
        StatusUpdate::Updated { previous, .. } => assert_eq!(previous, None),
        _ => panic!("the status should be set"),
    }
    let ev = outbox.pop().unwrap();
    assert_eq!(ev.event_type, "ItemStatusUpdated");
    events.push(log_record(ev, "e1", 1));
    let mut outbox: Vec<OutEvent> = Vec::new();
    match set_status(&sc, &events, "r1", "open", "c", &mut outbox) {
        StatusUpdate::Updated { previous, .. } => assert_eq!(previous, Some("mitigated".to_string())),
        _ => panic!("the status should be set"),
    }
}

#[test]
fn a_priority_set_is_read_back() {
    let mut events = record();
    let mut outbox: Vec<OutEvent> = Vec::new();
    assert!(matches!(set_priority(&events, "r1", "urgent", "c", &mut outbox), PriorityUpdate::InvalidPriority { .. }));
    assert!(matches!(set_priority(&events, "r1", "high", "c", &mut outbox), PriorityUpdate::Updated { .. }));
    let ev = outbox.pop().unwrap();
    events.push(log_record(ev, "e1", 1));
    assert_eq!(current_priority(&events, "r1"), Some("high".to_string()));
}

#[test]
fn links_are_added_once_and_removed() {
    let sc = schema();
    let mut events = record();
    let mut outbox: Vec<OutEvent> = Vec::new();
    assert!(matches!(add_link(&sc, &events, "r1", "affects", "p1", "c", &mut outbox), LinkAdd::Linked { .. }));
    for ev in outbox.drain(..) {
        events.push(log_record(ev, "e", 1));
    }
    assert!(matches!(add_link(&sc, &events, "r1", "affects", "p1", "c", &mut outbox), LinkAdd::Duplicate));
    assert!(matches!(add_link(&sc, &events, "r1", "blocks", "p1", "c", &mut outbox), LinkAdd::RelationUnrecognized));
    assert!(matches!(add_link(&sc, &events, "zz", "affects", "p1", "c", &mut outbox), LinkAdd::SourceNotFound));
    outbox.clear();
    assert!(matches!(remove_link(&events, "r1", "affects", "p1", "c", &mut outbox), LinkRemove::Unlinked { .. }));
    for ev in outbox.drain(..) {
        events.push(log_record(ev, "e", 2));
    }
    assert!(matches!(remove_link(&events, "r1", "affects", "p1", "c", &mut outbox), LinkRemove::LinkNotFound));
}

#[test]
fn ranks_order_priorities_and_statuses() {
    assert_eq!(priority_rank(Some("high")), 1);
    assert_eq!(priority_rank(Some("low")), 3);
    assert_eq!(priority_rank(None), 4);
    assert_eq!(status_rank(Some("doing")), 1);
    assert_eq!(status_rank(Some("waiting")), 3);
    assert_eq!(status_rank(Some("weird")), 5);
}

#[test]
fn names_for_logseq() {
    assert_eq!(type_to_logseq_tag("WorkPackage"), "work-package");
    assert_eq!(type_to_logseq_tag("risk"), "risk");
    assert_eq!(description_to_slug("Fix the Login Bug!"), "fix-the-login-bug");
    assert_eq!(description_to_slug("  Hello, World!  "), "hello-world");
    assert_eq!(description_to_slug(&"word ".repeat(30)), vec!["word"; 24].join("-"));
    assert_eq!(description_to_slug(&("a".repeat(119) + "éé")), "a".repeat(119) + "é");
    assert_eq!(number_slugs(&strings(&["fix-bug", "fix-bug", "fix-bug-2"])), strings(&["fix-bug", "fix-bug-3", "fix-bug-2"]));
    assert_eq!(number_slugs(&strings(&["a", "a-3", "a", "a"])), strings(&["a", "a-3", "a-2", "a-4"]));
    assert_eq!(number_slugs(&strings(&["a-2", "a", "a"])), strings(&["a-2", "a", "a-3"]));
    assert_eq!(number_slugs(&strings(&["a", "b", "a", "a"])), strings(&["a", "b", "a-2", "a-3"]));
    assert_eq!(decimal_string(0), "0");
    assert_eq!(decimal_string(340282366920938463463374607431768211455), "340282366920938463463374607431768211455");
}

#[test]
fn logseq_pages_are_read() {
    assert_eq!(extract_page_ref("Fix login [[Alice Smith]]"), Some("Alice Smith".to_string()));
    assert_eq!(extract_page_ref("[[a]] and [[ b ]]"), Some("b".to_string()));
    assert_eq!(extract_page_ref("[[  ]]"), None);
    assert_eq!(parse_logseq_date(" <2026-04-26 Sun> "), Some("2026-04-26".to_string()));
    assert_eq!(parse_logseq_date("2026-04-26"), None);
    assert_eq!(strip_last_page_ref("Fix login  [[Alice]]"), "Fix login");
    assert_eq!(strip_last_page_ref("No ref"), "No ref");
    assert_eq!(
        parse_page_properties("status:: doing\npriority:: not-set\n"),
        (Some("doing".to_string()), None)
    );
}

#[test]
fn suggestions_check_link_types_and_statuses() {
    assert!(is_valid_link_type("affects", "risk", "stakeholder"));
    assert!(!is_valid_link_type("blocks", "risk", "task"));
    assert!(is_valid_link_type("related_to", "x", "y"));
    assert_eq!(valid_statuses("milestone"), vec!["pending", "achieved", "missed"]);
    assert!(valid_statuses("gadget").is_empty());
    assert_eq!(clean_reply(" ```json\n{}\n``` "), "{}");
}

#[test]
fn text_helpers() {
    assert_eq!(extract_marker("  TODO write docs"), Some("TODO".to_string()));
    assert_eq!(extract_marker("   "), None);
    assert!(str_lt("abc", "abd"));
    assert!(!str_lt("b", "a"));
    assert_eq!(sort_strings(&strings(&["b", "a", "b"])), strings(&["a", "b", "b"]));
    assert_eq!(sorted_distinct(&strings(&["b", "a", "b"])), strings(&["a", "b"]));
    assert_eq!(join_strings(&strings(&["a", "b"]), ", "), "a, b");
}
