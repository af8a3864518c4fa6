use lucidpm::payload::{Json, OutEvent};
use lucidpm::report::{build_items, capitalize, compose_report, md_table_row, pri_display, report_filename, report_full,
    report_generated, report_ids_shortenable, report_risk_register, report_stakeholders, report_weekly, request_report,
    session_shortenable, short_session_id, sta_display, ItemRecord};
use lucidpm::schema::{BlockTypeDef, LogseqRenderer, PageTypeDef, ProjectSchema, RendererConfig};

fn s(x: &str) -> Json {
    Json::Str(x.to_string())
}

fn obj(fields: Vec<(&str, Json)>) -> Json {
    Json::Obj(fields.into_iter().map(|(k, v)| (k.to_string(), v)).collect())
}

fn event(module: &str, etype: &str, cid: &str, payload: Json) -> Json {
    obj(vec![("event_type", s(etype)), ("source_module", s(module)), ("correlation_id", s(cid)), ("payload", payload)])
}

fn strings(v: &[&str]) -> Vec<String> {
    v.iter().map(|x| x.to_string()).collect()
}

fn page(statuses: &[&str], aliases: &[&str]) -> PageTypeDef {
    PageTypeDef { uses: Vec::new(), allowed_statuses: strings(statuses), aliases: strings(aliases) }
}

fn schema() -> ProjectSchema {
    ProjectSchema {
        schema_version: 1,
        properties: Vec::new(),
        statuses: strings(&["accepted", "done", "mitigated", "open", "todo"]),
        page_types: vec![
            ("Milestone".to_string(), page(&["open", "done"], &["milestone"])),
            ("Risk".to_string(), page(&["open", "mitigated", "accepted"], &["risk"])),
            ("Stakeholder".to_string(), page(&[], &["stakeholder"])),
        ],
        block_types: vec![(
            "Task".to_string(),
            BlockTypeDef { markers: vec![("DONE".to_string(), "done".to_string()), ("TODO".to_string(), "todo".to_string())], uses: Vec::new() },
        )],
        relations: Vec::new(),
        renderers: RendererConfig { logseq: LogseqRenderer { relations: Vec::new(), properties: Vec::new() } },
    }
}

/// A confirmed and incorporated session with the given items (id, type, description).
fn session(sid: &str, items: &[(&str, &str, &str)], ts: u64) -> Vec<Json> {
    let entries: Vec<Json> = items
        .iter()
        .map(|(id, t, d)| obj(vec![("item_id", s(id)), ("item_type", s(t)), ("description", s(d))]))
        .collect();
    let ids: Vec<Json> = items.iter().map(|(id, _, _)| s(id)).collect();
    vec![
        event("pm_structuring", "ItemsExtracted", sid, obj(vec![("items", Json::List(entries))])),
        event("pm_structuring", "ExtractionConfirmed", sid, obj(vec![("accepted_item_ids", Json::List(ids))])),
        obj(vec![
            ("event_type", s("ItemsIncorporated")),
            ("source_module", s("project_state")),
            ("correlation_id", s("inc")),
            ("timestamp", Json::Num(ts)),
            ("payload", obj(vec![("session_id", s(sid)), ("incorporated_count", Json::Num(items.len() as u64))])),
        ]),
    ]
}

fn record(id: &str, t: &str, d: &str, sid: &str, st: Option<&str>, pr: Option<&str>) -> ItemRecord {
    ItemRecord {
        item_id: id.to_string(),
        item_type: t.to_string(),
        description: d.to_string(),
        session_id: sid.to_string(),
        status: st.map(String::from),
        priority: pr.map(String::from),
    }
}

#[test]
fn table_rows_and_display_values() {
    assert_eq!(md_table_row(&["a", "b", "c"]), "| a | b | c |");
    assert_eq!(md_table_row(&["x"]), "| x |");
    assert_eq!(pri_display(None), "-");
    assert_eq!(pri_display(Some("high")), "high");
    assert_eq!(sta_display(None), "-");
    assert_eq!(capitalize("risk"), "Risk");
    assert_eq!(capitalize("ßeta"), "SSeta");
    assert_eq!(capitalize(""), "");
}

#[test]
fn report_files_are_named_by_type() {
    assert_eq!(report_filename("weekly"), "Weekly Status.md");
    assert_eq!(report_filename("risk-register"), "Risk Register.md");
    assert_eq!(report_filename("stakeholders"), "Stakeholder Map.md");
    assert_eq!(report_filename("full"), "Full Project Report.md");
    assert_eq!(report_filename("other"), "Report.md");
}

#[test]
fn session_ids_are_shortened_to_eight_bytes() {
    assert_eq!(short_session_id("0123456789abcdef"), "01234567");
    assert_eq!(short_session_id("abc"), "abc");
    assert!(session_shortenable("0123456789"));
    assert!(!session_shortenable("0123456é9"));
}

#[test]
fn items_come_from_sessions_with_explicit_then_proposed_values() {
    let mut events = session("s1", &[("r1", "risk", "Vendor delay"), ("m1", "Milestone", "Beta")], 0);
    events.push(event("item_status", "ItemStatusUpdated", "c", obj(vec![("item_id", s("r1")), ("new_status", s("mitigated"))])));
    let items = build_items(&events);
    assert_eq!(items.len(), 2);
    assert_eq!(items[0].item_id, "r1");
    assert_eq!(items[0].status, Some("mitigated".to_string()));
    assert_eq!(items[0].priority, None);
    assert_eq!(items[1].session_id, "s1");
}

#[test]
fn risk_register_lists_risks_by_canonical_type() {
    let sc = schema();
    let items = vec![
        record("r1", "risk", "Vendor delay", "s1", Some("open"), Some("high")),
        record("m1", "Milestone", "Beta", "s1", None, None),
        record("r2", "Risk", "Budget", "s1", None, None),
    ];
    let (text, n) = report_risk_register(&items, &sc, 0);
    assert_eq!(n, 2);
    assert_eq!(
        text,
        "# Risk Register\nGenerated: 1970-01-01\n\n| Priority | Status | Description |\n|---|---|---|\n| high | open | Vendor delay |\n| - | - | Budget |\n"
    );
    let (empty, n) = report_risk_register(&vec![], &sc, 0);
    assert_eq!(n, 0);
    assert!(empty.ends_with("_No risks in project record._\n"));
}

#[test]
fn stakeholder_map_lists_names_with_status() {
    let sc = schema();
    let items = vec![record("p1", "stakeholder", "Alice", "s1", Some("open"), None)];
    let (text, n) = report_stakeholders(&items, &sc, 0);
    assert_eq!(n, 1);
    assert_eq!(text, "# Stakeholder Map\nGenerated: 1970-01-01\n\n| Status | Name |\n|---|---|\n| open | Alice |\n");
}

#[test]
fn full_report_groups_by_sorted_canonical_type() {
    let sc = schema();
    let items = vec![
        record("r1", "risk", "Vendor delay", "0123456789ab", None, Some("high")),
        record("m1", "Milestone", "Beta", "0123456789ab", None, None),
        record("r2", "Risk", "Budget", "task_model", None, None),
    ];
    let (text, n) = report_full(&items, &sc, 0);
    assert_eq!(n, 3);
    let expected = "# Full Project Report\nGenerated: 1970-01-01\n\n## Summary\n\n| Type | Count |\n|---|---|\n\
| Milestone | 1 |\n| Risk | 2 |\n\
\n## Milestones\n\n| Priority | Status | Description |\n|---|---|---|\n| - | - | Beta |\n\
\n## Risks\n\n| Priority | Status | Description |\n|---|---|---|\n| high | - | Vendor delay |\n| - | - | Budget |\n\
\n## Session History\n\n| Session | Items |\n|---|---|\n| 01234567 | 2 |\n| task_mod | 1 |\n";
    assert_eq!(text, expected);
}

#[test]
fn weekly_status_counts_recent_sessions() {
    let sc = schema();
    let now: u64 = 10 * 86_400_000;
    let mut events = session("aaaaaaaaaa", &[("r1", "risk", "Vendor delay")], 9 * 86_400_000);
    events.extend(session("bbbbbbbbbb", &[("m1", "milestone", "Beta")], 86_400_000));
    let items = vec![
        record("r1", "risk", "Vendor delay", "aaaaaaaaaa", Some("mitigated"), None),
        record("r3", "risk", "Scope", "aaaaaaaaaa", Some("open"), None),
        record("m1", "milestone", "Beta", "bbbbbbbbbb", None, None),
    ];
    let (text, n) = report_weekly(&items, &events, &sc, now);
    assert_eq!(n, 3);
    let expected = "# Weekly Status\nGenerated: 1970-01-11  (period: 1970-01-04 to 1970-01-11)\n\n\
## Open Tasks\n\n| Priority | Status | Description |\n|---|---|---|\n_No open tasks._\n\
\n## Open Risks\n\n| Priority | Status | Description |\n|---|---|---|\n| - | open | Scope |\n\
\n## Milestones\n\n| Priority | Status | Description |\n|---|---|---|\n| - | - | Beta |\n\
\n## Recent Activity (last 7 days)\n\n1 item(s) incorporated across 1 session(s):\n\n- Session aaaaaaaa: 1 item(s)\n";
    assert_eq!(text, expected);
}

#[test]
fn report_requests_check_the_type() {
    let mut outbox: Vec<OutEvent> = Vec::new();
    assert!(request_report("full", None, "c", &mut outbox));
    assert_eq!(outbox.len(), 1);
    assert_eq!(outbox[0].event_type, "ReportRequested");
    assert!(!request_report("monthly", Some("/g"), "c", &mut outbox));
    assert_eq!(outbox.len(), 3);
    assert_eq!(outbox[2].event_type, "ReportFailedInvalidType");
}

#[test]
fn composing_fails_on_an_empty_record_or_a_missing_graph() {
    let sc = schema();
    let mut outbox: Vec<OutEvent> = Vec::new();
    assert!(compose_report(&sc, &vec![], "full", None, true, 0, "c", &mut outbox).is_none());
    assert_eq!(outbox[0].event_type, "ReportFailedEmptyRecord");
    let events = session("s1", &[("r1", "risk", "Vendor delay")], 0);
    let mut outbox: Vec<OutEvent> = Vec::new();
    assert!(compose_report(&sc, &events, "full", Some("/g"), false, 0, "c", &mut outbox).is_none());
    assert_eq!(outbox[0].event_type, "ReportFailedOutputNotFound");
}

#[test]
fn composing_leaves_out_unknown_types_and_names_the_file() {
    let sc = schema();
    let events = session("s1", &[("r1", "risk", "Vendor delay"), ("x1", "gadget", "Thing")], 0);
    assert!(report_ids_shortenable(&sc, &events, "full", 0));
    let mut outbox: Vec<OutEvent> = Vec::new();
    let plan = compose_report(&sc, &events, "risk-register", Some("/graph//"), true, 0, "c", &mut outbox).unwrap();
    assert_eq!(outbox.len(), 1);
    assert_eq!(outbox[0].event_type, "SchemaTypeUnknown");
    assert_eq!(outbox[0].source_module, "project_schema");
    assert_eq!(plan.item_count, 1);
    assert_eq!(plan.report_file, Some("/graph/Risk Register.md".to_string()));
    report_generated("risk-register", Some("/graph//"), &plan, 5, "c", &mut outbox);
    assert_eq!(outbox[1].event_type, "ReportGenerated");
    assert!(matches!(&outbox[1].payload[3].1, Json::Num(1)));
}
