use lucidpm::calendar::format_date;
use lucidpm::journal::{epoch_days_to_date, is_leap, slugify, parse_entry, today_str, new_entry_name, list_entries,
    entry_created, list_requested, list_returned, open_requested, open_failed_not_found, entry_opened};
use lucidpm::payload::{Json, OutEvent};

fn field<'a>(ev: &'a OutEvent, k: &str) -> Option<&'a Json> {
    ev.payload.iter().find(|(key, _)| key == k).map(|(_, v)| v)
}

fn text(j: Option<&Json>) -> String {
    match j {
        Some(Json::Str(s)) => s.clone(),
        _ => panic!("not a string"),
    }
}

#[test]
fn leap_years_follow_the_gregorian_rule() {
    assert!(is_leap(2000));
    assert!(is_leap(2024));
    assert!(!is_leap(1900));
    assert!(!is_leap(2023));
}

#[test]
fn day_counts_become_calendar_dates() {
    assert_eq!(epoch_days_to_date(0), "1970-01-01");
    assert_eq!(epoch_days_to_date(59), "1970-03-01");
    assert_eq!(epoch_days_to_date(365), "1971-01-01");
    assert_eq!(epoch_days_to_date(10957), "2000-01-01");
    assert_eq!(epoch_days_to_date(19723), "2024-01-01");
    assert_eq!(epoch_days_to_date(19782), "2024-02-29");
}

#[test]
fn today_is_the_date_of_the_seconds_given() {
    assert_eq!(today_str(0), "1970-01-01");
    assert_eq!(today_str(19783 * 86400 + 3600), "2024-03-01");
}

#[test]
fn report_dates_agree_with_journal_dates() {
    assert_eq!(format_date(0), "1970-01-01");
    assert_eq!(format_date(1_700_000_000_000), "2023-11-14");
    assert_eq!(format_date(19723 * 86_400_000), epoch_days_to_date(19723));
}

#[test]
fn titles_become_slugs() {
    assert_eq!(slugify("Hello, World!"), "hello-world");
    assert_eq!(slugify("  Team   Sync  "), "team-sync");
    assert_eq!(slugify("Q3 Planning"), "q3-planning");
    assert_eq!(slugify("!!!"), "");
    assert_eq!(slugify("Don't Stop!"), "dont-stop");
    assert_eq!(slugify("Q3-plan -- draft"), "q3-plan-draft");
}

#[test]
fn entry_names_are_dated_slugs() {
    let (name, title) = new_entry_name("Team Sync", "md", "2024-01-15");
    assert_eq!(name, "2024-01-15-team-sync.md");
    assert_eq!(title, "Team Sync");
    let (name, title) = new_entry_name("", ".txt", "2024-01-15");
    assert_eq!(name, "2024-01-15-2024-01-15.txt");
    assert_eq!(title, "2024-01-15");
    let (name, _) = new_entry_name("Notes", "pdf", "2024-01-15");
    assert_eq!(name, "2024-01-15-notes.md");
}

#[test]
fn entry_names_read_back() {
    assert_eq!(parse_entry("2024-01-15-team-sync.md"), Some(("team sync".to_string(), "2024-01-15".to_string())));
    assert_eq!(parse_entry("2024-01-15.md"), Some(("2024-01-15".to_string(), "2024-01-15".to_string())));
    assert_eq!(parse_entry("notes.md"), None);
    assert_eq!(parse_entry("2024/01/15-x.md"), None);
    let (name, _) = new_entry_name("Budget Review", "md", "2024-02-01");
    assert_eq!(parse_entry(&name), Some(("budget review".to_string(), "2024-02-01".to_string())));
}

#[test]
fn names_of_another_shape_give_nothing() {
    assert_eq!(parse_entry("aéééééé.md"), None);
    assert_eq!(parse_entry("2024-01-1é.md"), None);
    assert_eq!(parse_entry("notes.md"), None);
    assert_eq!(parse_entry("2026-04-26-team-sync.md"), Some(("team sync".to_string(), "2026-04-26".to_string())));
    assert_eq!(parse_entry("2026-04-26.md"), Some(("2026-04-26".to_string(), "2026-04-26".to_string())));
    assert_eq!(parse_entry("2026-04-26-é.md"), Some(("é".to_string(), "2026-04-26".to_string())));
}

#[test]
fn listing_takes_dated_notes_latest_first() {
    let names = vec![
        "2024-01-15-a.md".to_string(),
        "2024-03-01-b.txt".to_string(),
        "readme.pdf".to_string(),
        "notes.md".to_string(),
    ];
    let entries = list_entries(&names);
    assert_eq!(entries.len(), 2);
    assert_eq!(entries[0].0, "2024-03-01-b.txt");
    assert_eq!(entries[0].1, "b");
    assert_eq!(entries[1].0, "2024-01-15-a.md");
    assert_eq!(entries[1].2, "2024-01-15");
}

#[test]
fn journal_events_carry_their_fields() {
    let mut outbox: Vec<OutEvent> = Vec::new();
    entry_created("2024-01-15-a.md", "A", "2024-01-15", "c1", &mut outbox);
    list_requested("c2", &mut outbox);
    let entries = vec![("f.md".to_string(), "t".to_string(), "2024-01-01".to_string())];
    list_returned(&entries, "c2", &mut outbox);
    open_requested("f.md", "c3", &mut outbox);
    open_failed_not_found("f.md", "c3", &mut outbox);
    entry_opened("f.md", "/j/f.md", "c4", &mut outbox);
    assert_eq!(outbox.len(), 6);
    assert_eq!(outbox[0].event_type, "JournalEntryCreated");
    assert_eq!(outbox[0].source_module, "journal");
    assert_eq!(text(field(&outbox[0], "created_at")), "2024-01-15");
    assert!(outbox[1].payload.is_empty());
    assert!(matches!(field(&outbox[2], "entry_count"), Some(Json::Num(1))));
    assert_eq!(outbox[4].event_type, "JournalOpenFailedEntryNotFound");
    assert_eq!(text(field(&outbox[4], "failure_reason")), "entry_not_found");
    assert_eq!(text(field(&outbox[5], "path")), "/j/f.md");
}
