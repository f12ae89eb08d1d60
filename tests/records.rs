use nexte::component::{PropertyName, Status};
use nexte::datetime::CivilDate;
use nexte::event::Window;
use nexte::ical::{events_from_records, parse_record};

const SINGLE: &str = "BEGIN:VCALENDAR\r\nVERSION:2.0\r\nBEGIN:VEVENT\r\nUID:abc\r\nSUMMARY:Standup\r\nSTATUS:CONFIRMED\r\nDTSTART;TZID=Europe/Paris:20240315T090000\r\nDTEND;TZID=Europe/Paris:20240315T093000\r\nEND:VEVENT\r\nBEGIN:VTODO\r\nUID:t1\r\nSUMMARY:Chore\r\nEND:VTODO\r\nEND:VCALENDAR\r\n";

const DAILY: &str = "BEGIN:VCALENDAR\r\nVERSION:2.0\r\nBEGIN:VEVENT\r\nUID:daily\r\nSUMMARY:Sync\r\nDTSTART:20240101T090000Z\r\nDTEND:20240101T100000Z\r\nRRULE:FREQ=DAILY\r\nEND:VEVENT\r\nEND:VCALENDAR\r\n";

fn today() -> CivilDate {
    CivilDate { year: 2024, month: 3, day: 15 }
}

#[test]
fn records_parse_into_components() {
    let comps = parse_record(SINGLE);
    let events: Vec<_> = comps.iter().filter(|c| c.is_event).collect();
    assert_eq!(events.len(), 1);
    assert_eq!(events[0].uid().as_deref(), Some("abc"));
    assert_eq!(events[0].status(), Some(Status::Confirmed));
    assert!(events[0].property(PropertyName::DtStart).is_some());
    assert!(!events[0].is_recurring());
}

#[test]
fn records_give_normalized_events() {
    let window = Window { from: 0, until: 253402300799 };
    let events = events_from_records(&vec![SINGLE.to_string(), "not a calendar".to_string()], &window, &today());
    assert_eq!(events.len(), 1);
    assert_eq!(events[0].title.as_deref(), Some("Standup"));
    assert_eq!(events[0].starts, Some(1710489600));
    assert_eq!(events[0].ends, Some(1710491400));
}

#[test]
fn recurring_records_are_expanded_in_window() {
    // 2024-01-10T00:00:00Z .. 2024-01-13T00:00:00Z
    let window = Window { from: 1704844800, until: 1705104000 };
    let events = events_from_records(&vec![DAILY.to_string()], &window, &today());
    let starts: Vec<i64> = events.iter().map(|e| e.starts.unwrap()).collect();
    assert_eq!(starts, vec![1704877200, 1704963600, 1705050000]);
    assert!(events.iter().all(|e| e.ends.unwrap() - e.starts.unwrap() == 3600));
    assert!(events.iter().all(|e| e.uid.as_deref() == Some("daily")));
}

#[test]
fn unparsable_record_has_no_components() {
    assert!(parse_record("not a calendar").is_empty());
    assert!(parse_record("").is_empty());
}

#[test]
fn records_keep_entry_details() {
    let comps = parse_record(SINGLE);
    let ev = comps.iter().find(|c| c.is_event).unwrap();
    let start = ev.property(PropertyName::DtStart).unwrap();
    assert_eq!(start.zone.as_deref(), Some("Europe/Paris"));
    assert_eq!(start.date_time.map(|d| (d.year, d.month, d.day, d.hour)), Some((Some(2024), Some(3), Some(15), Some(9))));
    assert!(start.line.as_deref().unwrap_or("").starts_with("DTSTART"));
}

#[test]
fn unparsable_rule_in_record_yields_no_occurrences() {
    let bad = DAILY.replace("FREQ=DAILY", "FREQ=FORTNIGHTLY");
    let window = Window { from: 1704844800, until: 1705104000 };
    let events = events_from_records(&vec![bad, SINGLE.to_string()], &window, &today());
    assert_eq!(events.len(), 1);
    assert_eq!(events[0].title.as_deref(), Some("Standup"));
}
