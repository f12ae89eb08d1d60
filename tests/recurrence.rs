use nexte::classify::{classify, Classification};
use nexte::timeline::assemble_timeline;
use nexte::component::{Component, Entry, PropertyName};
use nexte::datetime::{CivilDate, PartialDateTime};
use nexte::event::{Event, Window};
use nexte::recurrence::{bound_to_window, collect_events, expand_events, expansion, rule_text};

fn line(name: PropertyName, text: &str) -> Entry {
    Entry { name, zone: None, text: None, date_time: None, status: None, line: Some(text.to_string()) }
}

fn timed(name: PropertyName, y: u16, mo: u8, d: u8, h: u8, text: &str) -> Entry {
    let p = PartialDateTime { year: Some(y), month: Some(mo), day: Some(d), hour: Some(h), minute: Some(0), second: Some(0) };
    Entry {
        name,
        zone: Some("UTC".to_string()),
        text: None,
        date_time: Some(p),
        status: None,
        line: Some(text.to_string()),
    }
}

fn summary(t: &str) -> Entry {
    Entry {
        name: PropertyName::Summary,
        zone: None,
        text: Some(t.to_string()),
        date_time: None,
        status: None,
        line: None,
    }
}

fn daily_standup() -> Component {
    Component {
        is_event: true,
        entries: vec![
            summary("Standup"),
            timed(PropertyName::DtStart, 2024, 1, 1, 9, "DTSTART:20240101T090000Z\n"),
            timed(PropertyName::DtEnd, 2024, 1, 1, 10, "DTEND:20240101T100000Z\n"),
            line(PropertyName::RRule, "RRULE:FREQ=DAILY\n"),
        ],
    }
}

fn today() -> CivilDate {
    CivilDate { year: 2024, month: 1, day: 11 }
}

// 2024-01-10T00:00:00Z .. 2024-01-13T00:00:00Z
const THREE_DAYS: Window = Window { from: 1704844800, until: 1705104000 };

#[test]
fn rule_text_follows_field_order() {
    let c = Component {
        is_event: true,
        entries: vec![
            line(PropertyName::ExRule, "E;"),
            line(PropertyName::RRule, "R;"),
            line(PropertyName::Summary, "S;"),
            line(PropertyName::DtStart, "D;"),
            line(PropertyName::ExDate, "X;"),
        ],
    };
    assert_eq!(rule_text(&c), "D;R;X;E;");
}

#[test]
fn window_bound_keeps_at_most_thirty_two() {
    let instants: Vec<i64> = (0..100).collect();
    let w = Window { from: 10, until: 90 };
    let kept = bound_to_window(&instants, &w);
    assert_eq!(kept, (10..42).collect::<Vec<i64>>());
    let w = Window { from: 5, until: 8 };
    assert_eq!(bound_to_window(&instants, &w), vec![5, 6, 7]);
    assert_eq!(bound_to_window(&vec![], &w), Vec::<i64>::new());
}

#[test]
fn expansion_copies_master_and_keeps_duration() {
    let instants = vec![1704877200, 1704963600, 1705200000];
    let evs = expansion(&daily_standup(), &today(), &THREE_DAYS, Some(instants)).unwrap();
    assert_eq!(evs.len(), 2);
    for e in &evs {
        assert_eq!(e.title.as_deref(), Some("Standup"));
        assert_eq!(e.ends.unwrap() - e.starts.unwrap(), 3600);
    }
    assert_eq!(evs[0].starts, Some(1704877200));
    assert!(expansion(&daily_standup(), &today(), &THREE_DAYS, None).is_none());
}

#[test]
fn daily_rule_gives_one_occurrence_per_day_in_window() {
    let evs = expand_events(&daily_standup(), &THREE_DAYS, &today()).unwrap();
    let starts: Vec<i64> = evs.iter().map(|e| e.starts.unwrap()).collect();
    assert_eq!(starts, vec![1704877200, 1704963600, 1705050000]);
    for e in &evs {
        assert_eq!(e.ends.unwrap() - e.starts.unwrap(), 3600);
    }
}

#[test]
fn unbounded_rule_is_capped() {
    let mut c = daily_standup();
    c.entries[3] = line(PropertyName::RRule, "RRULE:FREQ=HOURLY\n");
    let wide = Window { from: 1704067200, until: 1704067200 + 30 * 86400 };
    let evs = expand_events(&c, &wide, &today()).unwrap();
    assert_eq!(evs.len(), 32);
    assert!(evs.iter().all(|e| wide.from <= e.starts.unwrap() && e.starts.unwrap() < wide.until));
}

#[test]
fn unparsable_rule_gives_nothing() {
    let mut c = daily_standup();
    c.entries[3] = line(PropertyName::RRule, "RRULE:FREQ=SOMETIMES\n");
    assert!(expand_events(&c, &THREE_DAYS, &today()).is_none());
}

#[test]
fn collect_routes_each_component() {
    let single = Component {
        is_event: true,
        entries: vec![summary("Lunch"), timed(PropertyName::DtStart, 2024, 1, 11, 12, "")],
    };
    let todo = Component { is_event: false, entries: vec![summary("Chore")] };
    let events: Vec<Event> = collect_events(&vec![todo, single, daily_standup()], &THREE_DAYS, &today());
    assert_eq!(events.len(), 4);
    assert_eq!(events[0].title.as_deref(), Some("Lunch"));
    assert_eq!(events[0].starts, Some(1704974400));
    assert_eq!(events[0].ends, None);
    assert!(events[1..].iter().all(|e| e.title.as_deref() == Some("Standup")));
}

#[test]
fn unresolved_zone_is_excluded_and_others_still_classified() {
    let mut broken = daily_standup();
    broken.entries.truncate(3);
    broken.entries[1].zone = Some("Atlantis/Capital".to_string());
    broken.entries[2].zone = Some("Atlantis/Capital".to_string());
    let fine = Component {
        is_event: true,
        entries: vec![
            summary("Retro"),
            timed(PropertyName::DtStart, 2024, 1, 11, 15, ""),
            timed(PropertyName::DtEnd, 2024, 1, 11, 16, ""),
        ],
    };
    let events = collect_events(&vec![broken, fine], &THREE_DAYS, &today());
    assert_eq!(events.len(), 2);
    assert_eq!(events[0].starts, None);
    let timeline = assemble_timeline(vec![events]);
    // 2024-01-11T12:00:00Z
    let now = 1704974400;
    let day = Window { from: 1704931200, until: 1705017600 };
    let c = classify(&timeline, now, true, &day);
    assert_eq!(c, Classification::Next { index: 1, remaining: 3 * 3600 });
}

#[test]
fn from_recurrences_instantiates_master_at_each_instant() {
    let evs = Event::from_recurrences(&daily_standup(), &today(), &vec![100, 5000]);
    assert_eq!(evs.len(), 2);
    assert_eq!((evs[0].starts, evs[0].ends), (Some(100), Some(3700)));
    assert_eq!((evs[1].starts, evs[1].ends), (Some(5000), Some(8600)));
    assert_eq!(evs[1].title.as_deref(), Some("Standup"));
}

#[test]
fn occurrences_without_master_end_have_no_end() {
    let mut c = daily_standup();
    c.entries.remove(2);
    let evs = Event::from_recurrences(&c, &today(), &vec![100]);
    assert_eq!(evs[0].starts, Some(100));
    assert_eq!(evs[0].ends, None);
}
