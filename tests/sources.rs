use nexte::datetime::{CivilDate, CivilDateTime};
use nexte::source::{apply_whitelist, calendars_from_sources, sort_calendars, Calendar, Source};
use nexte::window::{near_bounds, time_range_query};

fn source(uid: &str, name: Option<&str>, has_calendar: bool) -> Source {
    Source {
        object_path: format!("/org/example/{}", uid),
        uid: uid.to_string(),
        display_name: name.map(|n| n.to_string()),
        has_calendar,
    }
}

fn names(cals: &[Calendar]) -> Vec<Option<String>> {
    cals.iter().map(|c| c.display_name.clone()).collect()
}

#[test]
fn only_sources_with_a_calendar_become_calendars() {
    let sources = vec![source("a", Some("Work"), true), source("b", Some("Mail"), false), source("c", None, true)];
    let cals = calendars_from_sources(&sources);
    assert_eq!(cals.len(), 2);
    assert_eq!(cals[0].uid, "a");
    assert_eq!(cals[1].uid, "c");
    assert_eq!(cals[1].display_name, None);
}

#[test]
fn whitelist_keeps_named_calendars_only() {
    let cals = calendars_from_sources(&vec![
        source("a", Some("Work"), true),
        source("b", Some("Home"), true),
        source("c", None, true),
    ]);
    let kept = apply_whitelist(cals, &vec!["Home".to_string(), "Other".to_string()]);
    assert_eq!(names(&kept), vec![Some("Home".to_string())]);
}

#[test]
fn calendars_sort_by_name_with_missing_first() {
    let cals = calendars_from_sources(&vec![
        source("1", Some("Work"), true),
        source("2", Some("Birthdays"), true),
        source("3", None, true),
        source("4", Some("Work"), true),
        source("5", Some("B"), true),
    ]);
    let sorted = sort_calendars(cals);
    let uids: Vec<&str> = sorted.iter().map(|c| c.uid.as_str()).collect();
    assert_eq!(uids, vec!["3", "5", "2", "1", "4"]);
}

#[test]
fn query_names_the_window_bounds() {
    let from = CivilDateTime { year: 2024, month: 3, day: 14, hour: 0, minute: 0, second: 0 };
    let until = CivilDateTime { year: 2024, month: 3, day: 17, hour: 8, minute: 5, second: 9 };
    assert_eq!(
        time_range_query(&from, &until),
        "(occur-in-time-range? (make-time \"20240314T000000\") (make-time \"20240317T080509\"))"
    );
}

#[test]
fn near_bounds_span_yesterday_to_end_of_day_after_tomorrow() {
    let (from, until) = near_bounds(&CivilDate { year: 2024, month: 2, day: 28 }).unwrap();
    assert_eq!((from.year, from.month, from.day, from.hour), (2024, 2, 27, 0));
    assert_eq!((until.year, until.month, until.day, until.hour), (2024, 3, 2, 0));
}
