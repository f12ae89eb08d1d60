use nexte::classify::{classify, human_short_duration, round_to_minute, summary_message, Classification};
use nexte::component::Status;
use nexte::event::{Event, Window};
use nexte::timeline::{assemble_timeline, events_within, merge_calendars, retain_scheduled, sort_by_start};

fn ev(title: &str, starts: Option<i64>, ends: Option<i64>) -> Event {
    Event { uid: None, status: None, title: Some(title.to_string()), description: None, starts, ends }
}

fn titles(events: &[Event]) -> Vec<String> {
    events.iter().map(|e| e.title.clone().unwrap_or_default()).collect()
}

const NOW: i64 = 1_700_000_000;
const TODAY: Window = Window { from: NOW - 3600, until: NOW + 20 * 3600 };

#[test]
fn sort_orders_by_start_and_keeps_ties() {
    let events = vec![
        ev("c", Some(30), Some(40)),
        ev("a1", Some(10), Some(20)),
        ev("none", None, None),
        ev("a2", Some(10), Some(15)),
        ev("b", Some(20), Some(25)),
        ev("a3", Some(10), Some(11)),
    ];
    let sorted = sort_by_start(events);
    assert_eq!(titles(&sorted), vec!["none", "a1", "a2", "a3", "b", "c"]);
}

#[test]
fn cancelled_events_are_dropped() {
    let mut a = ev("a", Some(1), Some(2));
    a.status = Some(Status::Cancelled);
    let mut b = ev("b", Some(1), Some(2));
    b.status = Some(Status::Tentative);
    let c = ev("c", Some(1), Some(2));
    let kept = retain_scheduled(vec![a, b, c]);
    assert_eq!(titles(&kept), vec!["b", "c"]);
}

#[test]
fn merge_keeps_calendar_order() {
    let merged = merge_calendars(vec![vec![ev("x", None, None), ev("y", None, None)], vec![], vec![ev("z", None, None)]]);
    assert_eq!(titles(&merged), vec!["x", "y", "z"]);
}

#[test]
fn next_reports_earlier_of_two_calendars() {
    let first = vec![ev("Late", Some(NOW + 7200), Some(NOW + 9000))];
    let second = vec![ev("Early", Some(NOW + 1800), Some(NOW + 3600))];
    let timeline = assemble_timeline(vec![first, second]);
    let c = classify(&timeline, NOW, false, &TODAY);
    assert_eq!(c, Classification::Next { index: 0, remaining: 1800 });
    assert_eq!(summary_message(&timeline, c), "Early in 30m");
}

#[test]
fn current_reports_remaining_time_rounded_down() {
    let timeline = vec![ev("Planning", Some(NOW - 600), Some(NOW + 1519))];
    let c = classify(&timeline, NOW, true, &TODAY);
    assert_eq!(c, Classification::Current { index: 0, remaining: 1519 });
    assert_eq!(summary_message(&timeline, c), "Planning ends in 25m");
}

#[test]
fn first_current_event_wins_ties() {
    let timeline = vec![
        ev("Past", Some(NOW - 900), Some(NOW - 60)),
        ev("One", Some(NOW - 600), Some(NOW + 60)),
        ev("Two", Some(NOW - 600), Some(NOW + 600)),
    ];
    assert_eq!(classify(&timeline, NOW, false, &TODAY), Classification::Current { index: 1, remaining: 60 });
}

#[test]
fn events_with_unresolved_times_are_not_classified() {
    let timeline = vec![
        ev("Broken", None, None),
        ev("Half", Some(NOW - 60), None),
        ev("Fine", Some(NOW + 120), Some(NOW + 600)),
    ];
    let c = classify(&timeline, NOW, false, &TODAY);
    assert_eq!(c, Classification::Next { index: 2, remaining: 120 });
    assert_eq!(summary_message(&timeline, c), "Fine in 2m");
}

#[test]
fn all_past_events_give_no_upcoming_event() {
    let timeline = vec![ev("A", Some(NOW - 7200), Some(NOW - 3600)), ev("B", Some(NOW - 60), Some(NOW))];
    let c = classify(&timeline, NOW, false, &TODAY);
    assert_eq!(c, Classification::NoEvent);
    assert_eq!(summary_message(&timeline, c), "No Upcoming Event");
}

#[test]
fn limit_to_today_hides_tomorrows_event() {
    let timeline = vec![ev("Tomorrow", Some(NOW + 86400), Some(NOW + 90000))];
    let c = classify(&timeline, NOW, true, &TODAY);
    assert_eq!(c, Classification::NoneToday);
    assert_eq!(summary_message(&timeline, c), "No Upcoming Event Today");
    assert_eq!(classify(&timeline, NOW, false, &TODAY), Classification::Next { index: 0, remaining: 86400 });
}

#[test]
fn untitled_event_is_named_unknown() {
    let mut e = ev("", Some(NOW + 60), Some(NOW + 120));
    e.title = None;
    let timeline = vec![e];
    let c = classify(&timeline, NOW, false, &TODAY);
    assert_eq!(summary_message(&timeline, c), "Unknown Event in 1m");
}

#[test]
fn durations_are_rounded_to_the_minute() {
    assert_eq!(round_to_minute(9420), 9420);
    assert_eq!(round_to_minute(119), 60);
    assert_eq!(round_to_minute(-5), 0);
    assert_eq!(human_short_duration(9420), "2h 37m");
    assert_eq!(human_short_duration(59), "0s");
    assert_eq!(human_short_duration(-30), "0s");
    assert_eq!(human_short_duration(3 * 86400 + 61), "3days 1m");
}

#[test]
fn day_view_keeps_events_starting_today() {
    let events = vec![
        ev("yesterday", Some(TODAY.from - 1), Some(TODAY.from + 10)),
        ev("morning", Some(TODAY.from), Some(TODAY.from + 10)),
        ev("unknown", None, None),
        ev("tomorrow", Some(TODAY.until), Some(TODAY.until + 10)),
    ];
    assert_eq!(titles(&events_within(events, &TODAY)), vec!["morning"]);
}

#[test]
fn event_ending_before_it_starts_is_not_classified() {
    let timeline = vec![ev("Backwards", Some(NOW + 10), Some(NOW + 5))];
    assert_eq!(classify(&timeline, NOW, false, &TODAY), Classification::NoEvent);
    let timeline = vec![ev("Backwards", Some(NOW + 10), Some(NOW + 5)), ev("Fine", Some(NOW + 60), Some(NOW + 120))];
    assert_eq!(classify(&timeline, NOW, false, &TODAY), Classification::Next { index: 1, remaining: 60 });
}

#[test]
fn incomplete_events_do_not_change_the_outcome() {
    let base = vec![ev("Now", Some(NOW - 60), Some(NOW + 600)), ev("Later", Some(NOW + 900), Some(NOW + 1200))];
    let mut noisy = vec![ev("NoTimes", None, None)];
    noisy.push(ev("Now", Some(NOW - 60), Some(NOW + 600)));
    noisy.push(ev("NoEnd", Some(NOW - 120), None));
    noisy.push(ev("Backwards", Some(NOW - 30), Some(NOW - 300)));
    noisy.push(ev("Later", Some(NOW + 900), Some(NOW + 1200)));
    let a = classify(&base, NOW, false, &TODAY);
    let b = classify(&noisy, NOW, false, &TODAY);
    assert_eq!(summary_message(&base, a), summary_message(&noisy, b));
    assert_eq!(b, Classification::Current { index: 1, remaining: 600 });
}
