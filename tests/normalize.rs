use nexte::component::{dt_property, str_property, Component, Entry, PropertyError, PropertyName, Status};
use nexte::datetime::{
    complete, is_valid_civil, next_day, previous_day, CivilDate, CivilDateTime, PartialDateTime,
};
use nexte::event::Event;
use nexte::zone::normalize_timezone;

enum Value {
    Text(&'static str),
    When(PartialDateTime),
    State(Status),
}

fn text(s: &'static str) -> Value {
    Value::Text(s)
}

fn when(p: PartialDateTime) -> Value {
    Value::When(p)
}

fn full(y: u16, mo: u8, d: u8, h: u8, mi: u8, s: u8) -> PartialDateTime {
    PartialDateTime {
        year: Some(y),
        month: Some(mo),
        day: Some(d),
        hour: Some(h),
        minute: Some(mi),
        second: Some(s),
    }
}

fn entry(name: PropertyName, values: Vec<Value>, zone: Option<&str>) -> Entry {
    let mut e = Entry {
        name,
        zone: zone.map(|z| z.to_string()),
        text: None,
        date_time: None,
        status: None,
        line: None,
    };
    match values.into_iter().next() {
        Some(Value::Text(t)) => e.text = Some(t.to_string()),
        Some(Value::When(p)) => e.date_time = Some(p),
        Some(Value::State(s)) => e.status = Some(s),
        None => {}
    }
    e
}

fn today() -> CivilDate {
    CivilDate { year: 2024, month: 3, day: 15 }
}

fn meeting(zone: &str) -> Component {
    Component {
        is_event: true,
        entries: vec![
            entry(PropertyName::Uid, vec![text("abc-1")], None),
            entry(PropertyName::Summary, vec![text("Standup")], None),
            entry(PropertyName::Description, vec![text("Daily sync")], None),
            entry(
                PropertyName::Status,
                vec![Value::State(Status::Confirmed)],
                None,
            ),
            entry(PropertyName::DtStart, vec![when(full(2024, 3, 15, 9, 0, 0))], Some(zone)),
            entry(PropertyName::DtEnd, vec![when(full(2024, 3, 15, 9, 30, 0))], Some(zone)),
        ],
    }
}

#[test]
fn normalize_timezone_strips_vendor_prefix() {
    assert_eq!(normalize_timezone("/freeassociation.sourceforge.net/Asia/Kolkata"), "Asia/Kolkata");
    assert_eq!(normalize_timezone("Europe/Paris"), "Europe/Paris");
    assert_eq!(normalize_timezone("/UTC"), "UTC");
    assert_eq!(normalize_timezone(""), "");
    assert_eq!(normalize_timezone("/"), "");
}

#[test]
fn completion_fills_missing_date_from_today() {
    let p = PartialDateTime { year: None, month: None, day: None, hour: Some(14), minute: None, second: None };
    let c = complete(&p, &today());
    assert_eq!(c, CivilDateTime { year: 2024, month: 3, day: 15, hour: 14, minute: 0, second: 0 });
    let other = CivilDate { year: 1999, month: 12, day: 31 };
    let c2 = complete(&p, &other);
    assert_eq!((c2.year, c2.month, c2.day), (1999, 12, 31));
}

#[test]
fn completion_keeps_present_fields() {
    let p = PartialDateTime { year: Some(2020), month: None, day: Some(2), hour: None, minute: Some(5), second: Some(7) };
    let c = complete(&p, &today());
    assert_eq!(c, CivilDateTime { year: 2020, month: 3, day: 2, hour: 0, minute: 5, second: 7 });
}

#[test]
fn civil_validity_follows_the_calendar() {
    let leap = CivilDateTime { year: 2024, month: 2, day: 29, hour: 0, minute: 0, second: 0 };
    let not_leap = CivilDateTime { year: 2023, month: 2, day: 29, hour: 0, minute: 0, second: 0 };
    let century = CivilDateTime { year: 1900, month: 2, day: 29, hour: 0, minute: 0, second: 0 };
    let late = CivilDateTime { year: 2024, month: 1, day: 1, hour: 24, minute: 0, second: 0 };
    assert!(is_valid_civil(&leap));
    assert!(!is_valid_civil(&not_leap));
    assert!(!is_valid_civil(&century));
    assert!(!is_valid_civil(&late));
}

#[test]
fn day_stepping_crosses_months_and_years() {
    let d = CivilDate { year: 2024, month: 2, day: 28 };
    assert_eq!(next_day(&d), Some(CivilDate { year: 2024, month: 2, day: 29 }));
    let d = CivilDate { year: 2023, month: 12, day: 31 };
    assert_eq!(next_day(&d), Some(CivilDate { year: 2024, month: 1, day: 1 }));
    let d = CivilDate { year: 2023, month: 3, day: 1 };
    assert_eq!(previous_day(&d), Some(CivilDate { year: 2023, month: 2, day: 28 }));
    let d = CivilDate { year: 2024, month: 1, day: 1 };
    assert_eq!(previous_day(&d), Some(CivilDate { year: 2023, month: 12, day: 31 }));
    let d = CivilDate { year: 9999, month: 12, day: 31 };
    assert_eq!(next_day(&d), None);
}

#[test]
fn dt_property_resolves_named_zone() {
    let c = meeting("UTC");
    // 2024-03-15T09:00:00Z
    assert_eq!(dt_property(&c, PropertyName::DtStart, &today()), Some(Ok(1710493200)));
    let paris = meeting("/vendor.example/Europe/Paris");
    // Paris is one hour ahead of UTC in March before the DST switch.
    assert_eq!(dt_property(&paris, PropertyName::DtStart, &today()), Some(Ok(1710489600)));
}

#[test]
fn dt_property_reports_unknown_zone() {
    let c = meeting("Mars/Olympus_Mons");
    assert_eq!(dt_property(&c, PropertyName::DtStart, &today()), Some(Err(PropertyError::UnknownZone)));
}

#[test]
fn dt_property_reports_malformed_date() {
    let c = Component {
        is_event: true,
        entries: vec![entry(PropertyName::DtStart, vec![when(full(2023, 2, 30, 9, 0, 0))], Some("UTC"))],
    };
    assert_eq!(dt_property(&c, PropertyName::DtStart, &today()), Some(Err(PropertyError::Malformed)));
}

#[test]
fn dt_property_absent_when_missing() {
    let c = Component { is_event: true, entries: vec![entry(PropertyName::Summary, vec![text("x")], None)] };
    assert_eq!(dt_property(&c, PropertyName::DtStart, &today()), None);
    let c = Component { is_event: true, entries: vec![entry(PropertyName::DtStart, vec![text("x")], None)] };
    assert_eq!(dt_property(&c, PropertyName::DtStart, &today()), None);
}

#[test]
fn str_property_reads_first_matching_entry() {
    let c = Component {
        is_event: true,
        entries: vec![
            entry(PropertyName::Summary, vec![text("first"), text("second")], None),
            entry(PropertyName::Summary, vec![text("later")], None),
        ],
    };
    assert_eq!(str_property(&c, PropertyName::Summary), Some("first".to_string()));
    assert_eq!(str_property(&c, PropertyName::Description), None);
}

#[test]
fn event_from_component_reads_every_field() {
    let e = Event::from(&meeting("UTC"), &today());
    assert_eq!(e.uid.as_deref(), Some("abc-1"));
    assert_eq!(e.title.as_deref(), Some("Standup"));
    assert_eq!(e.description.as_deref(), Some("Daily sync"));
    assert_eq!(e.status, Some(Status::Confirmed));
    assert_eq!(e.starts, Some(1710493200));
    assert_eq!(e.ends, Some(1710495000));
}

#[test]
fn normalizing_twice_gives_identical_events() {
    let c = meeting("Europe/Berlin");
    let a = Event::from(&c, &today());
    let b = Event::from(&c, &today());
    assert_eq!(format!("{:?}", a), format!("{:?}", b));
}

#[test]
fn unknown_zone_leaves_times_absent_but_keeps_other_fields() {
    let e = Event::from(&meeting("Nowhere/Land"), &today());
    assert_eq!(e.starts, None);
    assert_eq!(e.ends, None);
    assert_eq!(e.title.as_deref(), Some("Standup"));
}

#[test]
fn status_comes_from_first_status_valued_entry() {
    let c = Component {
        is_event: true,
        entries: vec![
            entry(PropertyName::Status, vec![text("X-UNKNOWN")], None),
            entry(
                PropertyName::Status,
                vec![Value::State(Status::Cancelled)],
                None,
            ),
        ],
    };
    assert_eq!(c.status(), Some(Status::Cancelled));
    let none = Component { is_event: true, entries: vec![entry(PropertyName::Status, vec![], None)] };
    assert_eq!(none.status(), None);
}

#[test]
fn unresolved_zones_are_reported() {
    assert_eq!(Event::unresolved_zones(&meeting("Nowhere/Land"), &today()), (true, true));
    assert_eq!(Event::unresolved_zones(&meeting("/vendor.example/Europe/Paris"), &today()), (false, false));
    let mut c = meeting("UTC");
    c.entries[5].zone = Some("Nowhere/Land".to_string());
    assert_eq!(Event::unresolved_zones(&c, &today()), (false, true));
    let e = Event::from(&c, &today());
    assert_eq!(e.starts, Some(1710493200));
    assert_eq!(e.ends, None);
}
