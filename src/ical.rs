//! Raw iCalendar records read into component values with the calcard
//! parser.
//!
//! What calcard makes of a record depends on its text alone, so each part of
//! the parsed tree is named as a function of the text and of its position:
//! component `c` of the record, entry `e` of that component.

use crate::component::{Component, Entry, PropertyName, Status};
use crate::datetime::{CivilDate, PartialDateTime};
use crate::event::{Event, Window};
use crate::recurrence::{collect_events, concat, supported_window, yields};
use calcard::icalendar::{
    ICalendar, ICalendarComponentType, ICalendarParameterName, ICalendarProperty, ICalendarStatus,
    ICalendarValue,
};
use vstd::prelude::*;

verus! {

/// How many components calcard reads in the record (none when it does not parse).
pub uninterp spec fn record_size(text: Seq<char>) -> int;

/// Whether component `c` is an event.
pub uninterp spec fn record_is_event(text: Seq<char>, c: int) -> bool;

/// How many entries component `c` has.
pub uninterp spec fn record_entry_count(text: Seq<char>, c: int) -> int;

/// The property name of entry `e` of component `c`.
pub uninterp spec fn record_entry_name(text: Seq<char>, c: int, e: int) -> PropertyName;

/// The text of the entry's first parameter, when that is a `TZID`.
pub uninterp spec fn record_entry_zone(text: Seq<char>, c: int, e: int) -> Option<Seq<char>>;

/// The entry's first value as text.
pub uninterp spec fn record_entry_text(text: Seq<char>, c: int, e: int) -> Option<Seq<char>>;

/// The entry's first value as a date-time.
pub uninterp spec fn record_entry_date_time(text: Seq<char>, c: int, e: int) -> Option<PartialDateTime>;

/// The entry's first value as a status.
pub uninterp spec fn record_entry_status(text: Seq<char>, c: int, e: int) -> Option<Status>;

/// The entry written back as a property line.
pub uninterp spec fn record_entry_line(text: Seq<char>, c: int, e: int) -> Option<Seq<char>>;

pub open spec fn text_view(o: Option<String>) -> Option<Seq<char>> {
    match o {
        Some(s) => Some(s@),
        None => None,
    }
}

/// `x` holds entry `e` of component `c` of the record.
pub open spec fn reads_entry(x: Entry, text: Seq<char>, c: int, e: int) -> bool {
    &&& x.name == record_entry_name(text, c, e)
    &&& text_view(x.zone) == record_entry_zone(text, c, e)
    &&& text_view(x.text) == record_entry_text(text, c, e)
    &&& x.date_time == record_entry_date_time(text, c, e)
    &&& x.status == record_entry_status(text, c, e)
    &&& text_view(x.line) == record_entry_line(text, c, e)
}

/// `x` holds component `c` of the record.
pub open spec fn reads_component(x: Component, text: Seq<char>, c: int) -> bool {
    &&& x.is_event == record_is_event(text, c)
    &&& x.entries@.len() == record_entry_count(text, c)
    &&& forall|e: int| 0 <= e < x.entries@.len() ==> reads_entry(#[trigger] x.entries@[e], text, c, e)
}

/// `xs` holds the components of the record, in order.
pub open spec fn reads_record(xs: Seq<Component>, text: Seq<char>) -> bool {
    &&& xs.len() == record_size(text)
    &&& forall|c: int| 0 <= c < xs.len() ==> reads_component(#[trigger] xs[c], text, c)
}

/// Relies on `ICalendar::parse`: the number of components read.
#[verifier::external_body]
fn component_count(text: &str) -> (r: usize)
    ensures
        r as int == record_size(text@),
{
    ICalendar::parse(text).map(|cal| cal.components.len()).unwrap_or(0)
}

/// Relies on `ICalendar::parse`: whether component `c` is a `VEVENT`.
#[verifier::external_body]
fn component_is_event(text: &str, c: usize) -> (r: bool)
    ensures
        r == record_is_event(text@, c as int),
{
    let cal = ICalendar::parse(text);
    cal.ok().and_then(|cal| cal.components.get(c).map(|x| x.component_type == ICalendarComponentType::VEvent)).unwrap_or(false)
}

/// Relies on `ICalendar::parse`: the number of entries of component `c`.
#[verifier::external_body]
fn entry_count(text: &str, c: usize) -> (r: usize)
    ensures
        r as int == record_entry_count(text@, c as int),
{
    let cal = ICalendar::parse(text);
    cal.ok().and_then(|cal| cal.components.get(c).map(|x| x.entries.len())).unwrap_or(0)
}

/// Relies on `ICalendar::parse`: the name of an entry, one variant to one name.
#[verifier::external_body]
fn entry_name(text: &str, c: usize, e: usize) -> (r: PropertyName)
    ensures
        r == record_entry_name(text@, c as int, e as int),
{
    let Some(cal) = ICalendar::parse(text).ok() else { return PropertyName::Other };
    match cal.components.get(c).and_then(|x| x.entries.get(e)).map(|x| &x.name) {
        Some(ICalendarProperty::Uid) => PropertyName::Uid,
        Some(ICalendarProperty::Summary) => PropertyName::Summary,
        Some(ICalendarProperty::Description) => PropertyName::Description,
        Some(ICalendarProperty::Status) => PropertyName::Status,
        Some(ICalendarProperty::Dtstart) => PropertyName::DtStart,
        Some(ICalendarProperty::Dtend) => PropertyName::DtEnd,
        Some(ICalendarProperty::Rrule) => PropertyName::RRule,
        Some(ICalendarProperty::Rdate) => PropertyName::RDate,
        Some(ICalendarProperty::Exdate) => PropertyName::ExDate,
        Some(ICalendarProperty::Exrule) => PropertyName::ExRule,
        _ => PropertyName::Other,
    }
}

/// Relies on `ICalendar::parse` and `ICalendarParameterValue::as_text`: the
/// zone of an entry's first parameter, when that is a `TZID`.
#[verifier::external_body]
fn entry_zone(text: &str, c: usize, e: usize) -> (r: Option<String>)
    ensures
        text_view(r) == record_entry_zone(text@, c as int, e as int),
{
    let cal = ICalendar::parse(text).ok()?;
    let p = cal.components.get(c)?.entries.get(e)?.params.first()?;
    match p.name {
        ICalendarParameterName::Tzid => p.value.as_text().map(|t| t.to_string()),
        _ => None,
    }
}

/// Relies on `ICalendar::parse` and `ICalendarValue::as_text` on the entry's
/// first value.
#[verifier::external_body]
fn entry_text(text: &str, c: usize, e: usize) -> (r: Option<String>)
    ensures
        text_view(r) == record_entry_text(text@, c as int, e as int),
{
    let cal = ICalendar::parse(text).ok()?;
    let v = cal.components.get(c)?.entries.get(e)?.values.first()?;
    v.as_text().map(|t| t.to_string())
}

/// Relies on `ICalendar::parse` and `ICalendarValue::as_partial_date_time`
/// on the entry's first value, field by field.
#[verifier::external_body]
fn entry_date_time(text: &str, c: usize, e: usize) -> (r: Option<PartialDateTime>)
    ensures
        r == record_entry_date_time(text@, c as int, e as int),
{
    let cal = ICalendar::parse(text).ok()?;
    let v = cal.components.get(c)?.entries.get(e)?.values.first()?;
    v.as_partial_date_time().map(|d| PartialDateTime {
        year: d.year, month: d.month, day: d.day, hour: d.hour, minute: d.minute, second: d.second,
    })
}

/// Relies on `ICalendar::parse`: the entry's first value when it is a
/// status, one status to one status.
#[verifier::external_body]
fn entry_status(text: &str, c: usize, e: usize) -> (r: Option<Status>)
    ensures
        r == record_entry_status(text@, c as int, e as int),
{
    let cal = ICalendar::parse(text).ok()?;
    let ICalendarValue::Status(s) = cal.components.get(c)?.entries.get(e)?.values.first()? else { return None };
    Some(match s {
        ICalendarStatus::Tentative => Status::Tentative, ICalendarStatus::Confirmed => Status::Confirmed,
        ICalendarStatus::Cancelled => Status::Cancelled, ICalendarStatus::NeedsAction => Status::NeedsAction,
        ICalendarStatus::Completed => Status::Completed, ICalendarStatus::InProcess => Status::InProcess,
        ICalendarStatus::Draft => Status::Draft, ICalendarStatus::Final => Status::Final,
        ICalendarStatus::Failed => Status::Failed, ICalendarStatus::Pending => Status::Pending,
    })
}

/// Relies on `ICalendar::parse` and `ICalendarEntry::write_to`: the entry
/// written back as a property line.
#[verifier::external_body]
fn entry_line(text: &str, c: usize, e: usize) -> (r: Option<String>)
    ensures
        text_view(r) == record_entry_line(text@, c as int, e as int),
{
    let cal = ICalendar::parse(text).ok()?;
    let mut line = String::new();
    cal.components.get(c)?.entries.get(e)?.write_to(&mut line).ok().map(|_| line)
}

fn read_component(text: &str, c: usize) -> (r: Component)
    ensures
        reads_component(r, text@, c as int),
{
    let n = entry_count(text, c);
    let mut entries: Vec<Entry> = Vec::new();
    let mut e: usize = 0;
    while e < n
        invariant
            e <= n,
            n as int == record_entry_count(text@, c as int),
            entries@.len() == e,
            forall|k: int| 0 <= k < e ==> reads_entry(#[trigger] entries@[k], text@, c as int, k),
        decreases n - e,
    {
        entries.push(
            Entry {
                name: entry_name(text, c, e),
                zone: entry_zone(text, c, e),
                text: entry_text(text, c, e),
                date_time: entry_date_time(text, c, e),
                status: entry_status(text, c, e),
                line: entry_line(text, c, e),
            },
        );
        e = e + 1;
    }
    Component { is_event: component_is_event(text, c), entries }
}

/// Parses one raw record into its components, in order; a record that does
/// not parse has none.
pub fn parse_record(text: &str) -> (r: Vec<Component>)
    ensures
        reads_record(r@, text@),
{
    let n = component_count(text);
    let mut out: Vec<Component> = Vec::new();
    let mut c: usize = 0;
    while c < n
        invariant
            c <= n,
            n as int == record_size(text@),
            out@.len() == c,
            forall|k: int| 0 <= k < c ==> reads_component(#[trigger] out@[k], text@, k),
        decreases n - c,
    {
        out.push(read_component(text, c));
        c = c + 1;
    }
    out
}

/// What one record yields: `comps` are its components and `pieces[k]` the
/// events that component `k` yields.
pub open spec fn record_yields(
    text: Seq<char>,
    comps: Seq<Component>,
    pieces: Seq<Seq<Event>>,
    today: CivilDate,
    w: Window,
) -> bool {
    &&& reads_record(comps, text)
    &&& pieces.len() == comps.len()
    &&& forall|k: int| 0 <= k < pieces.len() ==> yields(comps[k], today, w, #[trigger] pieces[k])
}

/// The events of several records, record by record.
pub open spec fn concat_records(pieces: Seq<Seq<Seq<Event>>>) -> Seq<Event>
    decreases pieces.len(),
{
    if pieces.len() == 0 {
        Seq::empty()
    } else {
        concat_records(pieces.drop_last()) + concat(pieces.last())
    }
}

/// The events of one calendar's raw records: each record is parsed (one that
/// does not parse contributes nothing), and each of its components is routed
/// through expansion or normalisation, in order.
pub fn events_from_records(records: &Vec<String>, window: &Window, today: &CivilDate) -> (r: Vec<Event>)
    requires
        supported_window(*window),
    ensures
        exists|comps: Seq<Seq<Component>>, pieces: Seq<Seq<Seq<Event>>>|
            #![trigger comps.len(), pieces.len()]
            comps.len() == records@.len() && pieces.len() == records@.len() && (forall|i: int|
                0 <= i < records@.len() ==> #[trigger] record_yields(
                    records@[i]@,
                    comps[i],
                    pieces[i],
                    *today,
                    *window,
                )) && r@ == concat_records(pieces),
{
    let mut out: Vec<Event> = Vec::new();
    let ghost mut comps: Seq<Seq<Component>> = Seq::empty();
    let ghost mut pieces: Seq<Seq<Seq<Event>>> = Seq::empty();
    let mut i: usize = 0;
    while i < records.len()
        invariant
            i <= records@.len(),
            supported_window(*window),
            comps.len() == i,
            pieces.len() == i,
            forall|k: int|
                0 <= k < i ==> #[trigger] record_yields(
                    records@[k]@,
                    comps[k],
                    pieces[k],
                    *today,
                    *window,
                ),
            out@ == concat_records(pieces),
        decreases records@.len() - i,
    {
        let cs = parse_record(records[i].as_str());
        let mut evs = collect_events(&cs, window, today);
        let ghost p = choose|p: Seq<Seq<Event>>|
            p.len() == cs@.len() && (forall|k: int|
                0 <= k < p.len() ==> yields(cs@[k], *today, *window, #[trigger] p[k])) && evs@
                == concat(p);
        proof {
            assert(record_yields(records@[i as int]@, cs@, p, *today, *window));
            assert(pieces.push(p).drop_last() =~= pieces);
        }
        out.append(&mut evs);
        proof {
            comps = comps.push(cs@);
            pieces = pieces.push(p);
        }
        i = i + 1;
    }
    out
}

} // verus!
