//! Canonical events: normalisation of single components and expansion of
//! recurring ones.

use crate::component::{
    copy_text, dt_property, lemma_remove_time_entry, lemma_unknown_zone_reported, resolved_as, zone_unknown, Component,
    PropertyError, PropertyName, Status,
};
use crate::datetime::CivilDate;
use vstd::prelude::*;

verus! {

pub open spec fn fits_i64(x: int) -> bool {
    i64::MIN <= x <= i64::MAX
}

/// A concrete event. Instants are seconds since the Unix epoch.
#[derive(Clone, Debug)]
pub struct Event {
    pub uid: Option<String>,
    pub status: Option<Status>,
    pub title: Option<String>,
    pub description: Option<String>,
    pub starts: Option<i64>,
    pub ends: Option<i64>,
}

/// A half-open interval of instants `[from, until)`.
#[derive(Clone, Copy, Debug, PartialEq, Eq, Structural)]
pub struct Window {
    pub from: i64,
    pub until: i64,
}

/// The instant of a resolved property; failures leave it absent.
pub open spec fn instant_of(r: Option<Result<i64, crate::component::PropertyError>>) -> Option<i64> {
    match r {
        Some(Ok(t)) => Some(t),
        _ => None,
    }
}

/// Whether `e` is what normalising `c` gives: the text fields and the
/// status are read from `c`, and each of `starts` and `ends` is the instant its
/// property resolves to, or absent when it does not resolve.
pub open spec fn normalizes_to(c: Component, today: CivilDate, e: Event) -> bool {
    &&& e.uid == c.text_of(PropertyName::Uid)
    &&& e.status == c.status_of()
    &&& e.title == c.text_of(PropertyName::Summary)
    &&& e.description == c.text_of(PropertyName::Description)
    &&& exists|r: Option<Result<i64, crate::component::PropertyError>>|
        resolved_as(c, PropertyName::DtStart, today, r) && e.starts == instant_of(r)
    &&& exists|r: Option<Result<i64, crate::component::PropertyError>>|
        resolved_as(c, PropertyName::DtEnd, today, r) && e.ends == instant_of(r)
}

/// The length of an event, when both ends are known.
pub open spec fn span(e: Event) -> Option<int> {
    match (e.starts, e.ends) {
        (Some(s), Some(t)) => Some(t - s),
        _ => None,
    }
}

/// The occurrence of `root` that starts at `t`: it keeps the root's text and
/// status, and its length when that is known and the end is representable.
pub open spec fn occurrence(root: Event, t: i64) -> Event {
    Event {
        uid: root.uid,
        status: root.status,
        title: root.title,
        description: root.description,
        starts: Some(t),
        ends: match span(root) {
            Some(d) => if fits_i64(t + d) {
                Some((t + d) as i64)
            } else {
                None
            },
            None => None,
        },
    }
}

impl Event {
    /// Normalises a non-recurring component. Each field is read on its own:
    /// a missing or unresolvable property leaves only that field absent.
    pub fn from(component: &Component, today: &CivilDate) -> (r: Event)
        ensures
            normalizes_to(*component, *today, r),
    {
        let starts = dt_property(component, PropertyName::DtStart, today);
        let ends = dt_property(component, PropertyName::DtEnd, today);
        let e = Event {
            uid: component.uid(),
            status: component.status(),
            title: crate::component::str_property(component, PropertyName::Summary),
            description: crate::component::str_property(component, PropertyName::Description),
            starts: match starts {
                Some(Ok(t)) => Some(t),
                _ => None,
            },
            ends: match ends {
                Some(Ok(t)) => Some(t),
                _ => None,
            },
        };
        reveal(normalizes_to);
        assert(resolved_as(*component, PropertyName::DtStart, *today, starts) && e.starts
            == instant_of(starts));
        assert(resolved_as(*component, PropertyName::DtEnd, *today, ends) && e.ends == instant_of(
            ends,
        ));
        e
    }

    /// Which of the start and the end name a zone that the zone database does
    /// not know. Normalisation leaves such a time absent; this surfaces why.
    pub fn unresolved_zones(component: &Component, today: &CivilDate) -> (r: (bool, bool))
        ensures
            r.0 == zone_unknown(*component, PropertyName::DtStart, *today),
            r.1 == zone_unknown(*component, PropertyName::DtEnd, *today),
    {
        let starts = dt_property(component, PropertyName::DtStart, today);
        let ends = dt_property(component, PropertyName::DtEnd, today);
        proof {
            lemma_unknown_zone_reported(*component, PropertyName::DtStart, *today, starts);
            lemma_unknown_zone_reported(*component, PropertyName::DtEnd, *today, ends);
        }
        let a = match starts {
            Some(Err(PropertyError::UnknownZone)) => true,
            _ => false,
        };
        let b = match ends {
            Some(Err(PropertyError::UnknownZone)) => true,
            _ => false,
        };
        (a, b)
    }

    /// The occurrences of `root` at the given instants, in their order.
    pub fn occurrences(root: &Event, recurrences: &Vec<i64>) -> (r: Vec<Event>)
        ensures
            r@.len() == recurrences@.len(),
            forall|i: int| 0 <= i < r@.len() ==> r@[i] == occurrence(*root, recurrences@[i]),
    {
        let duration: Option<i128> = match (root.starts, root.ends) {
            (Some(s), Some(t)) => Some(t as i128 - s as i128),
            _ => None,
        };
        let mut out: Vec<Event> = Vec::new();
        let mut i: usize = 0;
        while i < recurrences.len()
            invariant
                i <= recurrences@.len(),
                out@.len() == i,
                duration == (match span(*root) {
                    Some(d) => Some(d as i128),
                    None => None::<i128>,
                }),
                forall|k: int| 0 <= k < i ==> out@[k] == occurrence(*root, recurrences@[k]),
            decreases recurrences@.len() - i,
        {
            let t = recurrences[i];
            let ends = match duration {
                Some(d) => {
                    let e = t as i128 + d;
                    if i64::MIN as i128 <= e && e <= i64::MAX as i128 {
                        Some(e as i64)
                    } else {
                        None
                    }
                },
                None => None,
            };
            out.push(
                Event {
                    uid: copy_text(&root.uid),
                    status: root.status,
                    title: copy_text(&root.title),
                    description: copy_text(&root.description),
                    starts: Some(t),
                    ends,
                },
            );
            i = i + 1;
        }
        out
    }

    /// Normalises a recurring master and instantiates it at each instant.
    pub fn from_recurrences(component: &Component, today: &CivilDate, recurrences: &Vec<i64>) -> (r: Vec<Event>)
        ensures
            r@.len() == recurrences@.len(),
            exists|root: Event|
                normalizes_to(*component, *today, root) && forall|i: int|
                    0 <= i < r@.len() ==> r@[i] == occurrence(root, recurrences@[i]),
    {
        let root = Event::from(component, today);
        let r = Event::occurrences(&root, recurrences);
        assert(normalizes_to(*component, *today, root) && forall|i: int|
            0 <= i < r@.len() ==> r@[i] == occurrence(root, recurrences@[i]));
        r
    }
}

/// An occurrence lasts as long as its master, whenever the master has both
/// ends and the occurrence has an end.
pub proof fn lemma_occurrence_keeps_duration(root: Event, t: i64)
    requires
        span(root) is Some,
        fits_i64(t + span(root)->0),
    ensures
        span(occurrence(root, t)) == span(root),
        occurrence(root, t).starts == Some(t),
{
}

proof fn lemma_resolution_unique(
    c: Component,
    name: PropertyName,
    today: CivilDate,
    r1: Option<Result<i64, crate::component::PropertyError>>,
    r2: Option<Result<i64, crate::component::PropertyError>>,
)
    requires
        resolved_as(c, name, today, r1),
        resolved_as(c, name, today, r2),
        !c.uses_local_zone(name, today),
    ensures
        instant_of(r1) == instant_of(r2),
{
    reveal(resolved_as);
    match c.wall_clock_of(name, today) {
        None => {},
        Some((dt, zone)) => {
            if dt.valid() {
                assert(zone is Some);
            }
        },
    }
}

/// A time property whose zone is unknown is left absent and affects nothing
/// else: the event equals, but for that time, the event of the same component
/// with that property's entry removed (the other time being read on a named
/// zone, or not at all, so that it does not depend on the machine).
pub proof fn lemma_unknown_zone_isolated(
    c: Component,
    d: Component,
    j: int,
    bad: PropertyName,
    other: PropertyName,
    today: CivilDate,
    e1: Event,
    e2: Event,
)
    requires
        (bad == PropertyName::DtStart && other == PropertyName::DtEnd) || (bad
            == PropertyName::DtEnd && other == PropertyName::DtStart),
        0 <= j < c.entries@.len(),
        c.entries@[j].name == bad,
        d.is_event == c.is_event,
        d.entries@ == c.entries@.remove(j),
        zone_unknown(c, bad, today),
        !c.uses_local_zone(other, today),
        normalizes_to(c, today, e1),
        normalizes_to(d, today, e2),
    ensures
        bad == PropertyName::DtStart ==> e1.starts is None && e1.ends == e2.ends,
        bad == PropertyName::DtEnd ==> e1.ends is None && e1.starts == e2.starts,
        e1.uid == e2.uid,
        e1.status == e2.status,
        e1.title == e2.title,
        e1.description == e2.description,
{
    reveal(normalizes_to);
    lemma_remove_time_entry(c, d, j, other, today);
    let b1 = choose|r: Option<Result<i64, crate::component::PropertyError>>|
        resolved_as(c, bad, today, r) && (if bad == PropertyName::DtStart {
            e1.starts
        } else {
            e1.ends
        }) == instant_of(r);
    lemma_unknown_zone_reported(c, bad, today, b1);
    let o1 = choose|r: Option<Result<i64, crate::component::PropertyError>>|
        resolved_as(c, other, today, r) && (if other == PropertyName::DtStart {
            e1.starts
        } else {
            e1.ends
        }) == instant_of(r);
    let o2 = choose|r: Option<Result<i64, crate::component::PropertyError>>|
        resolved_as(d, other, today, r) && (if other == PropertyName::DtStart {
            e2.starts
        } else {
            e2.ends
        }) == instant_of(r);
    assert(resolved_as(c, other, today, o2)) by {
        reveal(resolved_as);
    }
    lemma_resolution_unique(c, other, today, o1, o2);
}

/// Normalising one component twice gives the same event, whenever neither of
/// its time properties is read on this machine's local clock.
pub proof fn lemma_normalization_idempotent(c: Component, today: CivilDate, e1: Event, e2: Event)
    requires
        normalizes_to(c, today, e1),
        normalizes_to(c, today, e2),
        !c.uses_local_zone(PropertyName::DtStart, today),
        !c.uses_local_zone(PropertyName::DtEnd, today),
    ensures
        e1 == e2,
{
    reveal(normalizes_to);
    let r1 = choose|r: Option<Result<i64, crate::component::PropertyError>>|
        resolved_as(c, PropertyName::DtStart, today, r) && e1.starts == instant_of(r);
    let r2 = choose|r: Option<Result<i64, crate::component::PropertyError>>|
        resolved_as(c, PropertyName::DtStart, today, r) && e2.starts == instant_of(r);
    let q1 = choose|r: Option<Result<i64, crate::component::PropertyError>>|
        resolved_as(c, PropertyName::DtEnd, today, r) && e1.ends == instant_of(r);
    let q2 = choose|r: Option<Result<i64, crate::component::PropertyError>>|
        resolved_as(c, PropertyName::DtEnd, today, r) && e2.ends == instant_of(r);
    lemma_resolution_unique(c, PropertyName::DtStart, today, r1, r2);
    lemma_resolution_unique(c, PropertyName::DtEnd, today, q1, q2);
}

} // verus!
