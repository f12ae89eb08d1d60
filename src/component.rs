//! Calendar components as plain values, and the extraction of typed
//! properties from them.

use crate::datetime::{
    complete, completed, instant_in_zone, is_valid_civil, local_instant, zone_known,
    zoned_instant, CivilDate, CivilDateTime, PartialDateTime,
};
use crate::zone::{normalize_timezone, normalized_zone};
use vstd::prelude::*;

verus! {

/// The properties that the engine reads; every other one is `Other`.
#[derive(Clone, Copy, Debug, PartialEq, Eq, Structural)]
pub enum PropertyName {
    Uid,
    Summary,
    Description,
    Status,
    DtStart,
    DtEnd,
    RRule,
    RDate,
    ExDate,
    ExRule,
    Other,
}

/// The status enumeration of an event.
#[derive(Clone, Copy, Debug, PartialEq, Eq, Structural)]
pub enum Status {
    Tentative,
    Confirmed,
    Cancelled,
    NeedsAction,
    Completed,
    InProcess,
    Draft,
    Final,
    Failed,
    Pending,
}

/// One property line of a component. `zone` is its first parameter when that
/// is a textual `TZID`; `text`, `date_time` and `status` are its first value
/// seen as text, as a date-time and as a status; `line` is its serialised
/// form, when it could be written.
#[derive(Clone, Debug)]
pub struct Entry {
    pub name: PropertyName,
    pub zone: Option<String>,
    pub text: Option<String>,
    pub date_time: Option<PartialDateTime>,
    pub status: Option<Status>,
    pub line: Option<String>,
}

/// A calendar component: `is_event` tells an event from other kinds.
#[derive(Clone, Debug)]
pub struct Component {
    pub is_event: bool,
    pub entries: Vec<Entry>,
}

/// Why a date-time property could not be resolved to an instant.
#[derive(Clone, Copy, Debug, PartialEq, Eq, Structural)]
pub enum PropertyError {
    /// The completed date or time does not exist.
    Malformed,
    /// The zone identifier is not in the zone database.
    UnknownZone,
}

/// Index of the first entry with the given name.
pub open spec fn entry_index(es: Seq<Entry>, name: PropertyName) -> Option<int> {
    if exists|k: int| 0 <= k < es.len() && es[k].name == name {
        Some(
            choose|k: int|
                0 <= k < es.len() && es[k].name == name && forall|j: int|
                    0 <= j < k ==> es[j].name != name,
        )
    } else {
        None
    }
}

proof fn lemma_entry_index(es: Seq<Entry>, name: PropertyName, i: int)
    requires
        0 <= i <= es.len(),
        forall|j: int| 0 <= j < i ==> es[j].name != name,
        i < es.len() ==> es[i].name == name,
    ensures
        entry_index(es, name) == (if i < es.len() { Some(i) } else { None::<int> }),
{
    if i < es.len() {
        assert(0 <= i < es.len() && es[i].name == name && forall|j: int|
            0 <= j < i ==> es[j].name != name);
        let k = choose|k: int|
            0 <= k < es.len() && es[k].name == name && forall|j: int|
                0 <= j < k ==> es[j].name != name;
        if k < i {
            assert(es[k].name != name);
        }
        if i < k {
            assert(es[i].name != name);
        }
    }
}

/// The first value of an entry, when it is a status.
pub open spec fn entry_status(e: Entry) -> Option<Status> {
    if e.name == PropertyName::Status {
        e.status
    } else {
        None
    }
}

/// The first status among the entries from position `from` on.
pub open spec fn status_from(es: Seq<Entry>, from: int) -> Option<Status>
    decreases es.len() - from,
{
    if from < 0 || from >= es.len() {
        None
    } else if entry_status(es[from]) is Some {
        entry_status(es[from])
    } else {
        status_from(es, from + 1)
    }
}

impl Component {
    /// The first entry with the given name.
    pub open spec fn entry(self, name: PropertyName) -> Option<Entry> {
        match entry_index(self.entries@, name) {
            Some(i) => Some(self.entries@[i]),
            None => None,
        }
    }

    /// The text of a property, when its first value is textual.
    pub open spec fn text_of(self, name: PropertyName) -> Option<String> {
        match self.entry(name) {
            Some(e) => e.text,
            None => None,
        }
    }

    /// The status of the component: that of the first `STATUS` entry whose
    /// first value is a status.
    pub open spec fn status_of(self) -> Option<Status> {
        status_from(self.entries@, 0)
    }

    /// The zone identifier attached to a property.
    pub open spec fn zone_of(self, name: PropertyName) -> Option<String> {
        match self.entry(name) {
            Some(e) => e.zone,
            None => None,
        }
    }

    /// The completed wall-clock value of a date-time property, with the zone
    /// identifier that qualifies it.
    pub open spec fn wall_clock_of(self, name: PropertyName, today: CivilDate) -> Option<(CivilDateTime, Option<String>)> {
        match self.entry(name) {
            Some(e) => match e.date_time {
                Some(p) => Some((completed(p, today), e.zone)),
                None => None,
            },
            None => None,
        }
    }

    /// Whether resolving the property depends on this machine's local zone.
    pub open spec fn uses_local_zone(self, name: PropertyName, today: CivilDate) -> bool {
        match self.wall_clock_of(name, today) {
            Some((dt, z)) => dt.valid() && z is None,
            None => false,
        }
    }

    /// Whether the component carries a recurrence rule.
    pub open spec fn recurs(self) -> bool {
        self.entry(PropertyName::RRule) is Some
    }

    /// The first entry with the given name.
    pub fn property(&self, name: PropertyName) -> (r: Option<&Entry>)
        ensures
            r is Some == self.entry(name) is Some,
            r matches Some(e) ==> self.entry(name) == Some(*e),
    {
        let mut i: usize = 0;
        while i < self.entries.len()
            invariant
                i <= self.entries@.len(),
                forall|j: int| 0 <= j < i ==> self.entries@[j].name != name,
            decreases self.entries@.len() - i,
        {
            if self.entries[i].name == name {
                proof {
                    lemma_entry_index(self.entries@, name, i as int);
                }
                return Some(&self.entries[i]);
            }
            i = i + 1;
        }
        proof {
            lemma_entry_index(self.entries@, name, i as int);
        }
        None
    }

    /// Whether the component carries a recurrence rule.
    pub fn is_recurring(&self) -> (r: bool)
        ensures
            r == self.recurs(),
    {
        self.property(PropertyName::RRule).is_some()
    }

    /// The unique identifier of the component.
    pub fn uid(&self) -> (r: Option<String>)
        ensures
            r == self.text_of(PropertyName::Uid),
    {
        str_property(self, PropertyName::Uid)
    }

    /// The status of the component.
    pub fn status(&self) -> (r: Option<Status>)
        ensures
            r == self.status_of(),
    {
        let mut i: usize = 0;
        while i < self.entries.len()
            invariant
                i <= self.entries@.len(),
                status_from(self.entries@, 0) == status_from(self.entries@, i as int),
            decreases self.entries@.len() - i,
        {
            let e = &self.entries[i];
            if e.name == PropertyName::Status {
                if let Some(s) = e.status {
                    return Some(s);
                }
            }
            i = i + 1;
        }
        None
    }
}

/// Copies optional text.
pub fn copy_text(t: &Option<String>) -> (r: Option<String>)
    ensures
        r == *t,
{
    match t {
        Some(s) => Some(s.clone()),
        None => None,
    }
}

/// The text of a property: the first textual value, verbatim.
pub fn str_property(component: &Component, name: PropertyName) -> (r: Option<String>)
    ensures
        r == component.text_of(name),
{
    match component.property(name) {
        Some(e) => copy_text(&e.text),
        None => None,
    }
}

/// What resolving a date-time property must give, wherever it does not depend
/// on this machine's local zone.
#[verifier::opaque]
pub open spec fn resolved_as(
    component: Component,
    name: PropertyName,
    today: CivilDate,
    r: Option<Result<i64, PropertyError>>,
) -> bool {
    match component.wall_clock_of(name, today) {
        None => r is None,
        Some((dt, zone)) => if !dt.valid() {
            r == Some(Err::<i64, PropertyError>(PropertyError::Malformed))
        } else {
            match zone {
                Some(z) => {
                    let id = normalized_zone(z@);
                    if !zone_known(id) {
                        r == Some(Err::<i64, PropertyError>(PropertyError::UnknownZone))
                    } else {
                        match zoned_instant(id, dt.fields()) {
                            Some(t) => r matches Some(Ok(s)) && s as int == t,
                            None => r == Some(Err::<i64, PropertyError>(PropertyError::Malformed)),
                        }
                    }
                },
                None => r matches Some(x) && x != Err::<i64, PropertyError>(
                    PropertyError::UnknownZone,
                ),
            }
        },
    }
}

/// Whether a date-time property names a zone that the zone database does not
/// know (its wall-clock value being valid).
pub open spec fn zone_unknown(c: Component, name: PropertyName, today: CivilDate) -> bool {
    match c.wall_clock_of(name, today) {
        Some((dt, Some(z))) => dt.valid() && !zone_known(normalized_zone(z@)),
        _ => false,
    }
}

/// Resolution reports an unknown zone exactly when the property names one.
pub proof fn lemma_unknown_zone_reported(
    c: Component,
    name: PropertyName,
    today: CivilDate,
    r: Option<Result<i64, PropertyError>>,
)
    requires
        resolved_as(c, name, today, r),
    ensures
        (r == Some(Err::<i64, PropertyError>(PropertyError::UnknownZone))) == zone_unknown(
            c,
            name,
            today,
        ),
{
    reveal(resolved_as);
}

/// Reads a date-time property and resolves it to an instant.
///
/// Missing date fields come from `today`, missing time fields are zero. A
/// zone identifier is normalised and looked up; an unknown one is an error.
/// Without one, the value is read on this machine's local clock.
pub fn dt_property(component: &Component, name: PropertyName, today: &CivilDate) -> (r: Option<
    Result<i64, PropertyError>,
>)
    ensures
        resolved_as(*component, name, *today, r),
{
    reveal(resolved_as);
    let entry = match component.property(name) {
        Some(e) => e,
        None => return None,
    };
    let partial = match &entry.date_time {
        Some(p) => p,
        None => return None,
    };
    let dt = complete(partial, today);
    if !is_valid_civil(&dt) {
        return Some(Err(PropertyError::Malformed));
    }
    match &entry.zone {
        Some(z) => {
            let id = normalize_timezone(z.as_str());
            match instant_in_zone(id, &dt) {
                None => Some(Err(PropertyError::UnknownZone)),
                Some(Some(t)) => Some(Ok(t)),
                Some(None) => Some(Err(PropertyError::Malformed)),
            }
        },
        None => match local_instant(&dt) {
            Some(t) => Some(Ok(t)),
            None => Some(Err(PropertyError::Malformed)),
        },
    }
}

} // verus!

verus! {

proof fn lemma_find_entry(es: Seq<Entry>, name: PropertyName, i: int) -> (k: int)
    requires
        0 <= i <= es.len(),
        forall|j: int| 0 <= j < i ==> es[j].name != name,
    ensures
        i <= k <= es.len(),
        forall|j: int| 0 <= j < k ==> es[j].name != name,
        k < es.len() ==> es[k].name == name,
        entry_index(es, name) == (if k < es.len() { Some(k) } else { None::<int> }),
    decreases es.len() - i,
{
    if i == es.len() || es[i].name == name {
        lemma_entry_index(es, name, i);
        i
    } else {
        lemma_find_entry(es, name, i + 1)
    }
}

/// Removing an entry leaves the first entry of every other name as it was.
proof fn lemma_entry_after_removal(es: Seq<Entry>, j: int, name: PropertyName)
    requires
        0 <= j < es.len(),
        es[j].name != name,
    ensures
        (match entry_index(es.remove(j), name) {
            Some(i) => Some(es.remove(j)[i]),
            None => None::<Entry>,
        }) == (match entry_index(es, name) {
            Some(i) => Some(es[i]),
            None => None::<Entry>,
        }),
{
    let rs = es.remove(j);
    es.remove_ensures(j);
    let i = lemma_find_entry(es, name, 0);
    if i < es.len() {
        {
            if i < j {
                lemma_entry_index(rs, name, i);
            } else {
                assert forall|k: int| 0 <= k < i - 1 implies rs[k].name != name by {
                    if k >= j {
                        assert(rs[k] == es[k + 1]);
                    }
                }
                assert(rs[i - 1] == es[i]);
                lemma_entry_index(rs, name, i - 1);
            }
        }
    } else {
        {
            assert forall|k: int| 0 <= k < rs.len() implies rs[k].name != name by {
                if k >= j {
                    assert(rs[k] == es[k + 1]);
                }
            }
            lemma_entry_index(rs, name, rs.len() as int);
        }
    }
}

proof fn lemma_status_shifted(es: Seq<Entry>, j: int, k: int)
    requires
        0 <= j < es.len(),
        j <= k <= es.len() - 1,
    ensures
        status_from(es.remove(j), k) == status_from(es, k + 1),
    decreases es.len() - k,
{
    es.remove_ensures(j);
    if k < es.len() - 1 {
        lemma_status_shifted(es, j, k + 1);
        assert(es.remove(j)[k] == es[k + 1]);
    }
}

proof fn lemma_status_after_removal(es: Seq<Entry>, j: int, from: int)
    requires
        0 <= from <= j < es.len(),
        entry_status(es[j]) is None,
    ensures
        status_from(es.remove(j), from) == status_from(es, from),
    decreases j - from,
{
    es.remove_ensures(j);
    if from == j {
        lemma_status_shifted(es, j, j);
    } else {
        lemma_status_after_removal(es, j, from + 1);
        assert(es.remove(j)[from] == es[from]);
    }
}

/// Removing a start or end entry leaves the text fields, the status and the
/// other time property of the component as they were.
pub proof fn lemma_remove_time_entry(c: Component, d: Component, j: int, other: PropertyName, today: CivilDate)
    requires
        0 <= j < c.entries@.len(),
        c.entries@[j].name == PropertyName::DtStart || c.entries@[j].name == PropertyName::DtEnd,
        other == PropertyName::DtStart || other == PropertyName::DtEnd,
        other != c.entries@[j].name,
        d.is_event == c.is_event,
        d.entries@ == c.entries@.remove(j),
    ensures
        d.text_of(PropertyName::Uid) == c.text_of(PropertyName::Uid),
        d.text_of(PropertyName::Summary) == c.text_of(PropertyName::Summary),
        d.text_of(PropertyName::Description) == c.text_of(PropertyName::Description),
        d.status_of() == c.status_of(),
        d.wall_clock_of(other, today) == c.wall_clock_of(other, today),
        d.uses_local_zone(other, today) == c.uses_local_zone(other, today),
{
    lemma_entry_after_removal(c.entries@, j, PropertyName::Uid);
    lemma_entry_after_removal(c.entries@, j, PropertyName::Summary);
    lemma_entry_after_removal(c.entries@, j, PropertyName::Description);
    lemma_entry_after_removal(c.entries@, j, other);
    lemma_status_after_removal(c.entries@, j, 0);
}

} // verus!
