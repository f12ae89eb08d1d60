//! Expansion of recurring components into concrete occurrences, and the
//! collection of the events of one calendar.

use crate::component::{Component, PropertyName};
use crate::datetime::CivilDate;
use crate::event::{normalizes_to, occurrence, Event, Window};
use chrono::TimeZone;
use vstd::prelude::*;

verus! {

/// The most occurrences that one recurring component expands to.
pub const MAX_OCCURRENCES: u16 = 32;

/// The serialised line of the first entry with the given name, or nothing.
pub open spec fn line_of(c: Component, name: PropertyName) -> Seq<char> {
    match c.entry(name) {
        Some(e) => match e.line {
            Some(l) => l@,
            None => Seq::empty(),
        },
        None => Seq::empty(),
    }
}

/// The rule text handed to the rule evaluator: the start, the rule, the
/// extra dates, the excluded dates and the exclusion rule, in that order.
pub open spec fn rule_source(c: Component) -> Seq<char> {
    line_of(c, PropertyName::DtStart) + line_of(c, PropertyName::RRule) + line_of(
        c,
        PropertyName::RDate,
    ) + line_of(c, PropertyName::ExDate) + line_of(c, PropertyName::ExRule)
}

pub open spec fn in_window(t: i64, w: Window) -> bool {
    w.from <= t < w.until
}

/// The instants of `s` that lie in the window, in their order.
pub open spec fn within(s: Seq<i64>, w: Window) -> Seq<i64>
    decreases s.len(),
{
    if s.len() == 0 {
        Seq::empty()
    } else if in_window(s.last(), w) {
        within(s.drop_last(), w).push(s.last())
    } else {
        within(s.drop_last(), w)
    }
}

/// The first instants of `s` in the window, no more than the cap.
pub open spec fn bounded(s: Seq<i64>, w: Window) -> Seq<i64> {
    let f = within(s, w);
    if f.len() <= MAX_OCCURRENCES as int {
        f
    } else {
        f.take(MAX_OCCURRENCES as int)
    }
}

proof fn lemma_within(s: Seq<i64>, w: Window)
    ensures
        within(s, w).len() <= s.len(),
        forall|i: int| 0 <= i < within(s, w).len() ==> in_window(#[trigger] within(s, w)[i], w),
    decreases s.len(),
{
    if s.len() > 0 {
        lemma_within(s.drop_last(), w);
    }
}

/// Whatever the rule evaluator returns, expansion keeps at most the cap of
/// occurrences, each inside the window.
pub proof fn lemma_bounded(s: Seq<i64>, w: Window)
    ensures
        bounded(s, w).len() <= MAX_OCCURRENCES as int,
        forall|i: int| 0 <= i < bounded(s, w).len() ==> in_window(#[trigger] bounded(s, w)[i], w),
{
    lemma_within(s, w);
    let f = within(s, w);
    assert forall|i: int| 0 <= i < bounded(s, w).len() implies in_window(
        #[trigger] bounded(s, w)[i],
        w,
    ) by {
        assert(bounded(s, w)[i] == f[i]);
    }
}

/// Serialises the recurrence fields of a component into rule text.
pub fn rule_text(c: &Component) -> (r: String)
    ensures
        r@ == rule_source(*c),
{
    let mut rule = String::new();
    append_line(&mut rule, c, PropertyName::DtStart);
    append_line(&mut rule, c, PropertyName::RRule);
    append_line(&mut rule, c, PropertyName::RDate);
    append_line(&mut rule, c, PropertyName::ExDate);
    append_line(&mut rule, c, PropertyName::ExRule);
    rule
}

fn append_line(rule: &mut String, c: &Component, name: PropertyName)
    ensures
        final(rule)@ == old(rule)@ + line_of(*c, name),
{
    match c.property(name) {
        Some(e) => match &e.line {
            Some(l) => {
                rule.append(l.as_str());
            },
            None => {
                assert(old(rule)@ + line_of(*c, name) =~= old(rule)@);
            },
        },
        None => {
            assert(old(rule)@ + line_of(*c, name) =~= old(rule)@);
        },
    }
}

/// Keeps the first instants that lie in the window, up to the cap.
pub fn bound_to_window(instants: &Vec<i64>, w: &Window) -> (r: Vec<i64>)
    ensures
        r@ == bounded(instants@, *w),
{
    let mut out: Vec<i64> = Vec::new();
    let mut i: usize = 0;
    while i < instants.len()
        invariant
            i <= instants@.len(),
            out@ == bounded(instants@.take(i as int), *w),
        decreases instants@.len() - i,
    {
        let t = instants[i];
        proof {
            let s = instants@.take(i as int + 1);
            assert(s.drop_last() =~= instants@.take(i as int));
            assert(s.last() == t);
        }
        if w.from <= t && t < w.until && out.len() < MAX_OCCURRENCES as usize {
            out.push(t);
            proof {
                let s = instants@.take(i as int + 1);
                assert(s.drop_last() =~= instants@.take(i as int));
            }
        } else if w.from <= t && t < w.until {
            proof {
                let s = instants@.take(i as int + 1);
                let f0 = within(instants@.take(i as int), *w);
                assert(within(s, *w) == f0.push(t));
                assert(f0.push(t).take(MAX_OCCURRENCES as int) =~= f0.take(MAX_OCCURRENCES as int));
            }
        }
        i = i + 1;
    }
    assert(instants@.take(instants@.len() as int) =~= instants@);
    out
}

/// The first instant of year 1 and the last of year 9999.
pub const EARLIEST_INSTANT: i64 = -62135596800;
pub const LATEST_INSTANT: i64 = 253402300799;

/// Whether a window lies within the supported years.
pub open spec fn supported_window(w: Window) -> bool {
    EARLIEST_INSTANT <= w.from && w.until <= LATEST_INSTANT
}

/// Relies on `rrule::RRuleSet`'s `FromStr` to parse the rule text (`None`
/// when it does not parse; a floating date-time in it is read on this
/// machine's local clock, so the outcome may depend on the machine) and on
/// `RRuleSet::after`, `before` and `all(limit)`: at most `limit` instants,
/// each within the bounds, both included. The bounds are read on this
/// machine's local clock, whose zone lookup fails only for years far outside
/// the supported ones; `requires` keeps the bounds inside them.
#[verifier::external_body]
fn evaluate_rule(rule: &str, from: i64, until: i64, limit: u16) -> (r: Option<Vec<i64>>)
    requires
        EARLIEST_INSTANT <= from,
        until <= LATEST_INSTANT,
    ensures
        r matches Some(v) ==> v@.len() <= limit && forall|i: int|
            0 <= i < v@.len() ==> from <= #[trigger] v@[i] <= until,
{
    let set = rule.parse::<rrule::RRuleSet>().ok()?;
    let local = rrule::Tz::Local(chrono::Local);
    let after = local.timestamp_opt(from, 0).earliest()?;
    let before = local.timestamp_opt(until, 0).earliest()?;
    let result = set.after(after).before(before).all(limit);
    Some(result.dates.iter().map(|d| d.timestamp()).collect())
}

/// The occurrences of a recurring component given the instants that its rule
/// produced (`None` when the rule could not be evaluated): the normalised
/// master instantiated at each kept instant.
pub fn expansion(root: &Component, today: &CivilDate, window: &Window, instants: Option<Vec<i64>>) -> (r: Option<Vec<Event>>)
    ensures
        instants is None ==> r is None,
        instants matches Some(v) ==> r matches Some(evs) && evs@.len() == bounded(v@, *window).len()
            && exists|master: Event|
            normalizes_to(*root, *today, master) && forall|i: int|
                0 <= i < evs@.len() ==> evs@[i] == occurrence(master, bounded(v@, *window)[i]),
{
    match instants {
        None => None,
        Some(v) => {
            let kept = bound_to_window(&v, window);
            Some(Event::from_recurrences(root, today, &kept))
        },
    }
}

/// Whether `evs` is a possible expansion of the recurring component `c`: at
/// most the cap of occurrences of its normalised master, each inside the
/// window.
pub open spec fn expands_to(c: Component, today: CivilDate, w: Window, evs: Seq<Event>) -> bool {
    &&& evs.len() <= MAX_OCCURRENCES as int
    &&& exists|master: Event|
        normalizes_to(c, today, master) && forall|i: int|
            0 <= i < evs.len() ==> #[trigger] evs[i] == occurrence(master, evs[i].starts->0)
                && evs[i].starts is Some && in_window(evs[i].starts->0, w)
}

proof fn lemma_expansion_expands(c: Component, today: CivilDate, w: Window, v: Seq<i64>, evs: Seq<Event>)
    requires
        evs.len() == bounded(v, w).len(),
        exists|master: Event|
            normalizes_to(c, today, master) && forall|i: int|
                0 <= i < evs.len() ==> evs[i] == occurrence(master, bounded(v, w)[i]),
    ensures
        expands_to(c, today, w, evs),
{
    lemma_bounded(v, w);
    let b = bounded(v, w);
    let master = choose|master: Event|
        normalizes_to(c, today, master) && forall|i: int|
            0 <= i < evs.len() ==> evs[i] == occurrence(master, b[i]);
    assert forall|i: int| 0 <= i < evs.len() implies #[trigger] evs[i] == occurrence(
        master,
        evs[i].starts->0,
    ) && evs[i].starts is Some && in_window(evs[i].starts->0, w) by {
        assert(evs[i] == occurrence(master, b[i]));
        assert(in_window(b[i], w));
    }
}

/// Expands a recurring component within the window. A rule that does not
/// evaluate gives `None`.
pub fn expand_events(root: &Component, window: &Window, today: &CivilDate) -> (r: Option<Vec<Event>>)
    requires
        supported_window(*window),
    ensures
        r matches Some(evs) ==> expands_to(*root, *today, *window, evs@),
{
    let rule = rule_text(root);
    let instants = evaluate_rule(rule.as_str(), window.from, window.until, MAX_OCCURRENCES);
    let r = expansion(root, today, window, instants);
    proof {
        if r is Some {
            lemma_expansion_expands(*root, *today, *window, instants->0@, r->0@);
        }
    }
    r
}

/// The events that one component yields.
pub open spec fn yields(c: Component, today: CivilDate, w: Window, evs: Seq<Event>) -> bool {
    if !c.is_event {
        evs.len() == 0
    } else if !c.recurs() {
        evs.len() == 1 && normalizes_to(c, today, evs[0])
    } else {
        evs.len() == 0 || expands_to(c, today, w, evs)
    }
}

pub open spec fn concat(pieces: Seq<Seq<Event>>) -> Seq<Event>
    decreases pieces.len(),
{
    if pieces.len() == 0 {
        Seq::empty()
    } else {
        concat(pieces.drop_last()) + pieces.last()
    }
}

/// The events of one calendar's components: other kinds than events are
/// skipped, recurring events are expanded within the window (none when
/// their rule does not evaluate) and the others are normalised.
pub fn collect_events(components: &Vec<Component>, window: &Window, today: &CivilDate) -> (r: Vec<Event>)
    requires
        supported_window(*window),
    ensures
        exists|pieces: Seq<Seq<Event>>|
            pieces.len() == components@.len() && (forall|i: int|
                0 <= i < pieces.len() ==> yields(components@[i], *today, *window, #[trigger] pieces[i]))
                && r@ == concat(pieces),
{
    let mut out: Vec<Event> = Vec::new();
    let ghost mut pieces: Seq<Seq<Event>> = Seq::empty();
    let mut i: usize = 0;
    while i < components.len()
        invariant
            i <= components@.len(),
            supported_window(*window),
            pieces.len() == i,
            forall|k: int|
                0 <= k < i ==> yields(components@[k], *today, *window, #[trigger] pieces[k]),
            out@ == concat(pieces),
        decreases components@.len() - i,
    {
        let c = &components[i];
        let mut piece: Vec<Event> = if !c.is_event {
            Vec::new()
        } else if c.is_recurring() {
            match expand_events(c, window, today) {
                Some(evs) => evs,
                None => Vec::new(),
            }
        } else {
            let mut one: Vec<Event> = Vec::new();
            one.push(Event::from(c, today));
            one
        };
        proof {
            assert(pieces.push(piece@).drop_last() =~= pieces);
        }
        let ghost p = piece@;
        out.append(&mut piece);
        proof {
            pieces = pieces.push(p);
        }
        i = i + 1;
    }
    out
}

} // verus!
