//! What is happening now and what comes next.

use crate::event::{Event, Window};
use crate::timeline::{sorted_by_start, start_le};
use vstd::prelude::*;

verus! {

/// The state of the timeline relative to "now". Indices refer to the
/// classified list; remaining times are in seconds.
#[derive(Clone, Copy, Debug, PartialEq, Eq, Structural)]
pub enum Classification {
    /// An event is under way and ends after `remaining` seconds.
    Current { index: usize, remaining: u64 },
    /// The next event starts after `remaining` seconds.
    Next { index: usize, remaining: u64 },
    /// An event is coming, but not today.
    NoneToday,
    /// Nothing is under way or coming.
    NoEvent,
}

/// Both ends known, in order, and the end still ahead. An event that ends
/// before it starts is incomplete and never active.
pub open spec fn is_active(e: Event, now: i64) -> bool {
    e.starts is Some && e.ends is Some && e.starts->0 <= e.ends->0 && e.ends->0 > now
}

/// Under way: started, not yet ended.
pub open spec fn is_current(e: Event, now: i64) -> bool {
    is_active(e, now) && e.starts->0 <= now
}

/// Index of the first event under way, from position `from` on.
pub open spec fn first_current(s: Seq<Event>, now: i64, from: int) -> Option<int>
    decreases s.len() - from,
{
    if from < 0 || from >= s.len() {
        None
    } else if is_current(s[from], now) {
        Some(from)
    } else {
        first_current(s, now, from + 1)
    }
}

/// Index of the first event whose end is ahead, from position `from` on.
pub open spec fn first_active(s: Seq<Event>, now: i64, from: int) -> Option<int>
    decreases s.len() - from,
{
    if from < 0 || from >= s.len() {
        None
    } else if is_active(s[from], now) {
        Some(from)
    } else {
        first_active(s, now, from + 1)
    }
}

proof fn lemma_first_current(s: Seq<Event>, now: i64, from: int)
    requires
        0 <= from,
    ensures
        match first_current(s, now, from) {
            Some(k) => from <= k < s.len() && is_current(s[k], now) && forall|j: int|
                from <= j < k ==> !is_current(#[trigger] s[j], now),
            None => forall|j: int| from <= j < s.len() ==> !is_current(#[trigger] s[j], now),
        },
    decreases s.len() - from,
{
    if from < s.len() {
        lemma_first_current(s, now, from + 1);
    }
}

proof fn lemma_first_active(s: Seq<Event>, now: i64, from: int)
    requires
        0 <= from,
    ensures
        match first_active(s, now, from) {
            Some(k) => from <= k < s.len() && is_active(s[k], now) && forall|j: int|
                from <= j < k ==> !is_active(#[trigger] s[j], now),
            None => forall|j: int| from <= j < s.len() ==> !is_active(#[trigger] s[j], now),
        },
    decreases s.len() - from,
{
    if from < s.len() {
        lemma_first_active(s, now, from + 1);
    }
}

/// The classification of `events` at `now`. With `limit_to_today`, a next
/// event that does not start within `today` gives `NoneToday`.
#[verifier::opaque]
pub open spec fn classified(events: Seq<Event>, now: i64, limit_to_today: bool, today: Window) -> Classification {
    match first_current(events, now, 0) {
        Some(i) => Classification::Current {
            index: i as usize,
            remaining: (events[i].ends->0 - now) as u64,
        },
        None => match first_active(events, now, 0) {
            Some(i) => {
                let s = events[i].starts->0;
                if limit_to_today && !(today.from <= s < today.until) {
                    Classification::NoneToday
                } else {
                    Classification::Next { index: i as usize, remaining: (s - now) as u64 }
                }
            },
            None => Classification::NoEvent,
        },
    }
}

/// Classifies the events at `now`: the first event under way is current;
/// otherwise the first event whose end is ahead is next.
pub fn classify(events: &Vec<Event>, now: i64, limit_to_today: bool, today: &Window) -> (r: Classification)
    ensures
        r == classified(events@, now, limit_to_today, *today),
{
    let mut i: usize = 0;
    while i < events.len()
        invariant
            i <= events@.len(),
            first_current(events@, now, 0) == first_current(events@, now, i as int),
        decreases events@.len() - i,
    {
        let e = &events[i];
        if let (Some(s), Some(t)) = (e.starts, e.ends) {
            if s <= now && t > now {
                proof {
                    reveal(classified);
                }
                return Classification::Current { index: i, remaining: (t as i128 - now as i128) as u64 };
            }
        }
        i = i + 1;
    }
    proof {
        reveal(classified);
    }
    let mut k: usize = 0;
    while k < events.len()
        invariant
            k <= events@.len(),
            first_active(events@, now, 0) == first_active(events@, now, k as int),
            first_current(events@, now, 0) is None,
        decreases events@.len() - k,
    {
        let e = &events[k];
        if let (Some(s), Some(t)) = (e.starts, e.ends) {
            if s <= t && t > now {
                proof {
                    reveal(classified);
                }
                if limit_to_today && !(today.from <= s && s < today.until) {
                    return Classification::NoneToday;
                }
                return Classification::Next { index: k, remaining: (s as i128 - now as i128) as u64 };
            }
        }
        k = k + 1;
    }
    proof {
        reveal(classified);
    }
    Classification::NoEvent
}

/// Exactly one outcome holds at a given `now`: an event is current exactly
/// when one is under way; otherwise one is next (or coming, not today) exactly
/// when an event's end is ahead; otherwise there is none. The remaining time is
/// that to the end of the current event, or to the start of the next one.
pub proof fn lemma_classification_exclusive(events: Seq<Event>, now: i64, limit_to_today: bool, today: Window)
    requires
        events.len() <= usize::MAX,
    ensures
        classified(events, now, limit_to_today, today) is Current <==> exists|i: int|
            0 <= i < events.len() && is_current(#[trigger] events[i], now),
        (classified(events, now, limit_to_today, today) is Next || classified(events, now, limit_to_today, today) is NoneToday)
            <==> (!exists|i: int| 0 <= i < events.len() && is_current(#[trigger] events[i], now))
            && exists|i: int| 0 <= i < events.len() && is_active(#[trigger] events[i], now),
        classified(events, now, limit_to_today, today) is NoEvent <==> !exists|i: int|
            0 <= i < events.len() && is_active(#[trigger] events[i], now),
        classified(events, now, limit_to_today, today) matches Classification::Current { index, remaining }
            ==> index < events.len() && is_current(events[index as int], now) && remaining == events[index as int].ends->0 - now,
        classified(events, now, limit_to_today, today) matches Classification::Next { index, remaining }
            ==> index < events.len() && is_active(events[index as int], now) && !is_current(events[index as int], now)
            && remaining == events[index as int].starts->0 - now,
{
    reveal(classified);
    lemma_first_current(events, now, 0);
    lemma_first_active(events, now, 0);
    if let Some(i) = first_current(events, now, 0) {
        assert(0 < events[i].ends->0 - now <= u64::MAX);
    } else if let Some(i) = first_active(events, now, 0) {
        assert(0 < events[i].starts->0 - now <= u64::MAX);
    }
    if exists|i: int| 0 <= i < events.len() && is_current(#[trigger] events[i], now) {
        let i = choose|i: int| 0 <= i < events.len() && is_current(#[trigger] events[i], now);
        assert(is_active(events[i], now));
    }
}

/// On a timeline ordered by start, the next event starts no later than any
/// other event whose end is ahead.
pub proof fn lemma_next_is_earliest(events: Seq<Event>, now: i64, limit_to_today: bool, today: Window, j: int)
    requires
        sorted_by_start(events),
        classified(events, now, limit_to_today, today) is Next,
        0 <= j < events.len(),
        events.len() <= usize::MAX,
        is_active(events[j], now),
    ensures
        events[classified(events, now, limit_to_today, today)->Next_index as int].starts->0
            <= events[j].starts->0,
{
    reveal(classified);
    lemma_first_current(events, now, 0);
    lemma_first_active(events, now, 0);
    let i = first_active(events, now, 0)->0;
    if j < i {
        assert(!is_active(events[j], now));
    }
    if i < j {
        assert(start_le(events[i].starts, events[j].starts));
    }
}

/// A remaining time in whole minutes, in seconds: negative times count as
/// zero.
pub open spec fn whole_minutes(delta: int) -> int {
    if delta <= 0 {
        0
    } else {
        delta - delta % 60
    }
}

/// Rounds a remaining time down to the minute.
pub fn round_to_minute(delta: i64) -> (r: u64)
    ensures
        r == whole_minutes(delta as int),
{
    if delta <= 0 {
        0
    } else {
        let s = delta as u64;
        s - s % 60
    }
}

/// How humantime writes a number of seconds.
pub uninterp spec fn duration_text(secs: int) -> Seq<char>;

/// Relies on `humantime::format_duration` for the text of a whole number of
/// seconds; zero is written `0s`.
#[verifier::external_body]
fn format_seconds(secs: u64) -> (r: String)
    ensures
        r@ == duration_text(secs as int),
        secs == 0 ==> r@ == seq!['0', 's'],
{
    humantime::format_duration(std::time::Duration::from_secs(secs)).to_string()
}

/// A short human-readable remaining time, rounded down to the minute.
pub fn human_short_duration(delta: i64) -> (r: String)
    ensures
        r@ == duration_text(whole_minutes(delta as int)),
        delta < 60 ==> r@ == seq!['0', 's'],
{
    format_seconds(round_to_minute(delta))
}

} // verus!

verus! {

/// A remaining number of seconds rounded down to the minute, in words.
pub fn duration_words(secs: u64) -> (r: String)
    ensures
        r@ == duration_text(whole_minutes(secs as int)),
{
    format_seconds(secs - secs % 60)
}

/// How an event is named in a message.
pub open spec fn label(e: Event) -> Seq<char> {
    match e.title {
        Some(t) => t@,
        None => "Unknown Event"@,
    }
}

/// The one-line message for a classification.
pub open spec fn message(events: Seq<Event>, c: Classification) -> Seq<char> {
    match c {
        Classification::Current { index, remaining } => label(events[index as int]) + " ends in "@
            + duration_text(whole_minutes(remaining as int)),
        Classification::Next { index, remaining } => label(events[index as int]) + " in "@
            + duration_text(whole_minutes(remaining as int)),
        Classification::NoneToday => "No Upcoming Event Today"@,
        Classification::NoEvent => "No Upcoming Event"@,
    }
}

/// Writes the message for a classification of `events`.
pub fn summary_message(events: &Vec<Event>, c: Classification) -> (r: String)
    requires
        c matches Classification::Current { index, .. } ==> index < events@.len(),
        c matches Classification::Next { index, .. } ==> index < events@.len(),
    ensures
        r@ == message(events@, c),
{
    match c {
        Classification::Current { index, remaining } => {
            let mut s = event_label(&events[index]);
            s.append(" ends in ");
            let d = duration_words(remaining);
            s.append(d.as_str());
            s
        },
        Classification::Next { index, remaining } => {
            let mut s = event_label(&events[index]);
            s.append(" in ");
            let d = duration_words(remaining);
            s.append(d.as_str());
            s
        },
        Classification::NoneToday => String::from_str("No Upcoming Event Today"),
        Classification::NoEvent => String::from_str("No Upcoming Event"),
    }
}

fn event_label(e: &Event) -> (r: String)
    ensures
        r@ == label(*e),
{
    match &e.title {
        Some(t) => t.clone(),
        None => String::from_str("Unknown Event"),
    }
}

} // verus!

verus! {

/// Both ends known and in order.
pub open spec fn is_complete(e: Event) -> bool {
    e.starts is Some && e.ends is Some && e.starts->0 <= e.ends->0
}

/// The complete events of `s`, in order.
pub open spec fn drop_incomplete(s: Seq<Event>) -> Seq<Event>
    decreases s.len(),
{
    if s.len() == 0 {
        Seq::empty()
    } else if is_complete(s[0]) {
        seq![s[0]] + drop_incomplete(s.drop_first())
    } else {
        drop_incomplete(s.drop_first())
    }
}

/// The first event under way.
pub open spec fn first_current_event(s: Seq<Event>, now: i64) -> Option<Event>
    decreases s.len(),
{
    if s.len() == 0 {
        None
    } else if is_current(s[0], now) {
        Some(s[0])
    } else {
        first_current_event(s.drop_first(), now)
    }
}

/// The first event whose end is ahead.
pub open spec fn first_active_event(s: Seq<Event>, now: i64) -> Option<Event>
    decreases s.len(),
{
    if s.len() == 0 {
        None
    } else if is_active(s[0], now) {
        Some(s[0])
    } else {
        first_active_event(s.drop_first(), now)
    }
}

proof fn lemma_first_events(s: Seq<Event>, now: i64, from: int)
    requires
        0 <= from <= s.len(),
    ensures
        first_current_event(s.skip(from), now) == (match first_current(s, now, from) {
            Some(i) => Some(s[i]),
            None => None::<Event>,
        }),
        first_active_event(s.skip(from), now) == (match first_active(s, now, from) {
            Some(i) => Some(s[i]),
            None => None::<Event>,
        }),
    decreases s.len() - from,
{
    if from < s.len() {
        lemma_first_events(s, now, from + 1);
        assert(s.skip(from).drop_first() =~= s.skip(from + 1));
        assert(s.skip(from)[0] == s[from]);
    }
}

proof fn lemma_drop_incomplete(s: Seq<Event>, now: i64)
    ensures
        first_current_event(drop_incomplete(s), now) == first_current_event(s, now),
        first_active_event(drop_incomplete(s), now) == first_active_event(s, now),
    decreases s.len(),
{
    if s.len() > 0 {
        lemma_drop_incomplete(s.drop_first(), now);
        if is_complete(s[0]) {
            let t = seq![s[0]] + drop_incomplete(s.drop_first());
            assert(t[0] == s[0]);
            assert(t.drop_first() =~= drop_incomplete(s.drop_first()));
        }
    }
}

/// The event that a classification reports, if any.
pub open spec fn reported(events: Seq<Event>, c: Classification) -> Option<Event> {
    match c {
        Classification::Current { index, .. } => Some(events[index as int]),
        Classification::Next { index, .. } => Some(events[index as int]),
        _ => None,
    }
}

/// A classification with its index left out.
pub open spec fn outcome(c: Classification) -> Classification {
    match c {
        Classification::Current { remaining, .. } => Classification::Current { index: 0, remaining },
        Classification::Next { remaining, .. } => Classification::Next { index: 0, remaining },
        _ => c,
    }
}

/// Events without both ends, or ending before they start, never matter:
/// classifying the timeline with them or without them gives the same outcome
/// and reports the same event.
pub proof fn lemma_incomplete_events_ignored(events: Seq<Event>, now: i64, limit_to_today: bool, today: Window)
    requires
        events.len() <= usize::MAX,
    ensures
        outcome(classified(events, now, limit_to_today, today)) == outcome(
            classified(drop_incomplete(events), now, limit_to_today, today),
        ),
        reported(events, classified(events, now, limit_to_today, today)) == reported(
            drop_incomplete(events),
            classified(drop_incomplete(events), now, limit_to_today, today),
        ),
{
    let t = drop_incomplete(events);
    lemma_drop_incomplete_len(events);
    lemma_first_events(events, now, 0);
    lemma_first_events(t, now, 0);
    assert(events.skip(0) =~= events);
    assert(t.skip(0) =~= t);
    lemma_drop_incomplete(events, now);
    lemma_first_current(events, now, 0);
    lemma_first_current(t, now, 0);
    lemma_first_active(events, now, 0);
    lemma_first_active(t, now, 0);
    reveal(classified);
}

proof fn lemma_drop_incomplete_len(s: Seq<Event>)
    ensures
        drop_incomplete(s).len() <= s.len(),
    decreases s.len(),
{
    if s.len() > 0 {
        lemma_drop_incomplete_len(s.drop_first());
    }
}

} // verus!
