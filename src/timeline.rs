//! Merging, filtering, ordering and classifying events relative to "now".

use crate::component::Status;
use crate::event::{Event, Window};
use crate::order::{holds_index, lemma_place_by, placed_by, total_preorder};
use crate::recurrence::concat;
use vstd::prelude::*;

verus! {

/// Order of start instants: an absent start comes first.
pub open spec fn start_le(a: Option<i64>, b: Option<i64>) -> bool {
    match (a, b) {
        (None, _) => true,
        (Some(_), None) => false,
        (Some(x), Some(y)) => x <= y,
    }
}

pub open spec fn sorted_by_start(s: Seq<Event>) -> bool {
    forall|i: int, j: int| 0 <= i < j < s.len() ==> start_le(s[i].starts, s[j].starts)
}

/// The order of events by start.
pub open spec fn by_start() -> spec_fn(Event, Event) -> bool {
    |a: Event, b: Event| start_le(a.starts, b.starts)
}

/// `r` is `orig` rearranged: position `k` of `r` holds item `idx[k]` of
/// `orig`, every item appears once, the starts are in order, and items with
/// equal starts keep their relative order.
pub open spec fn stable_arrangement(r: Seq<Event>, orig: Seq<Event>, idx: Seq<int>) -> bool {
    &&& r.len() == orig.len()
    &&& placed_by(r, orig, idx, 0, by_start())
}

proof fn lemma_by_start_total()
    ensures
        total_preorder(by_start()),
{
    assert forall|a: Event, b: Event, c: Event|
        #[trigger] by_start()(a, b) && #[trigger] by_start()(b, c) implies by_start()(a, c) by {}
    assert forall|a: Event, b: Event| #[trigger] by_start()(a, b) || by_start()(b, a) by {}
}

/// Whether an event is kept: only those explicitly cancelled are dropped.
pub open spec fn scheduled(e: Event) -> bool {
    e.status != Some(Status::Cancelled)
}

pub open spec fn keep_scheduled(s: Seq<Event>) -> Seq<Event>
    decreases s.len(),
{
    if s.len() == 0 {
        Seq::empty()
    } else if scheduled(s.last()) {
        keep_scheduled(s.drop_last()).push(s.last())
    } else {
        keep_scheduled(s.drop_last())
    }
}

pub open spec fn views(per_calendar: Seq<Vec<Event>>) -> Seq<Seq<Event>> {
    per_calendar.map_values(|v: Vec<Event>| v@)
}

fn start_before(a: Option<i64>, b: Option<i64>) -> (r: bool)
    ensures
        r == !start_le(b, a),
{
    match (a, b) {
        (_, None) => false,
        (None, Some(_)) => true,
        (Some(x), Some(y)) => x < y,
    }
}

/// Orders events by start, keeping the relative order of equal starts.
pub fn sort_by_start(events: Vec<Event>) -> (r: Vec<Event>)
    ensures
        sorted_by_start(r@),
        exists|idx: Seq<int>| stable_arrangement(r@, events@, idx),
{
    let ghost orig = events@;
    let mut rest = events;
    let mut out: Vec<Event> = Vec::new();
    let ghost mut idx: Seq<int> = Seq::empty();
    while rest.len() > 0
        invariant
            rest@ == orig.take(rest@.len() as int),
            rest@.len() <= orig.len(),
            out@.len() + rest@.len() == orig.len(),
            placed_by(out@, orig, idx, rest@.len() as int, by_start()),
        decreases rest@.len(),
    {
        let ghost m = rest@.len() - 1;
        let e = rest.pop().unwrap();
        assert(rest@ =~= orig.take(m));
        let mut p: usize = 0;
        while p < out.len() && start_before(out[p].starts, e.starts)
            invariant
                p <= out@.len(),
                forall|k: int| 0 <= k < p ==> !start_le(e.starts, #[trigger] out@[k].starts),
            decreases out@.len() - p,
        {
            p = p + 1;
        }
        proof {
            lemma_by_start_total();
            assert forall|k: int| 0 <= k < p implies !by_start()(orig[m], #[trigger] out@[k]) by {
                assert(!start_le(e.starts, out@[k].starts));
            }
            lemma_place_by(out@, orig, idx, m, p as int, by_start());
            idx = idx.insert(p as int, m);
        }
        out.insert(p, e);
    }
    proof {
        assert(stable_arrangement(out@, orig, idx));
        assert forall|i: int, j: int| 0 <= i < j < out@.len() implies start_le(
            out@[i].starts,
            out@[j].starts,
        ) by {
            assert(by_start()(out@[i], out@[j]));
        }
    }
    out
}

/// Every item of the input appears in the sorted output, and two items with
/// equal starts come out in the order in which they went in.
pub proof fn lemma_sort_keeps_ties(r: Seq<Event>, orig: Seq<Event>, idx: Seq<int>, i: int, j: int)
    requires
        stable_arrangement(r, orig, idx),
        0 <= i < j < orig.len(),
        orig[i].starts == orig[j].starts,
    ensures
        exists|a: int, b: int|
            #![trigger idx[a], idx[b]]
            0 <= a < b < r.len() && idx[a] == i && idx[b] == j && r[a] == orig[i] && r[b] == orig[j],
{
    assert(holds_index(idx, i) && holds_index(idx, j));
    let a = choose|k: int| 0 <= k < idx.len() && #[trigger] idx[k] == i;
    let b = choose|k: int| 0 <= k < idx.len() && #[trigger] idx[k] == j;
    assert(r[a] == orig[idx[a]] && r[b] == orig[idx[b]]);
    assert(a != b);
    if b < a {
        assert(by_start()(r[a], r[b]));
    }
    assert(0 <= a < b < r.len() && idx[a] == i && idx[b] == j && r[a] == orig[i] && r[b] == orig[j]);
}

/// Drops the events that are explicitly cancelled.
pub fn retain_scheduled(events: Vec<Event>) -> (r: Vec<Event>)
    ensures
        r@ == keep_scheduled(events@),
{
    let ghost orig = events@;
    let mut rest = events;
    let mut out: Vec<Event> = Vec::new();
    let ghost mut i: int = 0;
    while rest.len() > 0
        invariant
            0 <= i <= orig.len(),
            rest@ == orig.subrange(i, orig.len() as int),
            out@ == keep_scheduled(orig.take(i)),
        decreases rest@.len(),
    {
        let e = rest.remove(0);
        proof {
            assert(orig.take(i + 1).drop_last() =~= orig.take(i));
            assert(orig.take(i + 1).last() == e);
        }
        let cancelled = match e.status {
            Some(Status::Cancelled) => true,
            _ => false,
        };
        if !cancelled {
            out.push(e);
        }
        proof {
            i = i + 1;
            assert(rest@ =~= orig.subrange(i, orig.len() as int));
        }
    }
    assert(orig.take(i) =~= orig);
    out
}

/// Concatenates the events of several calendars, calendar by calendar.
pub fn merge_calendars(per_calendar: Vec<Vec<Event>>) -> (r: Vec<Event>)
    ensures
        r@ == concat(views(per_calendar@)),
{
    let ghost orig = per_calendar@;
    let mut rest = per_calendar;
    let mut out: Vec<Event> = Vec::new();
    let ghost mut i: int = 0;
    while rest.len() > 0
        invariant
            0 <= i <= orig.len(),
            rest@ == orig.subrange(i, orig.len() as int),
            out@ == concat(views(orig.take(i))),
        decreases rest@.len(),
    {
        let mut v = rest.remove(0);
        proof {
            assert(views(orig.take(i + 1)).drop_last() =~= views(orig.take(i)));
            assert(views(orig.take(i + 1)).last() == v@);
        }
        out.append(&mut v);
        proof {
            i = i + 1;
            assert(rest@ =~= orig.subrange(i, orig.len() as int));
        }
    }
    assert(orig.take(i) =~= orig);
    out
}

/// The timeline of several calendars: their events merged, the cancelled
/// ones dropped, and the rest ordered by start with ties kept in order.
pub fn assemble_timeline(per_calendar: Vec<Vec<Event>>) -> (r: Vec<Event>)
    ensures
        sorted_by_start(r@),
        exists|idx: Seq<int>|
            stable_arrangement(r@, keep_scheduled(concat(views(per_calendar@))), idx),
{
    let merged = merge_calendars(per_calendar);
    let kept = retain_scheduled(merged);
    sort_by_start(kept)
}

} // verus!

verus! {

pub open spec fn starts_within(e: Event, day: Window) -> bool {
    e.starts matches Some(s) && day.from <= s < day.until
}

/// The events of `s` that start within the window, in their order.
pub open spec fn within_day(s: Seq<Event>, day: Window) -> Seq<Event>
    decreases s.len(),
{
    if s.len() == 0 {
        Seq::empty()
    } else if starts_within(s.last(), day) {
        within_day(s.drop_last(), day).push(s.last())
    } else {
        within_day(s.drop_last(), day)
    }
}

/// Keeps the events that start within the window, such as one local day.
pub fn events_within(events: Vec<Event>, day: &Window) -> (r: Vec<Event>)
    ensures
        r@ == within_day(events@, *day),
{
    let ghost orig = events@;
    let mut rest = events;
    let mut out: Vec<Event> = Vec::new();
    let ghost mut i: int = 0;
    while rest.len() > 0
        invariant
            0 <= i <= orig.len(),
            rest@ == orig.subrange(i, orig.len() as int),
            out@ == within_day(orig.take(i), *day),
        decreases rest@.len(),
    {
        let e = rest.remove(0);
        proof {
            assert(orig.take(i + 1).drop_last() =~= orig.take(i));
            assert(orig.take(i + 1).last() == e);
        }
        let keep = match e.starts {
            Some(s) => day.from <= s && s < day.until,
            None => false,
        };
        if keep {
            out.push(e);
        }
        proof {
            i = i + 1;
            assert(rest@ =~= orig.subrange(i, orig.len() as int));
        }
    }
    assert(orig.take(i) =~= orig);
    out
}

} // verus!
