//! The time windows that queries and expansion use, and the query text that
//! asks a calendar for the events of a window.

use crate::datetime::{
    following_day, local_instant, midnight, next_day, preceding_day, previous_day, start_of,
    CivilDate, CivilDateTime,
};
use crate::event::Window;
use vstd::prelude::*;

verus! {

/// The wall-clock bounds of the near-events window: from the start of
/// yesterday to the end of the day after tomorrow.
pub open spec fn near_span(today: CivilDate) -> (CivilDateTime, CivilDateTime) {
    (midnight(preceding_day(today)), midnight(following_day(following_day(following_day(today)))))
}

/// Whether every day that the near-events window touches is supported.
pub open spec fn near_days_valid(today: CivilDate) -> bool {
    &&& preceding_day(today).valid()
    &&& following_day(today).valid()
    &&& following_day(following_day(today)).valid()
    &&& following_day(following_day(following_day(today))).valid()
}

/// The wall-clock bounds of the near-events window around `today`, or `None`
/// at the edge of the supported years.
pub fn near_bounds(today: &CivilDate) -> (r: Option<(CivilDateTime, CivilDateTime)>)
    requires
        today.valid(),
    ensures
        r is Some <==> near_days_valid(*today),
        r matches Some(b) ==> b == near_span(*today),
{
    let yesterday = previous_day(today)?;
    let tomorrow = next_day(today)?;
    let after = next_day(&tomorrow)?;
    let end = next_day(&after)?;
    Some((start_of(&yesterday), start_of(&end)))
}

/// The near-events window on this machine's local clock.
pub fn near_window(today: &CivilDate) -> (r: Option<Window>)
    requires
        today.valid(),
    ensures
        !near_days_valid(*today) ==> r is None,
{
    let (from, until) = near_bounds(today)?;
    let a = local_instant(&from)?;
    let b = local_instant(&until)?;
    Some(Window { from: a, until: b })
}

/// The window of one local day, from its midnight to the next.
pub fn day_window(day: &CivilDate) -> (r: Option<Window>)
    requires
        day.valid(),
    ensures
        !following_day(*day).valid() ==> r is None,
{
    let next = next_day(day)?;
    let a = local_instant(&start_of(day))?;
    let b = local_instant(&start_of(&next))?;
    Some(Window { from: a, until: b })
}

pub open spec fn digit_char(d: int) -> char {
    if d == 0 {
        '0'
    } else if d == 1 {
        '1'
    } else if d == 2 {
        '2'
    } else if d == 3 {
        '3'
    } else if d == 4 {
        '4'
    } else if d == 5 {
        '5'
    } else if d == 6 {
        '6'
    } else if d == 7 {
        '7'
    } else if d == 8 {
        '8'
    } else {
        '9'
    }
}

/// The last `width` decimal digits of `n`, zero-padded.
pub open spec fn digits(n: nat, width: nat) -> Seq<char>
    decreases width,
{
    if width == 0 {
        Seq::empty()
    } else {
        digits(n / 10, (width - 1) as nat).push(digit_char((n % 10) as int))
    }
}

/// A wall-clock value written `YYYYMMDDTHHMMSS`.
pub open spec fn stamp(dt: CivilDateTime) -> Seq<char> {
    digits(dt.year as nat, 4) + digits(dt.month as nat, 2) + digits(dt.day as nat, 2) + seq!['T']
        + digits(dt.hour as nat, 2) + digits(dt.minute as nat, 2) + digits(dt.second as nat, 2)
}

/// The query for the events that occur between two wall-clock values.
pub open spec fn range_query(from: CivilDateTime, until: CivilDateTime) -> Seq<char> {
    "(occur-in-time-range? (make-time \""@ + stamp(from) + "\") (make-time \""@ + stamp(until)
        + "\"))"@
}

fn append_digit(s: &mut String, d: u32)
    requires
        d < 10,
    ensures
        final(s)@ == old(s)@.push(digit_char(d as int)),
{
    let t: &str = if d == 0 {
        "0"
    } else if d == 1 {
        "1"
    } else if d == 2 {
        "2"
    } else if d == 3 {
        "3"
    } else if d == 4 {
        "4"
    } else if d == 5 {
        "5"
    } else if d == 6 {
        "6"
    } else if d == 7 {
        "7"
    } else if d == 8 {
        "8"
    } else {
        "9"
    };
    proof {
        reveal_strlit("0");
        reveal_strlit("1");
        reveal_strlit("2");
        reveal_strlit("3");
        reveal_strlit("4");
        reveal_strlit("5");
        reveal_strlit("6");
        reveal_strlit("7");
        reveal_strlit("8");
        reveal_strlit("9");
    }
    s.append(t);
    assert(final(s)@ =~= old(s)@.push(digit_char(d as int)));
}

fn append_digits(s: &mut String, n: u32, width: u32)
    ensures
        final(s)@ == old(s)@ + digits(n as nat, width as nat),
    decreases width,
{
    if width == 0 {
        assert(old(s)@ + digits(n as nat, 0) =~= old(s)@);
    } else {
        append_digits(s, n / 10, width - 1);
        append_digit(s, n % 10);
        assert(final(s)@ =~= old(s)@ + digits(n as nat, width as nat));
    }
}

fn append_stamp(s: &mut String, dt: &CivilDateTime)
    requires
        dt.valid(),
    ensures
        final(s)@ == old(s)@ + stamp(*dt),
{
    append_digits(s, dt.year as u32, 4);
    append_digits(s, dt.month, 2);
    append_digits(s, dt.day, 2);
    s.append("T");
    proof {
        reveal_strlit("T");
    }
    append_digits(s, dt.hour, 2);
    append_digits(s, dt.minute, 2);
    append_digits(s, dt.second, 2);
    assert(final(s)@ =~= old(s)@ + stamp(*dt));
}

/// The query text that asks a calendar for the events that occur between two
/// wall-clock values.
pub fn time_range_query(from: &CivilDateTime, until: &CivilDateTime) -> (r: String)
    requires
        from.valid(),
        until.valid(),
    ensures
        r@ == range_query(*from, *until),
{
    let mut q = String::new();
    q.append("(occur-in-time-range? (make-time \"");
    append_stamp(&mut q, from);
    q.append("\") (make-time \"");
    append_stamp(&mut q, until);
    q.append("\"))");
    assert(q@ =~= range_query(*from, *until));
    q
}

} // verus!
