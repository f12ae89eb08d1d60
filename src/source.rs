//! Calendar sources as the directory service lists them, and the calendars
//! drawn from them.

use crate::component::copy_text;
use crate::order::{lemma_place_by, placed_by, total_preorder};
use vstd::prelude::*;

verus! {

/// A source listed by the directory service.
#[derive(Clone, Debug)]
pub struct Source {
    pub object_path: String,
    pub uid: String,
    pub display_name: Option<String>,
    pub has_calendar: bool,
}

/// A calendar: a source that has a calendar attached.
#[derive(Clone, Debug)]
pub struct Calendar {
    pub uid: String,
    pub display_name: Option<String>,
}

pub open spec fn calendar_of(s: Source) -> Calendar {
    Calendar { uid: s.uid, display_name: s.display_name }
}

/// The calendars of the sources that have one, in their order.
pub open spec fn calendars_in(s: Seq<Source>) -> Seq<Calendar>
    decreases s.len(),
{
    if s.len() == 0 {
        Seq::empty()
    } else if s.last().has_calendar {
        calendars_in(s.drop_last()).push(calendar_of(s.last()))
    } else {
        calendars_in(s.drop_last())
    }
}

/// Whether the calendar's display name is one of the names.
pub open spec fn listed(c: Calendar, names: Seq<String>) -> bool {
    name_listed(c.display_name, names)
}

pub open spec fn name_listed(name: Option<String>, names: Seq<String>) -> bool {
    match name {
        Some(n) => exists|i: int| 0 <= i < names.len() && names[i]@ == n@,
        None => false,
    }
}

/// The calendars whose name is listed, in their order.
pub open spec fn whitelisted(s: Seq<Calendar>, names: Seq<String>) -> Seq<Calendar>
    decreases s.len(),
{
    if s.len() == 0 {
        Seq::empty()
    } else if listed(s.last(), names) {
        whitelisted(s.drop_last(), names).push(s.last())
    } else {
        whitelisted(s.drop_last(), names)
    }
}

/// The calendars among the sources: those that have a calendar attached.
pub fn calendars_from_sources(sources: &Vec<Source>) -> (r: Vec<Calendar>)
    ensures
        r@ == calendars_in(sources@),
{
    let mut out: Vec<Calendar> = Vec::new();
    let mut i: usize = 0;
    while i < sources.len()
        invariant
            i <= sources@.len(),
            out@ == calendars_in(sources@.take(i as int)),
        decreases sources@.len() - i,
    {
        let s = &sources[i];
        proof {
            assert(sources@.take(i + 1).drop_last() =~= sources@.take(i as int));
        }
        if s.has_calendar {
            out.push(Calendar { uid: s.uid.clone(), display_name: copy_text(&s.display_name) });
        }
        i = i + 1;
    }
    assert(sources@.take(sources@.len() as int) =~= sources@);
    out
}

fn is_listed(name: &Option<String>, names: &Vec<String>) -> (r: bool)
    ensures
        r == name_listed(*name, names@),
{
    match name {
        None => false,
        Some(n) => {
            let mut i: usize = 0;
            while i < names.len()
                invariant
                    i <= names@.len(),
                    *name == Some(*n),
                    forall|k: int| 0 <= k < i ==> names@[k]@ != n@,
                decreases names@.len() - i,
            {
                let same = names[i].eq(n);
                if same {
                    assert(names@[i as int]@ == n@);
                    return true;
                }
                i = i + 1;
            }
            false
        },
    }
}

/// Keeps the calendars whose display name is listed; a calendar without a
/// name is never kept.
pub fn apply_whitelist(calendars: Vec<Calendar>, names: &Vec<String>) -> (r: Vec<Calendar>)
    ensures
        r@ == whitelisted(calendars@, names@),
{
    let ghost orig = calendars@;
    let mut rest = calendars;
    let mut out: Vec<Calendar> = Vec::new();
    let ghost mut i: int = 0;
    while rest.len() > 0
        invariant
            0 <= i <= orig.len(),
            rest@ == orig.subrange(i, orig.len() as int),
            out@ == whitelisted(orig.take(i), names@),
        decreases rest@.len(),
    {
        let c = rest.remove(0);
        proof {
            assert(orig.take(i + 1).drop_last() =~= orig.take(i));
            assert(orig.take(i + 1).last() == c);
        }
        if is_listed(&c.display_name, names) {
            out.push(c);
        }
        proof {
            i = i + 1;
            assert(rest@ =~= orig.subrange(i, orig.len() as int));
        }
    }
    assert(orig.take(i) =~= orig);
    out
}

} // verus!

verus! {

/// Lexicographic order of texts, character by character.
pub open spec fn text_le(a: Seq<char>, b: Seq<char>) -> bool
    decreases a.len(),
{
    if a.len() == 0 {
        true
    } else if b.len() == 0 {
        false
    } else if (a[0] as u32) != (b[0] as u32) {
        (a[0] as u32) < (b[0] as u32)
    } else {
        text_le(a.drop_first(), b.drop_first())
    }
}

/// Order of display names: a missing name comes first.
pub open spec fn name_le(a: Option<String>, b: Option<String>) -> bool {
    match (a, b) {
        (None, _) => true,
        (Some(_), None) => false,
        (Some(x), Some(y)) => text_le(x@, y@),
    }
}

proof fn lemma_text_le_total(a: Seq<char>, b: Seq<char>)
    ensures
        text_le(a, b) || text_le(b, a),
    decreases a.len(),
{
    if a.len() > 0 && b.len() > 0 && (a[0] as u32) == (b[0] as u32) {
        lemma_text_le_total(a.drop_first(), b.drop_first());
    }
}

proof fn lemma_text_le_trans(a: Seq<char>, b: Seq<char>, c: Seq<char>)
    requires
        text_le(a, b),
        text_le(b, c),
    ensures
        text_le(a, c),
    decreases a.len(),
{
    if a.len() > 0 && b.len() > 0 && c.len() > 0 && (a[0] as u32) == (b[0] as u32) && (b[0] as u32)
        == (c[0] as u32) {
        lemma_text_le_trans(a.drop_first(), b.drop_first(), c.drop_first());
    }
}

proof fn lemma_name_le(a: Option<String>, b: Option<String>, c: Option<String>)
    ensures
        name_le(a, b) || name_le(b, a),
        name_le(a, b) && name_le(b, c) ==> name_le(a, c),
{
    if let (Some(x), Some(y)) = (a, b) {
        lemma_text_le_total(x@, y@);
    }
    if let (Some(x), Some(y), Some(z)) = (a, b, c) {
        if text_le(x@, y@) && text_le(y@, z@) {
            lemma_text_le_trans(x@, y@, z@);
        }
    }
}

fn text_less_eq(a: &str, b: &str) -> (r: bool)
    ensures
        r == text_le(a@, b@),
{
    let n = a.unicode_len();
    let m = b.unicode_len();
    let mut i: usize = 0;
    assert(a@.skip(0) =~= a@ && b@.skip(0) =~= b@);
    while i < n && i < m
        invariant
            n == a@.len(),
            m == b@.len(),
            i <= n,
            i <= m,
            text_le(a@, b@) == text_le(a@.skip(i as int), b@.skip(i as int)),
        decreases n - i,
    {
        let x = a.get_char(i);
        let y = b.get_char(i);
        assert(a@.skip(i as int)[0] == x && b@.skip(i as int)[0] == y);
        if (x as u32) != (y as u32) {
            return (x as u32) < (y as u32);
        }
        assert(a@.skip(i as int).drop_first() =~= a@.skip(i + 1));
        assert(b@.skip(i as int).drop_first() =~= b@.skip(i + 1));
        i = i + 1;
    }
    assert(a@.skip(i as int).len() == n - i);
    i == n
}

fn name_less_eq(a: &Option<String>, b: &Option<String>) -> (r: bool)
    ensures
        r == name_le(*a, *b),
{
    match (a, b) {
        (None, _) => true,
        (Some(_), None) => false,
        (Some(x), Some(y)) => text_less_eq(x.as_str(), y.as_str()),
    }
}

/// The order of calendars by display name.
pub open spec fn by_name() -> spec_fn(Calendar, Calendar) -> bool {
    |a: Calendar, b: Calendar| name_le(a.display_name, b.display_name)
}

proof fn lemma_by_name_total()
    ensures
        total_preorder(by_name()),
{
    assert forall|a: Calendar, b: Calendar, c: Calendar|
        #[trigger] by_name()(a, b) && #[trigger] by_name()(b, c) implies by_name()(a, c) by {
        lemma_name_le(a.display_name, b.display_name, c.display_name);
    }
    assert forall|a: Calendar, b: Calendar| #[trigger] by_name()(a, b) || by_name()(b, a) by {
        lemma_name_le(a.display_name, b.display_name, a.display_name);
    }
}

/// Orders calendars by display name, a missing name first, keeping the
/// relative order of equal names.
pub fn sort_calendars(calendars: Vec<Calendar>) -> (r: Vec<Calendar>)
    ensures
        r@.len() == calendars@.len(),
        exists|idx: Seq<int>| placed_by(r@, calendars@, idx, 0, by_name()),
{
    let ghost orig = calendars@;
    let mut rest = calendars;
    let mut out: Vec<Calendar> = Vec::new();
    let ghost mut idx: Seq<int> = Seq::empty();
    while rest.len() > 0
        invariant
            rest@ == orig.take(rest@.len() as int),
            rest@.len() <= orig.len(),
            out@.len() + rest@.len() == orig.len(),
            placed_by(out@, orig, idx, rest@.len() as int, by_name()),
        decreases rest@.len(),
    {
        let ghost m = rest@.len() - 1;
        let c = rest.pop().unwrap();
        assert(rest@ =~= orig.take(m));
        let mut p: usize = 0;
        while p < out.len() && !name_less_eq(&c.display_name, &out[p].display_name)
            invariant
                p <= out@.len(),
                forall|k: int|
                    0 <= k < p ==> !name_le(c.display_name, #[trigger] out@[k].display_name),
            decreases out@.len() - p,
        {
            p = p + 1;
        }
        proof {
            lemma_by_name_total();
            assert forall|k: int| 0 <= k < p implies !by_name()(orig[m], #[trigger] out@[k]) by {
                assert(!name_le(c.display_name, out@[k].display_name));
            }
            lemma_place_by(out@, orig, idx, m, p as int, by_name());
            idx = idx.insert(p as int, m);
        }
        out.insert(p, c);
    }
    out
}

} // verus!
