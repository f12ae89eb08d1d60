//! Time zone identifiers as the calendar service reports them.

use vstd::prelude::*;

verus! {

/// Index of the first `'/'` in `s`, if any.
pub open spec fn first_slash(s: Seq<char>) -> Option<int>
    decreases s.len(),
{
    if s.len() == 0 {
        None
    } else if s[0] == '/' {
        Some(0)
    } else {
        match first_slash(s.drop_first()) {
            Some(i) => Some(i + 1),
            None => None,
        }
    }
}

/// The zone identifier that a reported identifier stands for.
///
/// Identifiers that look like a path, such as `/vendor.example/Asia/Kolkata`,
/// carry a vendor prefix as their first segment: everything after the second
/// slash is the zone. A path with only one slash keeps what follows it.
pub open spec fn normalized_zone(s: Seq<char>) -> Seq<char> {
    if s.len() > 0 && s[0] == '/' {
        let rest = s.drop_first();
        match first_slash(rest) {
            Some(i) => rest.subrange(i + 1, rest.len() as int),
            None => rest,
        }
    } else {
        s
    }
}

proof fn lemma_first_slash_bounds(s: Seq<char>)
    ensures
        match first_slash(s) {
            Some(i) => 0 <= i < s.len() && s[i] == '/' && forall|k: int| 0 <= k < i ==> s[k] != '/',
            None => forall|k: int| 0 <= k < s.len() ==> s[k] != '/',
        },
    decreases s.len(),
{
    if s.len() > 0 {
        lemma_first_slash_bounds(s.drop_first());
        if s[0] != '/' {
            assert forall|k: int| 1 <= k < s.len() implies s[k] == s.drop_first()[k - 1] by {}
        }
    }
}

/// Strips a vendor prefix from a time zone identifier.
pub fn normalize_timezone(tz: &str) -> (r: &str)
    ensures
        r@ == normalized_zone(tz@),
{
    let n = tz.unicode_len();
    if n == 0 || tz.get_char(0) != '/' {
        return tz;
    }
    let rest = tz.substring_char(1, n);
    assert(rest@ =~= tz@.drop_first());
    let m = n - 1;
    let mut i: usize = 0;
    while i < m
        invariant
            i <= m,
            m == rest@.len(),
            rest@ =~= tz@.drop_first(),
            tz@.len() > 0 && tz@[0] == '/',
            forall|k: int| 0 <= k < i ==> rest@[k] != '/',
        decreases m - i,
    {
        if rest.get_char(i) == '/' {
            proof {
                lemma_first_slash_bounds(rest@);
            }
            return rest.substring_char(i + 1, m);
        }
        i = i + 1;
    }
    proof {
        lemma_first_slash_bounds(rest@);
    }
    rest
}

} // verus!
