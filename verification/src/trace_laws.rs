//! What holds of the range in which a trace is on, and of the names in a trace.

use vstd::prelude::*;

use crate::env::VerifierEnv;
use crate::trace::{
    decimal, ev_hit_id, number, only_colon, parse_trace_range, range_of, trace_pc_in_range, trimmed,
    trimmed_back, trimmed_front,
};

verus! {

/// The value of a row of digits: each counts for its place.
pub open spec fn value(s: Seq<char>) -> int
    decreases s.len(),
{
    if s.len() == 0 {
        0
    } else {
        10 * value(s.subrange(0, s.len() - 1)) + (s[s.len() - 1] as int - 48)
    }
}

/// Whether a text is a row of at least one digit.
pub open spec fn digits(s: Seq<char>) -> bool {
    s.len() > 0 && forall|i: int| 0 <= i < s.len() ==> 48 <= (#[trigger] s[i]) as int <= 57
}

proof fn lemma_value(s: Seq<char>)
    requires
        forall|i: int| 0 <= i < s.len() ==> 48 <= (#[trigger] s[i]) as int <= 57,
    ensures
        decimal(s) == value(s),
        value(s) >= 0,
    decreases s.len(),
{
    if s.len() > 0 {
        assert(s.drop_last() =~= s.subrange(0, s.len() - 1));
        lemma_value(s.drop_last());
    }
}

proof fn lemma_number(s: Seq<char>)
    requires
        digits(s),
    ensures
        trimmed(s) == s,
        value(s) <= usize::MAX ==> number(s) == Some(value(s) as usize),
        value(s) > usize::MAX ==> number(s) is None,
        forall|i: int| 0 <= i < s.len() ==> #[trigger] s[i] != ':',
{
    lemma_value(s);
    assert(48 <= s[0] as int <= 57);
    assert(48 <= s[s.len() - 1] as int <= 57);
    assert(trimmed_front(s) == s);
    assert(trimmed_back(s) == s);
    assert(crate::trace::all_digits(s)) by {
        assert forall|i: int| 0 <= i < s.len() implies crate::trace::digit(#[trigger] s[i]) by {}
    }
    assert forall|i: int| 0 <= i < s.len() implies #[trigger] s[i] != ':' by {}
}

/// Two rows of digits with a colon between them are read as the range from the value of
/// the first to that of the second, as far as machine numbers hold them.
pub proof fn law_ranges_are_read(text: &str, a: Seq<char>, b: Seq<char>, r: Option<(usize, usize)>)
    requires
        call_ensures(parse_trace_range, (text,), r),
        text@ == a + seq![':'] + b,
        digits(a),
        digits(b),
    ensures
        value(a) <= usize::MAX && value(b) <= usize::MAX ==> r == Some(
            (value(a) as usize, value(b) as usize),
        ),
        value(a) > usize::MAX || value(b) > usize::MAX ==> r is None,
{
    let s = text@;
    let c = a.len() as int;
    lemma_number(a);
    lemma_number(b);
    assert(s.take(c) =~= a);
    assert(s.skip(c + 1) =~= b);
    assert(s[c] == ':');
    assert forall|i: int| 0 <= i < s.len() && i != c implies s[i] != ':' by {
        if i < c {
            assert(s[i] == a[i]);
        } else {
            assert(s[i] == b[i - c - 1]);
        }
    }
    assert(only_colon(s, c));
    if value(a) <= usize::MAX && value(b) <= usize::MAX {
        assert(range_of(s, value(a) as usize, value(b) as usize));
        let (lo, hi) = r->0;
        let d = choose|d: int| #[trigger]
            only_colon(s, d) && number(trimmed(s.take(d))) == Some(lo) && number(
                trimmed(s.skip(d + 1)),
            ) == Some(hi);
        assert(s[d] == ':');
        assert(d == c);
    } else if r is Some {
        let (lo, hi) = r->0;
        let d = choose|d: int| #[trigger]
            only_colon(s, d) && number(trimmed(s.take(d))) == Some(lo) && number(
                trimmed(s.skip(d + 1)),
            ) == Some(hi);
        assert(s[d] == ':');
        assert(d == c);
    }
}

/// A text without a colon, or with more than one, is no range.
pub proof fn law_ranges_have_one_colon(text: &str, r: Option<(usize, usize)>, i: int, j: int)
    requires
        call_ensures(parse_trace_range, (text,), r),
        (forall|k: int| 0 <= k < text@.len() ==> #[trigger] text@[k] != ':') || (0 <= i < j
            < text@.len() && text@[i] == ':' && text@[j] == ':'),
    ensures
        r is None,
{
    let s = text@;
    if r is Some {
        let (lo, hi) = r->0;
        let d = choose|d: int| #[trigger]
            only_colon(s, d) && number(trimmed(s.take(d))) == Some(lo) && number(
                trimmed(s.skip(d + 1)),
            ) == Some(hi);
        assert(s[d] == ':');
    }
}

/// A range holds both of its ends and what lies between them, and nothing else; without
/// a range a trace is never on.
pub proof fn law_ranges_hold_their_ends(range: Option<(usize, usize)>, pc: usize, r: bool)
    requires
        call_ensures(trace_pc_in_range, (range, pc), r),
    ensures
        range is None ==> !r,
        range matches Some(b) ==> (r <==> !(pc < b.0) && !(pc > b.1)),
{
}

/// A trace names a candidate by its number and the least value of its first argument
/// register, where it is on and there is such a candidate.
pub proof fn law_traced_candidates_are_named(
    env: VerifierEnv,
    traced: bool,
    pc: usize,
    idx: usize,
    r: Option<(Option<u32>, i64)>,
)
    requires
        call_ensures(ev_hit_id, (&env, traced, pc, idx), r),
    ensures
        r is Some <==> traced && idx < env.cache@.bucket(pc).len(),
        r matches Some(name) ==> name.0 == env.cache@.bucket(pc)[idx as int].cache_id && name.1
            == env.cache@.bucket(pc)[idx as int]@.regs[1].bounds.smin,
{
}

}
