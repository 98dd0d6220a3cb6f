//! What a trace of the exploration shows, and where it is on.

use vstd::prelude::*;

use crate::ast::Reg;
use crate::env::VerifierEnv;
use crate::machine::State;
use crate::text::chars_of;

verus! {

/// Whether a character is white space.
pub open spec fn white(c: char) -> bool {
    ||| '\u{9}' <= c <= '\u{d}'
    ||| c == ' '
    ||| c == '\u{85}'
    ||| c == '\u{a0}'
    ||| c == '\u{1680}'
    ||| '\u{2000}' <= c <= '\u{200a}'
    ||| c == '\u{2028}'
    ||| c == '\u{2029}'
    ||| c == '\u{202f}'
    ||| c == '\u{205f}'
    ||| c == '\u{3000}'
}

fn is_white(c: char) -> (r: bool)
    ensures
        r == white(c),
{
    ('\u{9}' <= c && c <= '\u{d}') || c == ' ' || c == '\u{85}' || c == '\u{a0}' || c == '\u{1680}'
        || ('\u{2000}' <= c && c <= '\u{200a}') || c == '\u{2028}' || c == '\u{2029}' || c
        == '\u{202f}' || c == '\u{205f}' || c == '\u{3000}'
}

/// A text without white space at its start.
pub open spec fn trimmed_front(s: Seq<char>) -> Seq<char>
    decreases s.len(),
{
    if s.len() > 0 && white(s[0]) {
        trimmed_front(s.skip(1))
    } else {
        s
    }
}

/// A text without white space at its end.
pub open spec fn trimmed_back(s: Seq<char>) -> Seq<char>
    decreases s.len(),
{
    if s.len() > 0 && white(s.last()) {
        trimmed_back(s.drop_last())
    } else {
        s
    }
}

/// A text without white space at its ends.
pub open spec fn trimmed(s: Seq<char>) -> Seq<char> {
    trimmed_back(trimmed_front(s))
}

/// Whether a character is a decimal digit.
pub open spec fn digit(c: char) -> bool {
    '0' <= c <= '9'
}

/// The number that a row of digits stands for.
pub open spec fn decimal(s: Seq<char>) -> nat
    decreases s.len(),
{
    if s.len() == 0 {
        0
    } else {
        (decimal(s.drop_last()) * 10 + (s.last() as u32 - '0' as u32)) as nat
    }
}

/// Whether a text is a row of digits.
pub open spec fn all_digits(s: Seq<char>) -> bool {
    forall|i: int| 0 <= i < s.len() ==> digit(#[trigger] s[i])
}

/// The number that a row of digits stands for, unless it is too large.
pub open spec fn digits_number(s: Seq<char>) -> Option<usize> {
    if s.len() > 0 && all_digits(s) && decimal(s) <= usize::MAX {
        Some(decimal(s) as usize)
    } else {
        None
    }
}

/// The number that a text stands for: a row of digits, with or without a plus
/// sign before it.
pub open spec fn number(s: Seq<char>) -> Option<usize> {
    if s.len() > 0 && s[0] == '+' {
        digits_number(s.skip(1))
    } else {
        digits_number(s)
    }
}

/// The range that a text stands for: two numbers with one colon between them.
pub open spec fn range_of(s: Seq<char>, lo: usize, hi: usize) -> bool {
    exists|c: int| #[trigger]
        only_colon(s, c) && number(trimmed(s.take(c))) == Some(lo) && number(
            trimmed(s.skip(c + 1)),
        ) == Some(hi)
}

/// Whether a text has one colon, at the given place.
pub open spec fn only_colon(s: Seq<char>, c: int) -> bool {
    0 <= c < s.len() && s[c] == ':' && forall|i: int| 0 <= i < s.len() && i != c ==> s[i] != ':'
}

proof fn lemma_decimal_grows(s: Seq<char>, n: int)
    requires
        0 <= n <= s.len(),
        all_digits(s),
    ensures
        decimal(s.take(n)) <= decimal(s),
    decreases s.len() - n,
{
    if n == s.len() {
        assert(s.take(n) =~= s);
    } else {
        assert(s.take(n + 1).drop_last() =~= s.take(n));
        assert(digit(s[n]));
        lemma_decimal_grows(s, n + 1);
    }
}

/// Reads the row of digits at `from..to`.
fn read_digits(s: &Vec<char>, from: usize, to: usize) -> (r: Option<usize>)
    requires
        from <= to <= s@.len(),
    ensures
        r == digits_number(s@.subrange(from as int, to as int)),
{
    let ghost d = s@.subrange(from as int, to as int);
    if from == to {
        return None;
    }
    let mut k: usize = from;
    while k < to
        invariant
            from <= k <= to,
            to <= s@.len(),
            d == s@.subrange(from as int, to as int),
            forall|j: int| 0 <= j < k - from ==> digit(#[trigger] d[j]),
        decreases to - k,
    {
        assert(d[k - from] == s@[k as int]);
        if !('0' <= s[k] && s[k] <= '9') {
            assert(!digit(d[k - from]));
            return None;
        }
        k += 1;
    }
    assert(all_digits(d));
    let mut value: usize = 0;
    let mut i: usize = from;
    assert(d.take(0) =~= Seq::<char>::empty());
    while i < to
        invariant
            from <= i <= to,
            from < to,
            to <= s@.len(),
            d == s@.subrange(from as int, to as int),
            all_digits(d),
            value == decimal(d.take(i - from)),
        decreases to - i,
    {
        assert(d[i - from] == s@[i as int]);
        assert(digit(d[i - from]));
        let v: u32 = s[i] as u32 - '0' as u32;
        proof {
            assert(d.take(i + 1 - from).drop_last() =~= d.take(i - from));
            lemma_decimal_grows(d, i + 1 - from);
        }
        match value.checked_mul(10) {
            Some(m) => match m.checked_add(v as usize) {
                Some(n) => {
                    value = n;
                },
                None => {
                    return None;
                },
            },
            None => {
                return None;
            },
        }
        i += 1;
    }
    assert(d.take(to - from) =~= d);
    Some(value)
}

/// Reads the number at `from..to`.
fn read_number(s: &Vec<char>, from: usize, to: usize) -> (r: Option<usize>)
    requires
        from <= to <= s@.len(),
    ensures
        r == number(s@.subrange(from as int, to as int)),
{
    let ghost t = s@.subrange(from as int, to as int);
    if from < to && s[from] == '+' {
        assert(t[0] == '+');
        assert(s@.subrange(from + 1, to as int) =~= t.skip(1));
        return read_digits(s, from + 1, to);
    }
    proof {
        if t.len() > 0 {
            assert(t[0] == s@[from as int]);
        }
    }
    read_digits(s, from, to)
}

/// Reads the number at `from..to` without the white space at its ends.
fn read_trimmed(s: &Vec<char>, from: usize, to: usize) -> (r: Option<usize>)
    requires
        from <= to <= s@.len(),
    ensures
        r == number(trimmed(s@.subrange(from as int, to as int))),
{
    let ghost t = s@.subrange(from as int, to as int);
    let mut a: usize = from;
    while a < to && is_white(s[a])
        invariant
            from <= a <= to,
            to <= s@.len(),
            trimmed_front(s@.subrange(a as int, to as int)) == trimmed_front(t),
        decreases to - a,
    {
        proof {
            let u = s@.subrange(a as int, to as int);
            assert(u[0] == s@[a as int]);
            assert(u.skip(1) =~= s@.subrange(a + 1, to as int));
        }
        a += 1;
    }
    proof {
        let u = s@.subrange(a as int, to as int);
        if u.len() > 0 {
            assert(u[0] == s@[a as int]);
        }
    }
    let mut b: usize = to;
    while a < b && is_white(s[b - 1])
        invariant
            a <= b <= to,
            to <= s@.len(),
            trimmed_back(s@.subrange(a as int, b as int)) == trimmed(t),
        decreases b,
    {
        proof {
            let u = s@.subrange(a as int, b as int);
            assert(u.last() == s@[b - 1]);
            assert(u.drop_last() =~= s@.subrange(a as int, b - 1));
        }
        b -= 1;
    }
    proof {
        let u = s@.subrange(a as int, b as int);
        if u.len() > 0 {
            assert(u.last() == s@[b - 1]);
        }
    }
    read_number(s, a, b)
}

/// Reads the range in which a trace is on, such as `10:20`.
pub fn parse_trace_range(text: &str) -> (r: Option<(usize, usize)>)
    ensures
        match r {
            Some((lo, hi)) => range_of(text@, lo, hi),
            None => forall|lo: usize, hi: usize| !range_of(text@, lo, hi),
        },
{
    let s = chars_of(text);
    let mut colon: Option<usize> = None;
    let mut i: usize = 0;
    while i < s.len()
        invariant
            i <= s@.len(),
            s@ == text@,
            match colon {
                Some(c) => c < i && s@[c as int] == ':' && forall|j: int|
                    0 <= j < i && j != c ==> s@[j] != ':',
                None => forall|j: int| 0 <= j < i ==> s@[j] != ':',
            },
        decreases s@.len() - i,
    {
        if s[i] == ':' {
            match colon {
                Some(c) => {
                    proof {
                        assert forall|d: int| !only_colon(text@, d) by {
                            assert(text@[c as int] == ':');
                            assert(text@[i as int] == ':');
                        }
                    }
                    return None;
                },
                None => {
                    colon = Some(i);
                },
            }
        }
        i += 1;
    }
    match colon {
        Some(c) => {
            assert(only_colon(text@, c as int));
            assert(s@.subrange(0, c as int) =~= text@.take(c as int));
            assert(s@.subrange(c + 1, s@.len() as int) =~= text@.skip(c + 1));
            assert forall|d: int| only_colon(text@, d) implies d == c by {
                assert(text@[c as int] == ':');
            }
            match (read_trimmed(&s, 0, c), read_trimmed(&s, c + 1, s.len())) {
                (Some(lo), Some(hi)) => Some((lo, hi)),
                _ => None,
            }
        },
        None => {
            assert forall|d: int| !only_colon(text@, d) by {}
            None
        },
    }
}

/// Whether a trace is on at `pc`.
pub fn trace_pc_in_range(range: Option<(usize, usize)>, pc: usize) -> (r: bool)
    ensures
        r == (range matches Some(b) && b.0 <= pc <= b.1),
{
    match range {
        Some((lo, hi)) => lo <= pc && pc <= hi,
        None => false,
    }
}

/// How a trace names a cached state: by its number and the least value of its
/// first argument register.
pub open spec fn trace_name(s: State) -> (Option<u32>, i64) {
    (s.cache_id, s@.regs[1].bounds.smin)
}

/// How a trace names a candidate; nothing where the trace is off.
pub fn ev_hit_id(env: &VerifierEnv, traced: bool, pc: usize, idx: usize) -> (r: Option<
    (Option<u32>, i64),
>)
    ensures
        r == (if traced && idx < env.cache@.bucket(pc).len() {
            Some(trace_name(env.cache@.bucket(pc)[idx as int]))
        } else {
            None
        }),
{
    if !traced {
        return None;
    }
    match env.cache.data().explored.get(&pc) {
        Some(states) => {
            if idx < states.len() {
                Some((states[idx].cache_id, states[idx].reg(Reg::R1).bounds.smin))
            } else {
                None
            }
        },
        None => None,
    }
}

/// How a trace names missed candidates.
pub open spec fn trace_names(bucket: Seq<State>, misses: Seq<usize>) -> Seq<
    (usize, (Option<u32>, i64)),
>
    decreases misses.len(),
{
    if misses.len() == 0 {
        Seq::empty()
    } else {
        let rest = trace_names(bucket, misses.drop_last());
        let i = misses.last();
        if i < bucket.len() {
            rest.push((i, trace_name(bucket[i as int])))
        } else {
            rest
        }
    }
}

/// How a trace names missed candidates; nothing where the trace is off.
pub fn ev_id_map(env: &VerifierEnv, traced: bool, pc: usize, misses: &Vec<usize>) -> (r: Vec<
    (usize, (Option<u32>, i64)),
>)
    ensures
        r@ == (if traced {
            trace_names(env.cache@.bucket(pc), misses@)
        } else {
            Seq::empty()
        }),
{
    let mut out: Vec<(usize, (Option<u32>, i64))> = Vec::new();
    if !traced {
        return out;
    }
    let mut i: usize = 0;
    assert(misses@.take(0) =~= Seq::<usize>::empty());
    while i < misses.len()
        invariant
            i <= misses@.len(),
            out@ == trace_names(env.cache@.bucket(pc), misses@.take(i as int)),
        decreases misses@.len() - i,
    {
        proof {
            assert(misses@.take(i + 1).drop_last() =~= misses@.take(i as int));
        }
        match ev_hit_id(env, true, pc, misses[i]) {
            Some(name) => {
                out.push((misses[i], name));
            },
            None => {},
        }
        i += 1;
    }
    assert(misses@.take(i as int) =~= misses@);
    out
}

}
