//! Small facts about integers.

use vstd::prelude::*;
use vstd::arithmetic::div_mod::*;

verus! {

/// Whether `off` is a multiple of `step`.
pub open spec fn multiple(off: int, step: int) -> bool {
    off % step == 0
}

/// Signs have no part in divisibility.
proof fn lemma_sign(a: int, b: int)
    requires
        b > 0,
        a % b == 0,
    ensures
        (-a) % b == 0,
{
    lemma_fundamental_div_mod(a, b);
    let q = a / b;
    assert(-a == (-q) * b + 0) by (nonlinear_arith)
        requires
            a == b * q + 0,
    ;
    lemma_fundamental_div_mod_converse(-a, b, -q, 0);
}

/// Whether `off` is a multiple of `step`.
pub fn is_multiple(off: i16, step: i16) -> (r: bool)
    requires
        step != 0,
    ensures
        r == multiple(off as int, step as int),
{
    let a: i32 = if off < 0 {
        -(off as i32)
    } else {
        off as i32
    };
    let b: i32 = if step < 0 {
        -(step as i32)
    } else {
        step as i32
    };
    proof {
        let o = off as int;
        let p = b as int;
        if o % p == 0 {
            lemma_sign(o, p);
        }
        if (-o) % p == 0 {
            lemma_sign(-o, p);
        }
        assert((o % (-p) == 0) == (o % p == 0)) by (nonlinear_arith)
            requires
                p > 0,
        ;
    }
    (a as u32) % (b as u32) == 0
}

/// Whether a size is that of a machine word: a power of two up to eight.
pub open spec fn word_size(size: i64) -> bool {
    size == 1 || size == 2 || size == 4 || size == 8
}

/// Whether a size is that of a machine word.
pub fn is_word_size(size: i64) -> (r: bool)
    ensures
        r == word_size(size),
{
    if size <= 0 || size > 8 {
        return false;
    }
    assert(0 < size <= 8 ==> ((size & (size - 1) as i64) == 0) == (size == 1 || size == 2 || size
        == 4 || size == 8)) by (bit_vector);
    (size & (size - 1)) == 0
}

/// Whether the sum of two offsets is a multiple of eight.
pub fn is_sum_aligned(a: i64, b: i64) -> (r: bool)
    ensures
        r == ((a + b) % 8 == 0),
{
    let s: i128 = a as i128 + b as i128;
    let m: u128 = if s < 0 {
        (-s) as u128
    } else {
        s as u128
    };
    proof {
        let n = s as int;
        if n % 8 == 0 {
            lemma_sign(n, 8);
        }
        if (-n) % 8 == 0 {
            lemma_sign(-n, 8);
        }
    }
    m % 8 == 0
}

}
