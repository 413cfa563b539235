//! Division rounded to the nearest integer, on exact integers.

use vstd::prelude::*;
use vstd::arithmetic::div_mod::{
    lemma_div_is_ordered, lemma_fundamental_div_mod, lemma_fundamental_div_mod_converse,
    lemma_mod_pos_bound,
};

verus! {

/// `a / b` rounded to the nearest integer; an exact half goes up.
/// Meant for `a >= 0` and `b > 0`.
pub open spec fn round_div(a: int, b: int) -> int {
    (2 * a + b) / (2 * b)
}

/// The `i`-th boundary when `span` pixels are divided evenly among `count`
/// LEDs: `i * span / count`, rounded to the nearest pixel.
pub open spec fn segment_edge(span: int, count: int, i: int) -> int {
    round_div(i * span, count)
}

/// The smaller of two integers.
pub open spec fn lesser(a: int, b: int) -> int {
    if a <= b {
        a
    } else {
        b
    }
}

/// Rounding to nearest is the truncated quotient, plus one where the remainder
/// is at least half the divisor.
pub proof fn lemma_round_div_split(a: int, b: int)
    requires
        a >= 0,
        b > 0,
    ensures
        round_div(a, b) == a / b + if 2 * (a % b) >= b { 1int } else { 0int },
{
    let q = a / b;
    let r = a % b;
    lemma_fundamental_div_mod(a, b);
    lemma_mod_pos_bound(a, b);
    if 2 * r >= b {
        assert(2 * a + b == (q + 1) * (2 * b) + (2 * r - b)) by (nonlinear_arith)
            requires
                a == b * q + r,
        ;
        lemma_fundamental_div_mod_converse(2 * a + b, 2 * b, q + 1, 2 * r - b);
    } else {
        assert(2 * a + b == q * (2 * b) + (2 * r + b)) by (nonlinear_arith)
            requires
                a == b * q + r,
        ;
        lemma_fundamental_div_mod_converse(2 * a + b, 2 * b, q, 2 * r + b);
    }
}

/// Rounded division never decreases when the dividend grows.
pub proof fn lemma_round_div_monotone(a1: int, a2: int, b: int)
    requires
        a1 <= a2,
        b > 0,
    ensures
        round_div(a1, b) <= round_div(a2, b),
{
    lemma_div_is_ordered(2 * a1 + b, 2 * a2 + b, 2 * b);
}

/// An exact multiple divides back without rounding error.
pub proof fn lemma_round_div_exact(c: int, b: int)
    requires
        b > 0,
    ensures
        round_div(c * b, b) == c,
{
    assert(2 * (c * b) + b == c * (2 * b) + b) by (nonlinear_arith);
    lemma_fundamental_div_mod_converse(2 * (c * b) + b, 2 * b, c, b);
}

/// A dividend between `0` and `c * b` rounds to a quotient between `0` and `c`.
pub proof fn lemma_round_div_bounds(a: int, b: int, c: int)
    requires
        0 <= a <= c * b,
        b > 0,
    ensures
        0 <= round_div(a, b) <= c,
{
    lemma_round_div_exact(0, b);
    lemma_round_div_exact(c, b);
    assert(0 * b == 0);
    lemma_round_div_monotone(0, a, b);
    lemma_round_div_monotone(a, c * b, b);
}

/// The boundaries of an even subdivision run from `0` to `span` and never go
/// backwards.
pub proof fn lemma_segment_edges_ordered(span: int, count: int, i: int, j: int)
    requires
        span >= 0,
        count > 0,
        0 <= i <= j <= count,
    ensures
        0 <= segment_edge(span, count, i) <= segment_edge(span, count, j) <= span,
        segment_edge(span, count, 0) == 0,
        segment_edge(span, count, count) == span,
{
    assert(0 <= i * span <= j * span <= count * span) by (nonlinear_arith)
        requires
            span >= 0,
            0 <= i <= j <= count,
    ;
    assert(count * span == span * count) by (nonlinear_arith);
    assert(0 * span == 0);
    lemma_round_div_exact(0, count);
    lemma_round_div_exact(span, count);
    assert(0 * count == 0);
    lemma_round_div_monotone(0, i * span, count);
    lemma_round_div_monotone(i * span, j * span, count);
    lemma_round_div_monotone(j * span, span * count, count);
}

/// The product of two machine words fits in 128 bits, with room to spare.
pub proof fn lemma_word_product(a: int, b: int)
    requires
        0 <= a <= usize::MAX,
        0 <= b <= usize::MAX,
    ensures
        0 <= a * b <= 0xFFFF_FFFF_FFFF_FFFE_0000_0000_0000_0001,
{
    assert(0 <= a * b <= 0xFFFF_FFFF_FFFF_FFFF * 0xFFFF_FFFF_FFFF_FFFF) by (nonlinear_arith)
        requires
            0 <= a <= 0xFFFF_FFFF_FFFF_FFFF,
            0 <= b <= 0xFFFF_FFFF_FFFF_FFFF,
    ;
}

/// Computes `a / b` rounded to the nearest integer, halves up.
pub fn round_div_u128(a: u128, b: u128) -> (r: u128)
    requires
        b > 0,
    ensures
        r == round_div(a as int, b as int),
{
    let q: u128 = a / b;
    let rem: u128 = a % b;
    proof {
        lemma_round_div_split(a as int, b as int);
        lemma_fundamental_div_mod(a as int, b as int);
        assert(q < a || rem == 0) by (nonlinear_arith)
            requires
                a == b * q + rem,
                b >= 1,
        ;
    }
    if rem >= b - rem {
        q + 1
    } else {
        q
    }
}

/// Computes the `i`-th boundary of `span` pixels divided among `count` LEDs.
pub fn segment_edge_px(span: usize, count: usize, i: usize) -> (r: usize)
    requires
        count > 0,
        i <= count,
    ensures
        r == segment_edge(span as int, count as int, i as int),
        r <= span,
{
    proof {
        lemma_word_product(i as int, span as int);
        lemma_segment_edges_ordered(span as int, count as int, i as int, count as int);
    }
    let e: u128 = round_div_u128((i as u128) * (span as u128), count as u128);
    e as usize
}

} // verus!
