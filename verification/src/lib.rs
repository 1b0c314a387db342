//! A verified core for an instanced 3D rendering engine.
//!
//! The crate has three layers:
//!
//! * a fixed-dimension matrix/vector kernel over exact `i64` arithmetic
//!   (`math`), with the geometric conventions documented there;
//! * transform builders (view, projection, rotation) on top of the kernel;
//! * an instance-batching engine (`pipelines`) that groups drawable objects
//!   by (mesh shape, texture) and reconciles per-batch GPU buffer capacity.
//!
//! GPU device work, windowing and file I/O are external collaborators: the
//! library only decides what they should do and models their state with
//! plain values.

use vstd::prelude::*;
use vstd::arithmetic::div_mod::{
    lemma_div_pos_is_pos, lemma_div_nonincreasing, lemma_div_is_ordered, lemma_div_basics,
    lemma_div_is_ordered_by_denominator,
};

pub mod cameras;
pub mod math;
pub mod pipelines;
pub mod renderer;

verus! {

/// Truncating division, as Rust's `/` computes it on signed integers.
///
/// Verus's own `/` on `int` is Euclidean division; the executable kernel
/// rounds quotients toward zero, so its contracts are written over this
/// function instead.
pub open spec fn tdiv(x: int, d: int) -> int {
    if x == 0 {
        0
    } else if x > 0 && d > 0 {
        x / d
    } else if x < 0 && d < 0 {
        (x * -1) / (d * -1)
    } else if x < 0 {
        ((x * -1) / d) * -1
    } else {
        (x / (d * -1)) * -1
    }
}

/// The quotient of two representable scalars is representable, except for
/// `i64::MIN / -1`.
pub proof fn lemma_tdiv_in_range(x: int, d: int)
    requires
        i64::MIN <= x <= i64::MAX,
        i64::MIN <= d <= i64::MAX,
        d != 0,
        !(x == i64::MIN && d == -1),
    ensures
        i64::MIN <= tdiv(x, d) <= i64::MAX,
        x >= 0 ==> -x <= tdiv(x, d) <= x,
        x <= 0 ==> x <= tdiv(x, d) <= -x,
{
    if x == 0 {
    } else if x > 0 && d > 0 {
        lemma_div_pos_is_pos(x, d);
        lemma_div_nonincreasing(x, d);
    } else if x < 0 && d < 0 {
        let a = x * -1;
        let b = d * -1;
        lemma_div_pos_is_pos(a, b);
        lemma_div_nonincreasing(a, b);
        if b == 1 {
            lemma_div_basics(a);
        } else {
            lemma_div_is_ordered(a, 0x8000_0000_0000_0000, 2);
            lemma_div_is_ordered_by_denominator(a, 2, b);
        }
    } else if x < 0 {
        let a = x * -1;
        lemma_div_pos_is_pos(a, d);
        lemma_div_nonincreasing(a, d);
    } else {
        let b = d * -1;
        lemma_div_pos_is_pos(x, b);
        lemma_div_nonincreasing(x, b);
    }
}

/// A dividend within `b * d` has quotient within `b`.
pub proof fn lemma_tdiv_shrink(x: int, d: int, b: int)
    requires
        1 <= d,
        0 <= b,
        -(b * d) <= x <= b * d,
    ensures
        -b <= tdiv(x, d) <= b,
{
    vstd::arithmetic::div_mod::lemma_div_by_multiple(b, d);
    if x > 0 {
        lemma_div_pos_is_pos(x, d);
        lemma_div_is_ordered(x, b * d, d);
    } else if x < 0 {
        lemma_div_pos_is_pos(x * -1, d);
        lemma_div_is_ordered(x * -1, b * d, d);
    }
}

/// Dividing an exact multiple recovers the factor.
pub proof fn lemma_tdiv_exact(a: int, d: int)
    requires
        1 <= d,
    ensures
        tdiv(a * d, d) == a,
{
    if a == 0 {
        assert(a * d == 0) by (nonlinear_arith)
            requires
                a == 0,
        ;
    } else if a > 0 {
        vstd::arithmetic::div_mod::lemma_div_by_multiple(a, d);
        assert(a * d > 0) by (nonlinear_arith)
            requires
                a > 0,
                d >= 1,
        ;
        assert((a * d) / d == a);
    } else {
        assert(a * d < 0 && (a * d) * -1 == (-a) * d) by (nonlinear_arith)
            requires
                a < 0,
                d >= 1,
        ;
        vstd::arithmetic::div_mod::lemma_div_by_multiple(-a, d);
        assert(((-a) * d) / d == -a);
    }
}

/// Truncating division brackets the dividend: in magnitudes, the
/// quotient times the divisor does not exceed the dividend, and one more
/// divisor strictly does.
pub proof fn lemma_tdiv_bracket(x: int, m: int)
    requires
        1 <= m,
    ensures
        ({
            let q = tdiv(x, m);
            let u = if q >= 0 {
                q
            } else {
                -q
            };
            let y = if x >= 0 {
                x
            } else {
                -x
            };
            0 <= u && u * m <= y && y < (u + 1) * m
        }),
{
    let y = if x >= 0 {
        x
    } else {
        -x
    };
    vstd::arithmetic::div_mod::lemma_fundamental_div_mod(y, m);
    vstd::arithmetic::div_mod::lemma_mod_bound(y, m);
    lemma_div_pos_is_pos(y, m);
    let w = y / m;
    assert(w * m == m * w) by (nonlinear_arith);
    assert((w + 1) * m == m * w + m) by (nonlinear_arith);
    if x >= 0 {
        assert(tdiv(x, m) == w);
    } else if x < 0 {
        assert(tdiv(x, m) == -w);
    }
}

/// Quotient of `a` by `b`, rounded toward zero.
pub fn div_trunc(a: i64, b: i64) -> (r: i64)
    requires
        b != 0,
        !(a == i64::MIN && b == -1),
    ensures
        r == tdiv(a as int, b as int),
{
    proof {
        lemma_tdiv_in_range(a as int, b as int);
    }
    match a.checked_div(b) {
        Some(q) => q,
        None => {
            proof {
                assert(false);
            }
            0
        },
    }
}

} // verus!
