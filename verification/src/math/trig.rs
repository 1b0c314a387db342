//! Fixed-point angles and a rational sine approximation.
//!
//! Real quantities are represented as `i64` multiples of `FX_ONE`, so the
//! value `v` stands for the real number `v / 65536`.  Angles are measured
//! in fixed-point radians.  Because the kernel has no floating point, sine
//! and cosine are computed by Bhaskara's rational approximation on
//! `[0, pi]`, extended to all angles by periodicity; the contracts state
//! the integer formula exactly.

use vstd::prelude::*;
use vstd::arithmetic::div_mod::{
    lemma_fundamental_div_mod, lemma_fundamental_div_mod_converse, lemma_mod_bound,
    lemma_mod_multiples_vanish, lemma_div_pos_is_pos, lemma_div_is_ordered, lemma_div_by_multiple,
};
use crate::{tdiv, div_trunc, lemma_tdiv_in_range};

verus! {

/// The fixed-point unit: this value stands for the real number one.
pub const FX_ONE: i64 = 65536;

/// One half, in fixed point.
pub const FX_HALF: i64 = 32768;

/// A quarter turn (pi / 2), in fixed-point radians.
pub const FX_HALF_PI: i64 = 102944;

/// A half turn (pi), in fixed-point radians.
pub const FX_PI: i64 = 2 * FX_HALF_PI;

/// A full turn (2 pi), in fixed-point radians.
pub const FX_TWO_PI: i64 = 4 * FX_HALF_PI;

/// The remainder of `x` by `d` in Euclidean form: always in `[0, d)`.
pub fn mod_euclid(x: i64, d: i64) -> (r: i64)
    requires
        0 < d,
    ensures
        r as int == (x as int) % (d as int),
        0 <= r < d,
{
    let q = div_trunc(x, d);
    let ghost xi = x as int;
    let ghost di = d as int;
    proof {
        lemma_tdiv_in_range(xi, di);
        if xi >= 0 {
            lemma_fundamental_div_mod(xi, di);
            lemma_mod_bound(xi, di);
            assert(q == xi / di);
            assert((q as int) * di == di * (xi / di)) by (nonlinear_arith)
                requires
                    q as int == xi / di,
            ;
            assert(xi - (q as int) * di == xi % di);
        } else {
            let a = -xi;
            lemma_fundamental_div_mod(a, di);
            lemma_mod_bound(a, di);
            assert(q as int == -(a / di));
            assert((q as int) * di == -(di * (a / di))) by (nonlinear_arith)
                requires
                    q as int == -(a / di),
            ;
            assert(xi - (q as int) * di == -(a % di));
        }
        assert(-di < xi - (q as int) * di < di);
    }
    let y0 = x - q * d;
    if y0 < 0 {
        let y = y0 + d;
        proof {
            assert(((q - 1) as int) * di == (q as int) * di - di) by (nonlinear_arith);
            assert(xi == ((q - 1) as int) * di + (y as int));
            lemma_fundamental_div_mod_converse(xi, di, (q - 1) as int, y as int);
        }
        y
    } else {
        proof {
            lemma_fundamental_div_mod_converse(xi, di, q as int, y0 as int);
        }
        y0
    }
}

/// Bhaskara's rational sine approximation for an angle in `[0, pi]`,
/// scaled to fixed point.
pub open spec fn bhaskara(y: int) -> int {
    tdiv(16 * y * (FX_PI - y) * FX_ONE, 5 * (FX_PI as int) * (FX_PI as int) - 4 * y * (FX_PI - y))
}

/// The fixed-point sine: the angle is reduced to one period, and the
/// approximation on `[0, pi]` is negated on `(pi, 2 pi)`.
pub open spec fn sin_fx_spec(x: int) -> int {
    let y = x % (FX_TWO_PI as int);
    if y <= FX_PI {
        bhaskara(y)
    } else {
        -bhaskara(y - FX_PI)
    }
}

/// The fixed-point cosine: the sine, a quarter turn ahead.
pub open spec fn cos_fx_spec(x: int) -> int {
    sin_fx_spec(x + FX_HALF_PI)
}

/// Bhaskara's approximation on `[0, pi]`.  The result stays within one
/// fixed-point unit of magnitude.
fn bhaskara_exec(y: i64) -> (r: i64)
    requires
        0 <= y <= FX_PI,
    ensures
        r as int == bhaskara(y as int),
        0 <= r <= FX_ONE,
{
    proof {
        let yi = y as int;
        assert(0 <= yi * (205888 - yi) && 4 * (yi * (205888 - yi)) <= 42389868544int)
            by (nonlinear_arith)
            requires
                0 <= yi <= 205888int,
        ;
        assert(FX_PI == 205888int);
        assert((FX_PI as int) * (FX_PI as int) == 42389868544int) by (nonlinear_arith);
    }
    let t = y * (FX_PI - y);
    let num = 16 * t * FX_ONE;
    let den = 5 * FX_PI * FX_PI - 4 * t;
    proof {
        let n = num as int;
        let d = den as int;
        assert(d > 0);
        assert(n >= 0);
        assert(tdiv(n, d) == n / d);
        lemma_div_pos_is_pos(n, d);
        assert(n <= (FX_ONE as int) * d) by (nonlinear_arith)
            requires
                n == 16 * (t as int) * 65536,
                d == 5 * 42389868544int - 4 * (t as int),
                4 * (t as int) <= 42389868544int,
                t >= 0,
        ;
        lemma_div_is_ordered(n, (FX_ONE as int) * d, d);
        lemma_div_by_multiple(FX_ONE as int, d);
        let yi = y as int;
        assert(16 * (yi * (205888 - yi)) * 65536 == 16 * yi * (205888int - yi) * 65536
            && 4 * (yi * (205888 - yi)) == 4 * yi * (205888int - yi)) by (nonlinear_arith);
    }
    div_trunc(num, den)
}

/// The fixed-point sine.  Its magnitude never exceeds one fixed-point
/// unit.
pub fn sin_fx(x: i64) -> (r: i64)
    ensures
        r as int == sin_fx_spec(x as int),
        -FX_ONE <= r <= FX_ONE,
{
    let y = mod_euclid(x, FX_TWO_PI);
    if y <= FX_PI {
        bhaskara_exec(y)
    } else {
        -bhaskara_exec(y - FX_PI)
    }
}

/// The fixed-point cosine.  Its magnitude never exceeds one fixed-point
/// unit.
pub fn cos_fx(x: i64) -> (r: i64)
    ensures
        r as int == cos_fx_spec(x as int),
        -FX_ONE <= r <= FX_ONE,
{
    let y = mod_euclid(x, FX_TWO_PI);
    proof {
        let xi = x as int;
        let m = FX_TWO_PI as int;
        lemma_fundamental_div_mod(xi, m);
        lemma_mod_multiples_vanish(xi / m, xi % m + FX_HALF_PI, m);
        assert(m * (xi / m) + (xi % m + FX_HALF_PI) == xi + FX_HALF_PI);
    }
    sin_fx(y + FX_HALF_PI)
}

/// At angle zero the sine is exactly zero and the cosine exactly one:
/// the approximation is exact there.
pub proof fn lemma_trig_zero()
    ensures
        sin_fx_spec(0) == 0,
        cos_fx_spec(0) == FX_ONE,
{
    vstd::arithmetic::div_mod::lemma_small_mod(0nat, FX_TWO_PI as nat);
    assert(0int % (FX_TWO_PI as int) == 0);
    assert(bhaskara(0) == 0);
    vstd::arithmetic::div_mod::lemma_small_mod(FX_HALF_PI as nat, FX_TWO_PI as nat);
    assert((FX_HALF_PI as int) % (FX_TWO_PI as int) == FX_HALF_PI);
    assert(cos_fx_spec(0) == sin_fx_spec(0 + FX_HALF_PI));
    let h = FX_HALF_PI as int;
    let num = 16 * h * (FX_PI - h) * (FX_ONE as int);
    let den = 5 * (FX_PI as int) * (FX_PI as int) - 4 * h * (FX_PI - h);
    assert(num == 65536 * den) by (nonlinear_arith)
        requires
            num == 16 * 102944int * (205888int - 102944int) * 65536int,
            den == 5 * 205888int * 205888int - 4 * 102944int * (205888int - 102944int),
    ;
    crate::lemma_tdiv_exact(65536, den);
    assert(den >= 1) by (nonlinear_arith)
        requires
            den == 5 * 205888int * 205888int - 4 * 102944int * (205888int - 102944int),
    ;
    assert(bhaskara(h) == tdiv(num, den));
    assert(tdiv(65536 * den, den) == 65536);
    assert(num == 65536 * den);
    assert(bhaskara(h) == FX_ONE);
}

} // verus!
