//! Geometric operations on column vectors.
//!
//! A vector is the `N` x `1` specialization of `Matrix`.  The dot product
//! and the cross product are exact; `normalized` scales each element by
//! the fixed-point unit and divides by the floor of the Euclidean norm,
//! rounding toward zero, so a nonzero result has roughly unit length in
//! fixed point; a zero vector is returned unchanged.

use vstd::prelude::*;
use super::matrices::{Matrix, lemma_scaled_sum_bound};
use super::trig::FX_ONE;
use crate::tdiv;

verus! {

/// True when `s` is the floor of the square root of `x`.
pub open spec fn is_sqrt_floor(x: int, s: int) -> bool {
    0 <= s && s * s <= x && x < (s + 1) * (s + 1)
}

/// The floor of the square root of a nonnegative integer.
pub open spec fn sqrt_floor(x: int) -> int {
    choose|s: int| is_sqrt_floor(x, s)
}

/// Every nonnegative integer has a floor square root, so `sqrt_floor`
/// satisfies its defining property.
pub proof fn lemma_sqrt_floor_exists(x: int)
    requires
        x >= 0,
    ensures
        is_sqrt_floor(x, sqrt_floor(x)),
    decreases x,
{
    if x == 0 {
        assert(is_sqrt_floor(0, 0)) by (nonlinear_arith);
    } else {
        lemma_sqrt_floor_exists(x - 1);
        let s0 = sqrt_floor(x - 1);
        if (s0 + 1) * (s0 + 1) <= x {
            assert(is_sqrt_floor(x, s0 + 1)) by (nonlinear_arith)
                requires
                    is_sqrt_floor(x - 1, s0),
                    (s0 + 1) * (s0 + 1) <= x,
            ;
        } else {
            assert(is_sqrt_floor(x, s0));
        }
    }
}

/// Any integer with the floor-square-root properties for `x` is
/// `sqrt_floor(x)`.
pub proof fn lemma_sqrt_floor(x: int, s: int)
    requires
        0 <= s,
        s * s <= x,
        x < (s + 1) * (s + 1),
    ensures
        sqrt_floor(x) == s,
{
    assert(is_sqrt_floor(x, s));
    let t = sqrt_floor(x);
    assert(is_sqrt_floor(x, t));
    assert(0 <= t && t * t <= x && x < (t + 1) * (t + 1));
    assert(t == s) by (nonlinear_arith)
        requires
            0 <= s,
            s * s <= x,
            x < (s + 1) * (s + 1),
            0 <= t,
            t * t <= x,
            x < (t + 1) * (t + 1),
    ;
}

/// The floor of the square root, by bisection.
pub fn isqrt(x: i64) -> (r: i64)
    requires
        x >= 0,
    ensures
        r >= 0,
        r * r <= x,
        x < (r + 1) * (r + 1),
        r as int == sqrt_floor(x as int),
{
    let mut lo: i64 = 0;
    let mut hi: i64 = 3_037_000_500;
    proof {
        assert((3_037_000_500int) * 3_037_000_500 > i64::MAX) by (nonlinear_arith);
    }
    while hi - lo > 1
        invariant
            0 <= lo < hi <= 3_037_000_500,
            lo * lo <= x,
            (hi as int) * (hi as int) > x,
            x >= 0,
        decreases hi - lo,
    {
        let mid = lo + (hi - lo) / 2;
        proof {
            assert(lo < mid < hi);
            assert(mid * mid <= 3_037_000_499int * 3_037_000_499) by (nonlinear_arith)
                requires
                    0 <= mid <= 3_037_000_499int,
            ;
            assert(3_037_000_499int * 3_037_000_499 < i64::MAX) by (nonlinear_arith);
        }
        if mid * mid <= x {
            lo = mid;
        } else {
            hi = mid;
        }
    }
    proof {
        lemma_sqrt_floor(x as int, lo as int);
    }
    lo
}

impl<const N: usize> Matrix<N, 1> {
    /// The first `terms` terms of the inner product of two vectors.
    pub open spec fn dot_partial(self, other: Matrix<N, 1>, terms: int) -> int
        decreases terms,
    {
        if terms <= 0 {
            0
        } else {
            self.dot_partial(other, terms - 1) + self.ent(terms - 1, 0) * other.ent(terms - 1, 0)
        }
    }

    /// The full inner product of two vectors.
    pub open spec fn dot_spec(self, other: Matrix<N, 1>) -> int {
        self.dot_partial(other, N as int)
    }

    /// True when every elementwise product is small enough that no partial
    /// sum of `N` of them can overflow.
    pub open spec fn dot_ok(self, other: Matrix<N, 1>) -> bool {
        forall|i: int|
            #![trigger self.ent(i, 0), other.ent(i, 0)]
            0 <= i < N ==> -((i64::MAX as int) / (N as int)) <= self.ent(i, 0) * other.ent(i, 0)
                <= (i64::MAX as int) / (N as int)
    }

    /// True when every element is zero.
    pub open spec fn is_zero(self) -> bool {
        forall|i: int| 0 <= i < N ==> #[trigger] self.ent(i, 0) == 0
    }

    /// The inner product: `sum over i of self[i] * other[i]`.
    pub fn dot(&self, other: &Self) -> (r: i64)
        requires
            self.wf(),
            other.wf(),
            self.dot_ok(*other),
        ensures
            r as int == self.dot_spec(*other),
    {
        let ghost q = (i64::MAX as int) / (N as int);
        let mut acc: i64 = 0;
        let mut i: usize = 0;
        while i < N
            invariant
                i <= N,
                self.wf(),
                other.wf(),
                self.dot_ok(*other),
                q == (i64::MAX as int) / (N as int),
                acc as int == self.dot_partial(*other, i as int),
                -((i as int) * q) <= acc as int <= (i as int) * q,
            decreases N - i,
        {
            proof {
                lemma_scaled_sum_bound(i as int, N as int, i64::MAX as int);
                lemma_scaled_sum_bound(i + 1, N as int, i64::MAX as int);
                assert((i + 1) * q == (i as int) * q + q) by (nonlinear_arith);
            }
            let p = self.get(i, 0) * other.get(i, 0);
            acc = acc + p;
            i += 1;
        }
        acc
    }

    /// A vector's inner product with itself is a sum of squares, so it is
    /// nonnegative.
    pub proof fn lemma_self_dot_nonneg(self, terms: int)
        ensures
            self.dot_partial(self, terms) >= 0,
        decreases terms,
    {
        if terms > 0 {
            self.lemma_self_dot_nonneg(terms - 1);
            let e = self.ent(terms - 1, 0);
            assert(e * e >= 0) by (nonlinear_arith);
        }
    }

    /// A sum of squares is zero exactly when every squared element is zero.
    pub proof fn lemma_self_dot_zero_iff(self, terms: int)
        ensures
            self.dot_partial(self, terms) == 0 <==> (forall|i: int|
                0 <= i < terms ==> #[trigger] self.ent(i, 0) == 0),
        decreases terms,
    {
        if terms > 0 {
            self.lemma_self_dot_zero_iff(terms - 1);
            self.lemma_self_dot_nonneg(terms - 1);
            let e = self.ent(terms - 1, 0);
            assert(e * e >= 0 && (e * e == 0 <==> e == 0)) by (nonlinear_arith);
        }
    }

    /// No squared element exceeds the vector's inner product with itself.
    pub proof fn lemma_self_dot_term_bound(self, i: int, terms: int)
        requires
            0 <= i < terms,
        ensures
            self.dot_partial(self, terms) >= self.ent(i, 0) * self.ent(i, 0),
        decreases terms,
    {
        if i < terms - 1 {
            self.lemma_self_dot_term_bound(i, terms - 1);
            let e = self.ent(terms - 1, 0);
            assert(e * e >= 0) by (nonlinear_arith);
        } else {
            self.lemma_self_dot_nonneg(terms - 1);
        }
    }

    /// Fixed-point Euclidean normalization: each element is scaled by the
    /// fixed-point unit and divided by the floor of the vector's length,
    /// rounding toward zero, so a nonzero result represents a direction of
    /// about unit length.  A zero vector has no direction and is returned
    /// unchanged; this is a defined fallback, not an error.
    pub fn normalized(&self) -> (r: Self)
        requires
            self.wf(),
            self.dot_ok(*self),
        ensures
            r.wf(),
            self.is_zero() ==> r@ == self@,
            !self.is_zero() ==> forall|i: int|
                0 <= i < N ==> #[trigger] r.ent(i, 0) == tdiv(
                    self.ent(i, 0) * (FX_ONE as int),
                    sqrt_floor(self.dot_spec(*self)),
                ),
            forall|i: int|
                0 <= i < N ==> -(FX_ONE as int) <= #[trigger] r.ent(i, 0) <= FX_ONE as int,
    {
        let d = self.dot(self);
        proof {
            self.lemma_self_dot_nonneg(N as int);
            self.lemma_self_dot_zero_iff(N as int);
        }
        if d == 0 {
            let r = self.clone();
            proof {
                assert forall|i: int| 0 <= i < N implies -(FX_ONE as int) <= #[trigger] r.ent(i, 0)
                    <= FX_ONE as int by {
                    assert(r.ent(i, 0) == self.ent(i, 0));
                }
            }
            r
        } else {
            let s = isqrt(d);
            proof {
                assert(s >= 1) by {
                    if s == 0 {
                        assert((0int + 1) * (0int + 1) == 1);
                    }
                }
            }
            let mut out = Self::zeros();
            let mut i: usize = 0;
            while i < N
                invariant
                    i <= N,
                    out.wf(),
                    self.wf(),
                    s >= 1,
                    s as int == sqrt_floor(self.dot_spec(*self)),
                    (s as int) * (s as int) <= self.dot_spec(*self),
                    self.dot_spec(*self) <= i64::MAX as int,
                    self.dot_spec(*self) < (s as int + 1) * (s as int + 1),
                    forall|k: int|
                        0 <= k < i ==> #[trigger] out.ent(k, 0) == tdiv(
                            self.ent(k, 0) * (FX_ONE as int),
                            s as int,
                        ),
                    forall|k: int|
                        0 <= k < i ==> -(FX_ONE as int) <= #[trigger] out.ent(k, 0)
                            <= FX_ONE as int,
                decreases N - i,
            {
                proof {
                    self.lemma_self_dot_term_bound(i as int, N as int);
                    let e = self.ent(i as int, 0);
                    assert(-(s as int) <= e <= s as int) by (nonlinear_arith)
                        requires
                            0 <= s as int,
                            e * e <= self.dot_spec(*self),
                            self.dot_spec(*self) < (s as int + 1) * (s as int + 1),
                    ;
                    assert(-((s as int) * 65536) <= e * 65536 <= (s as int) * 65536)
                        by (nonlinear_arith)
                        requires
                            -(s as int) <= e <= s as int,
                            s >= 1,
                    ;
                    assert(s as int <= 3_037_000_499int) by (nonlinear_arith)
                        requires
                            0 <= s as int,
                            (s as int) * (s as int) <= i64::MAX as int,
                    ;
                    crate::lemma_tdiv_shrink(e * 65536, s as int, 65536int);
                }
                let v = crate::div_trunc(self.get(i, 0) * FX_ONE, s);
                out.set(i, 0, v);
                i += 1;
            }
            out
        }
    }
}

/// The standard right-hand-rule cross product is orthogonal to both of its
/// factors: `dot(cross(a, b), a) == 0` and `dot(cross(a, b), b) == 0`.
pub proof fn lemma_cross_orthogonal(a: Matrix<3, 1>, b: Matrix<3, 1>, c: Matrix<3, 1>)
    requires
        c.ent(0, 0) == a.ent(1, 0) * b.ent(2, 0) - a.ent(2, 0) * b.ent(1, 0),
        c.ent(1, 0) == a.ent(2, 0) * b.ent(0, 0) - a.ent(0, 0) * b.ent(2, 0),
        c.ent(2, 0) == a.ent(0, 0) * b.ent(1, 0) - a.ent(1, 0) * b.ent(0, 0),
    ensures
        c.dot_spec(a) == 0,
        c.dot_spec(b) == 0,
{
    let ax = a.ent(0, 0);
    let ay = a.ent(1, 0);
    let az = a.ent(2, 0);
    let bx = b.ent(0, 0);
    let by = b.ent(1, 0);
    let bz = b.ent(2, 0);
    assert(c.dot_partial(a, 0) == 0);
    assert(c.dot_partial(a, 1) == c.dot_partial(a, 0) + c.ent(0, 0) * a.ent(0, 0));
    assert(c.dot_partial(a, 2) == c.dot_partial(a, 1) + c.ent(1, 0) * a.ent(1, 0));
    assert(c.dot_partial(a, 3) == c.dot_partial(a, 2) + c.ent(2, 0) * a.ent(2, 0));
    assert(c.dot_partial(a, 3) == (ay * bz - az * by) * ax + (az * bx - ax * bz) * ay + (ax * by
        - ay * bx) * az);
    assert((ay * bz - az * by) * ax + (az * bx - ax * bz) * ay + (ax * by - ay * bx) * az == 0)
        by (nonlinear_arith);
    assert(c.dot_partial(b, 0) == 0);
    assert(c.dot_partial(b, 1) == c.dot_partial(b, 0) + c.ent(0, 0) * b.ent(0, 0));
    assert(c.dot_partial(b, 2) == c.dot_partial(b, 1) + c.ent(1, 0) * b.ent(1, 0));
    assert(c.dot_partial(b, 3) == c.dot_partial(b, 2) + c.ent(2, 0) * b.ent(2, 0));
    assert(c.dot_partial(b, 3) == (ay * bz - az * by) * bx + (az * bx - ax * bz) * by + (ax * by
        - ay * bx) * bz);
    assert((ay * bz - az * by) * bx + (az * bx - ax * bz) * by + (ax * by - ay * bx) * bz == 0)
        by (nonlinear_arith);
}

/// Access to the single component of a one-dimensional vector.
pub trait Vector1D: Sized {
    /// The well-formedness the accessors rely on.
    spec fn vwf(&self) -> bool;

    /// The first component.
    spec fn vx(&self) -> int;

    fn x(&self) -> (r: i64)
        requires
            self.vwf(),
        ensures
            r as int == self.vx(),
    ;

    fn set_x(&mut self, v: i64)
        requires
            old(self).vwf(),
        ensures
            final(self).vwf(),
            final(self).vx() == v as int,
    ;
}

/// Access to the components of a two-dimensional vector.
pub trait Vector2D: Sized {
    /// The well-formedness the accessors rely on.
    spec fn vwf(&self) -> bool;

    /// The first component.
    spec fn vx(&self) -> int;

    /// The second component.
    spec fn vy(&self) -> int;

    fn x(&self) -> (r: i64)
        requires
            self.vwf(),
        ensures
            r as int == self.vx(),
    ;

    fn y(&self) -> (r: i64)
        requires
            self.vwf(),
        ensures
            r as int == self.vy(),
    ;

    fn set_x(&mut self, v: i64)
        requires
            old(self).vwf(),
        ensures
            final(self).vwf(),
            final(self).vx() == v as int,
            final(self).vy() == old(self).vy(),
    ;

    fn set_y(&mut self, v: i64)
        requires
            old(self).vwf(),
        ensures
            final(self).vwf(),
            final(self).vy() == v as int,
            final(self).vx() == old(self).vx(),
    ;
}

/// Access to the components of a three-dimensional vector, and its cross
/// product.
pub trait Vector3D: Sized {
    /// The well-formedness the accessors rely on.
    spec fn vwf(&self) -> bool;

    /// The first component.
    spec fn vx(&self) -> int;

    /// The second component.
    spec fn vy(&self) -> int;

    /// The third component.
    spec fn vz(&self) -> int;

    /// When the cross product of the two vectors is representable.
    spec fn cross_allowed(&self, other: &Self) -> bool;

    fn x(&self) -> (r: i64)
        requires
            self.vwf(),
        ensures
            r as int == self.vx(),
    ;

    fn y(&self) -> (r: i64)
        requires
            self.vwf(),
        ensures
            r as int == self.vy(),
    ;

    fn z(&self) -> (r: i64)
        requires
            self.vwf(),
        ensures
            r as int == self.vz(),
    ;

    fn set_x(&mut self, v: i64)
        requires
            old(self).vwf(),
        ensures
            final(self).vwf(),
            final(self).vx() == v as int,
            final(self).vy() == old(self).vy(),
            final(self).vz() == old(self).vz(),
    ;

    fn set_y(&mut self, v: i64)
        requires
            old(self).vwf(),
        ensures
            final(self).vwf(),
            final(self).vy() == v as int,
            final(self).vx() == old(self).vx(),
            final(self).vz() == old(self).vz(),
    ;

    fn set_z(&mut self, v: i64)
        requires
            old(self).vwf(),
        ensures
            final(self).vwf(),
            final(self).vz() == v as int,
            final(self).vx() == old(self).vx(),
            final(self).vy() == old(self).vy(),
    ;

    /// The right-hand-rule cross product:
    /// `(a x b).x == a.y * b.z - a.z * b.y`, and so on cyclically.
    fn cross(&self, other: &Self) -> (r: Self)
        requires
            self.vwf(),
            other.vwf(),
            self.cross_allowed(other),
        ensures
            r.vwf(),
            r.vx() == self.vy() * other.vz() - self.vz() * other.vy(),
            r.vy() == self.vz() * other.vx() - self.vx() * other.vz(),
            r.vz() == self.vx() * other.vy() - self.vy() * other.vx(),
    ;
}

/// A type with a cross product.
pub trait Crossable: Sized {
    /// The well-formedness the product relies on.
    spec fn cwf(&self) -> bool;

    /// When the cross product of the two values is representable.
    spec fn cross_ok_with(&self, other: &Self) -> bool;

    /// The components the product is computed from.
    spec fn cx(&self) -> int;

    /// The second component.
    spec fn cy(&self) -> int;

    /// The third component.
    spec fn cz(&self) -> int;

    fn cross(&self, other: &Self) -> (r: Self)
        requires
            self.cwf(),
            other.cwf(),
            self.cross_ok_with(other),
        ensures
            r.cwf(),
            r.cx() == self.cy() * other.cz() - self.cz() * other.cy(),
            r.cy() == self.cz() * other.cx() - self.cx() * other.cz(),
            r.cz() == self.cx() * other.cy() - self.cy() * other.cx(),
    ;
}

/// Access to the components of a four-dimensional vector.
pub trait Vector4D: Sized {
    /// The well-formedness the accessors rely on.
    spec fn vwf(&self) -> bool;

    /// The first component.
    spec fn vx(&self) -> int;

    /// The second component.
    spec fn vy(&self) -> int;

    /// The third component.
    spec fn vz(&self) -> int;

    /// The fourth component.
    spec fn vw(&self) -> int;

    fn x(&self) -> (r: i64)
        requires
            self.vwf(),
        ensures
            r as int == self.vx(),
    ;

    fn y(&self) -> (r: i64)
        requires
            self.vwf(),
        ensures
            r as int == self.vy(),
    ;

    fn z(&self) -> (r: i64)
        requires
            self.vwf(),
        ensures
            r as int == self.vz(),
    ;

    fn w(&self) -> (r: i64)
        requires
            self.vwf(),
        ensures
            r as int == self.vw(),
    ;

    fn set_x(&mut self, v: i64)
        requires
            old(self).vwf(),
        ensures
            final(self).vwf(),
            final(self).vx() == v as int,
            final(self).vy() == old(self).vy(),
            final(self).vz() == old(self).vz(),
            final(self).vw() == old(self).vw(),
    ;

    fn set_y(&mut self, v: i64)
        requires
            old(self).vwf(),
        ensures
            final(self).vwf(),
            final(self).vy() == v as int,
            final(self).vx() == old(self).vx(),
            final(self).vz() == old(self).vz(),
            final(self).vw() == old(self).vw(),
    ;

    fn set_z(&mut self, v: i64)
        requires
            old(self).vwf(),
        ensures
            final(self).vwf(),
            final(self).vz() == v as int,
            final(self).vx() == old(self).vx(),
            final(self).vy() == old(self).vy(),
            final(self).vw() == old(self).vw(),
    ;

    fn set_w(&mut self, v: i64)
        requires
            old(self).vwf(),
        ensures
            final(self).vwf(),
            final(self).vw() == v as int,
            final(self).vx() == old(self).vx(),
            final(self).vy() == old(self).vy(),
            final(self).vz() == old(self).vz(),
    ;
}

impl Vector1D for Matrix<1, 1> {
    open spec fn vwf(&self) -> bool {
        self.wf()
    }

    open spec fn vx(&self) -> int {
        self.ent(0, 0)
    }

    fn x(&self) -> (r: i64) {
        self.get(0, 0)
    }

    fn set_x(&mut self, v: i64) {
        self.set(0, 0, v);
    }
}

impl Vector2D for Matrix<2, 1> {
    open spec fn vwf(&self) -> bool {
        self.wf()
    }

    open spec fn vx(&self) -> int {
        self.ent(0, 0)
    }

    open spec fn vy(&self) -> int {
        self.ent(1, 0)
    }

    fn x(&self) -> (r: i64) {
        self.get(0, 0)
    }

    fn y(&self) -> (r: i64) {
        self.get(1, 0)
    }

    fn set_x(&mut self, v: i64) {
        self.set(0, 0, v);
    }

    fn set_y(&mut self, v: i64) {
        self.set(1, 0, v);
    }
}

impl Vector3D for Matrix<3, 1> {
    open spec fn vwf(&self) -> bool {
        self.wf()
    }

    open spec fn vx(&self) -> int {
        self.ent(0, 0)
    }

    open spec fn vy(&self) -> int {
        self.ent(1, 0)
    }

    open spec fn vz(&self) -> int {
        self.ent(2, 0)
    }

    open spec fn cross_allowed(&self, other: &Self) -> bool {
        self.cross_ok(*other)
    }

    fn x(&self) -> (r: i64) {
        self.get(0, 0)
    }

    fn y(&self) -> (r: i64) {
        self.get(1, 0)
    }

    fn z(&self) -> (r: i64) {
        self.get(2, 0)
    }

    fn set_x(&mut self, v: i64) {
        self.set(0, 0, v);
    }

    fn set_y(&mut self, v: i64) {
        self.set(1, 0, v);
    }

    fn set_z(&mut self, v: i64) {
        self.set(2, 0, v);
    }

    fn cross(&self, other: &Self) -> (r: Self) {
        Matrix::<3, 1>::cross(self, other)
    }
}

impl Crossable for Matrix<3, 1> {
    open spec fn cwf(&self) -> bool {
        self.wf()
    }

    open spec fn cross_ok_with(&self, other: &Self) -> bool {
        self.cross_ok(*other)
    }

    open spec fn cx(&self) -> int {
        self.ent(0, 0)
    }

    open spec fn cy(&self) -> int {
        self.ent(1, 0)
    }

    open spec fn cz(&self) -> int {
        self.ent(2, 0)
    }

    fn cross(&self, other: &Self) -> (r: Self) {
        Matrix::<3, 1>::cross(self, other)
    }
}

impl Vector4D for Matrix<4, 1> {
    open spec fn vwf(&self) -> bool {
        self.wf()
    }

    open spec fn vx(&self) -> int {
        self.ent(0, 0)
    }

    open spec fn vy(&self) -> int {
        self.ent(1, 0)
    }

    open spec fn vz(&self) -> int {
        self.ent(2, 0)
    }

    open spec fn vw(&self) -> int {
        self.ent(3, 0)
    }

    fn x(&self) -> (r: i64) {
        self.get(0, 0)
    }

    fn y(&self) -> (r: i64) {
        self.get(1, 0)
    }

    fn z(&self) -> (r: i64) {
        self.get(2, 0)
    }

    fn w(&self) -> (r: i64) {
        self.get(3, 0)
    }

    fn set_x(&mut self, v: i64) {
        self.set(0, 0, v);
    }

    fn set_y(&mut self, v: i64) {
        self.set(1, 0, v);
    }

    fn set_z(&mut self, v: i64) {
        self.set(2, 0, v);
    }

    fn set_w(&mut self, v: i64) {
        self.set(3, 0, v);
    }
}

impl Matrix<3, 1> {
    /// True when every product that the cross product forms, and every
    /// difference of two of them, is representable.
    pub open spec fn cross_ok(self, other: Matrix<3, 1>) -> bool {
        let h = (i64::MAX as int) / 2;
        &&& -h <= self.ent(1, 0) * other.ent(2, 0) <= h
        &&& -h <= self.ent(2, 0) * other.ent(1, 0) <= h
        &&& -h <= self.ent(2, 0) * other.ent(0, 0) <= h
        &&& -h <= self.ent(0, 0) * other.ent(2, 0) <= h
        &&& -h <= self.ent(0, 0) * other.ent(1, 0) <= h
        &&& -h <= self.ent(1, 0) * other.ent(0, 0) <= h
    }

    /// The right-hand-rule cross product.
    pub fn cross(&self, other: &Self) -> (r: Self)
        requires
            self.wf(),
            other.wf(),
            self.cross_ok(*other),
        ensures
            r.wf(),
            r.ent(0, 0) == self.ent(1, 0) * other.ent(2, 0) - self.ent(2, 0) * other.ent(1, 0),
            r.ent(1, 0) == self.ent(2, 0) * other.ent(0, 0) - self.ent(0, 0) * other.ent(2, 0),
            r.ent(2, 0) == self.ent(0, 0) * other.ent(1, 0) - self.ent(1, 0) * other.ent(0, 0),
    {
        let mut out = Matrix::<3, 1>::zeros();
        let v0 = self.get(1, 0) * other.get(2, 0) - self.get(2, 0) * other.get(1, 0);
        out.set(0, 0, v0);
        let v1 = self.get(2, 0) * other.get(0, 0) - self.get(0, 0) * other.get(2, 0);
        out.set(1, 0, v1);
        let v2 = self.get(0, 0) * other.get(1, 0) - self.get(1, 0) * other.get(0, 0);
        out.set(2, 0, v2);
        out
    }
}

} // verus!
