//! Dense, fixed-dimension matrices of `i64` scalars.
//!
//! A `Matrix<N, M>` holds exactly `N * M` scalars, stored column-major: the
//! element at row `r`, column `c` lives at flat index `r + c * N`.  All
//! arithmetic is exact integer arithmetic; quotients are rounded toward
//! zero.  Callers that interpret the scalars as fixed-point reals supply
//! their own unit (see the transform builders).

use vstd::prelude::*;
use vstd::arithmetic::div_mod::lemma_fundamental_div_mod;
use vstd::arithmetic::mul::lemma_mul_inequality;

verus! {

/// An `N` x `M` matrix of `i64` scalars.
#[derive(Debug)]
pub struct Matrix<const N: usize, const M: usize> {
    data: Vec<i64>,
}

impl<const N: usize, const M: usize> View for Matrix<N, M> {
    type V = Seq<i64>;

    closed spec fn view(&self) -> Seq<i64> {
        self.data@
    }
}

/// Every in-range (row, column) pair maps to an in-range flat index.
pub proof fn lemma_flat_index<const N: usize, const M: usize>(i: int, j: int)
    requires
        0 <= i < N,
        0 <= j < M,
    ensures
        0 <= i + j * (N as int) < N * M,
{
    assert(i + j * (N as int) < N * M) by (nonlinear_arith)
        requires
            0 <= i < N,
            0 <= j < M,
    ;
}

/// Distinct in-range (row, column) pairs map to distinct flat indices.
pub proof fn lemma_flat_index_injective<const N: usize, const M: usize>(
    i1: int,
    j1: int,
    i2: int,
    j2: int,
)
    requires
        0 <= i1 < N,
        0 <= j1 < M,
        0 <= i2 < N,
        0 <= j2 < M,
        i1 + j1 * (N as int) == i2 + j2 * (N as int),
    ensures
        i1 == i2,
        j1 == j2,
{
    assert(j1 == j2 && i1 == i2) by (nonlinear_arith)
        requires
            0 <= i1 < N,
            0 <= j1 < M,
            0 <= i2 < N,
            0 <= j2 < M,
            i1 + j1 * (N as int) == i2 + j2 * (N as int),
    ;
}

impl<const N: usize, const M: usize> Matrix<N, M> {
    /// The size invariant: exactly `N * M` scalars.
    pub open spec fn wf(self) -> bool {
        self@.len() == N * M
    }

    /// The element at row `r`, column `c`.
    pub open spec fn ent(self, r: int, c: int) -> int {
        self@[r + c * (N as int)] as int
    }

    /// All `N * M` scalars set to the same value.
    pub fn fill(v: i64) -> (r: Self)
        ensures
            r.wf(),
            forall|i: int, j: int| 0 <= i < N && 0 <= j < M ==> r.ent(i, j) == v,
    {
        let mut data: Vec<i64> = Vec::new();
        let mut c: usize = 0;
        while c < M
            invariant
                c <= M,
                data@.len() == c * N,
                forall|k: int| 0 <= k < data@.len() ==> data@[k] == v,
            decreases M - c,
        {
            let mut r: usize = 0;
            while r < N
                invariant
                    r <= N,
                    data@.len() == c * N + r,
                    forall|k: int| 0 <= k < data@.len() ==> data@[k] == v,
                decreases N - r,
            {
                data.push(v);
                r += 1;
            }
            proof {
                assert((c + 1) * N == c * N + N) by (nonlinear_arith);
            }
            c += 1;
        }
        proof {
            assert(M * N == N * M) by (nonlinear_arith);
        }
        let m = Matrix { data };
        proof {
            assert forall|i: int, j: int| 0 <= i < N && 0 <= j < M implies m.ent(i, j) == v by {
                lemma_flat_index::<N, M>(i, j);
            }
        }
        m
    }

    /// Decides the size invariant at run time.
    pub fn is_well_formed(&self) -> (b: bool)
        ensures
            b == self.wf(),
    {
        match N.checked_mul(M) {
            Some(p) => self.data.len() == p,
            None => {
                proof {
                    vstd::std_specs::vec::axiom_spec_len(&self.data);
                }
                false
            },
        }
    }

    /// The zero matrix.
    pub fn zeros() -> (r: Self)
        ensures
            r.wf(),
            forall|i: int, j: int| 0 <= i < N && 0 <= j < M ==> r.ent(i, j) == 0,
    {
        Self::fill(0)
    }

    /// The element at row `r`, column `c`.
    pub fn get(&self, r: usize, c: usize) -> (v: i64)
        requires
            self.wf(),
            r < N,
            c < M,
        ensures
            v as int == self.ent(r as int, c as int),
    {
        proof {
            vstd::std_specs::vec::axiom_spec_len(&self.data);
            lemma_flat_index::<N, M>(r as int, c as int);
        }
        self.data[r + c * N]
    }

    /// Replaces the element at row `r`, column `c`; all others keep their
    /// values.
    pub fn set(&mut self, r: usize, c: usize, v: i64)
        requires
            old(self).wf(),
            r < N,
            c < M,
        ensures
            final(self).wf(),
            final(self).ent(r as int, c as int) == v,
            forall|i: int, j: int|
                0 <= i < N && 0 <= j < M && !(i == r && j == c) ==> final(self).ent(i, j) == old(
                    self,
                ).ent(i, j),
    {
        proof {
            vstd::std_specs::vec::axiom_spec_len(&self.data);
            lemma_flat_index::<N, M>(r as int, c as int);
        }
        self.data.set(r + c * N, v);
        proof {
            assert forall|i: int, j: int|
                0 <= i < N && 0 <= j < M && !(i == r && j == c) implies self.ent(i, j) == old(
                self,
            ).ent(i, j) by {
                lemma_flat_index::<N, M>(i, j);
                if i + j * (N as int) == r + c * (N as int) {
                    lemma_flat_index_injective::<N, M>(i, j, r as int, c as int);
                }
            }
        }
    }

    /// The identity: one on the main diagonal, zero elsewhere.
    pub fn identity() -> (r: Self)
        ensures
            r.wf(),
            r.is_identity(),
    {
        let mut m = Self::zeros();
        let d = if N < M {
            N
        } else {
            M
        };
        let mut i: usize = 0;
        while i < d
            invariant
                i <= d,
                d == vstd::math::min(N as int, M as int),
                m.wf(),
                forall|a: int, b: int|
                    0 <= a < N && 0 <= b < M ==> m.ent(a, b) == if a == b && a < i {
                        1int
                    } else {
                        0int
                    },
            decreases d - i,
        {
            m.set(i, i, 1);
            i += 1;
        }
        m
    }

    /// True when the matrix is the identity: one wherever row and column
    /// agree (up to the shorter dimension), zero elsewhere.
    pub open spec fn is_identity(self) -> bool {
        forall|i: int, j: int|
            0 <= i < N && 0 <= j < M ==> self.ent(i, j) == if i == j {
                1int
            } else {
                0int
            }
    }

    /// Builds the matrix from `M` columns of `N` scalars each.
    pub fn from_cols(cols: [[i64; N]; M]) -> (r: Self)
        ensures
            r.wf(),
            forall|i: int, j: int| 0 <= i < N && 0 <= j < M ==> r.ent(i, j) == cols@[j]@[i],
    {
        let mut m = Self::zeros();
        let mut c: usize = 0;
        while c < M
            invariant
                c <= M,
                m.wf(),
                forall|i: int, j: int|
                    0 <= i < N && 0 <= j < c ==> m.ent(i, j) == cols@[j]@[i],
            decreases M - c,
        {
            let col = &cols[c];
            let mut r: usize = 0;
            while r < N
                invariant
                    r <= N,
                    c < M,
                    m.wf(),
                    col == cols@[c as int],
                    forall|i: int, j: int|
                        0 <= i < N && 0 <= j < c ==> m.ent(i, j) == cols@[j]@[i],
                    forall|i: int| 0 <= i < r ==> m.ent(i, c as int) == cols@[c as int]@[i],
                decreases N - r,
            {
                m.set(r, c, col[r]);
                r += 1;
            }
            c += 1;
        }
        m
    }
}

impl<const N: usize, const M: usize> Matrix<N, M> {
    /// True when every pointwise sum of the two matrices is representable.
    pub open spec fn add_ok(self, rhs: Matrix<N, M>) -> bool {
        forall|i: int, j: int|
            #![trigger self.ent(i, j), rhs.ent(i, j)]
            0 <= i < N && 0 <= j < M ==> i64::MIN <= self.ent(i, j) + rhs.ent(i, j)
                <= i64::MAX
    }

    /// Pointwise sum.
    pub fn add_matrix(&self, rhs: &Self) -> (r: Self)
        requires
            self.wf(),
            rhs.wf(),
            self.add_ok(*rhs),
        ensures
            r.wf(),
            forall|i: int, j: int|
                0 <= i < N && 0 <= j < M ==> #[trigger] r.ent(i, j) == self.ent(i, j)
                    + rhs.ent(i, j),
    {
        let mut out = Self::zeros();
        let mut c: usize = 0;
        while c < M
            invariant
                c <= M,
                out.wf(),
                self.wf(),
                rhs.wf(),
                self.add_ok(*rhs),
                forall|i: int, j: int|
                    0 <= i < N && 0 <= j < c ==> #[trigger] out.ent(i, j) == self.ent(i, j)
                        + rhs.ent(i, j),
            decreases M - c,
        {
            let mut r: usize = 0;
            while r < N
                invariant
                    r <= N,
                    c < M,
                    out.wf(),
                    self.wf(),
                    rhs.wf(),
                    self.add_ok(*rhs),
                    forall|i: int, j: int|
                        0 <= i < N && 0 <= j < c ==> #[trigger] out.ent(i, j) == self.ent(i, j)
                            + rhs.ent(i, j),
                    forall|i: int|
                        0 <= i < r ==> #[trigger] out.ent(i, c as int) == self.ent(i, c as int)
                            + rhs.ent(i, c as int),
                decreases N - r,
            {
                let v = self.get(r, c) + rhs.get(r, c);
                out.set(r, c, v);
                r += 1;
            }
            c += 1;
        }
        out
    }

    /// True when every pointwise difference of the two matrices is
    /// representable.
    pub open spec fn sub_ok(self, rhs: Matrix<N, M>) -> bool {
        forall|i: int, j: int|
            #![trigger self.ent(i, j), rhs.ent(i, j)]
            0 <= i < N && 0 <= j < M ==> i64::MIN <= self.ent(i, j) - rhs.ent(i, j)
                <= i64::MAX
    }

    /// Pointwise difference.
    pub fn sub_matrix(&self, rhs: &Self) -> (r: Self)
        requires
            self.wf(),
            rhs.wf(),
            self.sub_ok(*rhs),
        ensures
            r.wf(),
            forall|i: int, j: int|
                0 <= i < N && 0 <= j < M ==> #[trigger] r.ent(i, j) == self.ent(i, j)
                    - rhs.ent(i, j),
    {
        let mut out = Self::zeros();
        let mut c: usize = 0;
        while c < M
            invariant
                c <= M,
                out.wf(),
                self.wf(),
                rhs.wf(),
                self.sub_ok(*rhs),
                forall|i: int, j: int|
                    0 <= i < N && 0 <= j < c ==> #[trigger] out.ent(i, j) == self.ent(i, j)
                        - rhs.ent(i, j),
            decreases M - c,
        {
            let mut r: usize = 0;
            while r < N
                invariant
                    r <= N,
                    c < M,
                    out.wf(),
                    self.wf(),
                    rhs.wf(),
                    self.sub_ok(*rhs),
                    forall|i: int, j: int|
                        0 <= i < N && 0 <= j < c ==> #[trigger] out.ent(i, j) == self.ent(i, j)
                            - rhs.ent(i, j),
                    forall|i: int|
                        0 <= i < r ==> #[trigger] out.ent(i, c as int) == self.ent(i, c as int)
                            - rhs.ent(i, c as int),
                decreases N - r,
            {
                let v = self.get(r, c) - rhs.get(r, c);
                out.set(r, c, v);
                r += 1;
            }
            c += 1;
        }
        out
    }

    /// Pointwise negation.
    pub fn neg(&self) -> (r: Self)
        requires
            self.wf(),
            forall|i: int, j: int|
                0 <= i < N && 0 <= j < M ==> #[trigger] self.ent(i, j) != i64::MIN,
        ensures
            r.wf(),
            forall|i: int, j: int|
                0 <= i < N && 0 <= j < M ==> #[trigger] r.ent(i, j) == -self.ent(i, j),
    {
        let mut out = Self::zeros();
        let mut c: usize = 0;
        while c < M
            invariant
                c <= M,
                out.wf(),
                self.wf(),
                forall|i: int, j: int|
                    0 <= i < N && 0 <= j < M ==> #[trigger] self.ent(i, j) != i64::MIN,
                forall|i: int, j: int|
                    0 <= i < N && 0 <= j < c ==> #[trigger] out.ent(i, j) == -self.ent(i, j),
            decreases M - c,
        {
            let mut r: usize = 0;
            while r < N
                invariant
                    r <= N,
                    c < M,
                    out.wf(),
                    self.wf(),
                    forall|i: int, j: int|
                        0 <= i < N && 0 <= j < M ==> #[trigger] self.ent(i, j) != i64::MIN,
                    forall|i: int, j: int|
                        0 <= i < N && 0 <= j < c ==> #[trigger] out.ent(i, j) == -self.ent(i, j),
                    forall|i: int|
                        0 <= i < r ==> #[trigger] out.ent(i, c as int) == -self.ent(i, c as int),
                decreases N - r,
            {
                let v = -self.get(r, c);
                out.set(r, c, v);
                r += 1;
            }
            c += 1;
        }
        out
    }

    /// True when every pointwise product of the two matrices is
    /// representable.
    pub open spec fn pointwise_mul_ok(self, rhs: Matrix<N, M>) -> bool {
        forall|i: int, j: int|
            #![trigger self.ent(i, j), rhs.ent(i, j)]
            0 <= i < N && 0 <= j < M ==> i64::MIN <= self.ent(i, j) * rhs.ent(i, j)
                <= i64::MAX
    }

    /// Pointwise product.
    pub fn mul_element_wise(&self, m: &Matrix<N, M>) -> (r: Self)
        requires
            self.wf(),
            m.wf(),
            self.pointwise_mul_ok(*m),
        ensures
            r.wf(),
            forall|i: int, j: int|
                0 <= i < N && 0 <= j < M ==> #[trigger] r.ent(i, j) == self.ent(i, j) * m.ent(
                    i,
                    j,
                ),
    {
        let mut out = Self::zeros();
        let mut c: usize = 0;
        while c < M
            invariant
                c <= M,
                out.wf(),
                self.wf(),
                m.wf(),
                self.pointwise_mul_ok(*m),
                forall|i: int, j: int|
                    0 <= i < N && 0 <= j < c ==> #[trigger] out.ent(i, j) == self.ent(i, j)
                        * m.ent(i, j),
            decreases M - c,
        {
            let mut r: usize = 0;
            while r < N
                invariant
                    r <= N,
                    c < M,
                    out.wf(),
                    self.wf(),
                    m.wf(),
                    self.pointwise_mul_ok(*m),
                    forall|i: int, j: int|
                        0 <= i < N && 0 <= j < c ==> #[trigger] out.ent(i, j) == self.ent(i, j)
                            * m.ent(i, j),
                    forall|i: int|
                        0 <= i < r ==> #[trigger] out.ent(i, c as int) == self.ent(i, c as int)
                            * m.ent(i, c as int),
                decreases N - r,
            {
                let v = self.get(r, c) * m.get(r, c);
                out.set(r, c, v);
                r += 1;
            }
            c += 1;
        }
        out
    }

    /// Pointwise product, with the factors swapped.
    pub fn element_wise_product(&self, x: &Matrix<N, M>) -> (r: Self)
        requires
            self.wf(),
            x.wf(),
            self.pointwise_mul_ok(*x),
        ensures
            r.wf(),
            forall|i: int, j: int|
                0 <= i < N && 0 <= j < M ==> #[trigger] r.ent(i, j) == x.ent(i, j) * self.ent(
                    i,
                    j,
                ),
    {
        let r = self.mul_element_wise(x);
        proof {
            assert forall|i: int, j: int| 0 <= i < N && 0 <= j < M implies #[trigger] r.ent(i, j)
                == x.ent(i, j) * self.ent(i, j) by {
                vstd::arithmetic::mul::lemma_mul_is_commutative(self.ent(i, j), x.ent(i, j));
            }
        }
        r
    }

    /// True when no divisor element is zero and no quotient overflows.
    pub open spec fn pointwise_div_ok(self, rhs: Matrix<N, M>) -> bool {
        forall|i: int, j: int|
            #![trigger self.ent(i, j), rhs.ent(i, j)]
            0 <= i < N && 0 <= j < M ==> rhs.ent(i, j) != 0 && !(self.ent(i, j) == i64::MIN
                && rhs.ent(i, j) == -1)
    }

    /// Pointwise quotient, rounded toward zero.
    pub fn div_element_wise(&self, m: &Matrix<N, M>) -> (r: Self)
        requires
            self.wf(),
            m.wf(),
            self.pointwise_div_ok(*m),
        ensures
            r.wf(),
            forall|i: int, j: int|
                0 <= i < N && 0 <= j < M ==> #[trigger] r.ent(i, j) == crate::tdiv(
                    self.ent(i, j),
                    m.ent(i, j),
                ),
    {
        let mut out = Self::zeros();
        let mut c: usize = 0;
        while c < M
            invariant
                c <= M,
                out.wf(),
                self.wf(),
                m.wf(),
                self.pointwise_div_ok(*m),
                forall|i: int, j: int|
                    0 <= i < N && 0 <= j < c ==> #[trigger] out.ent(i, j) == crate::tdiv(
                        self.ent(i, j),
                        m.ent(i, j),
                    ),
            decreases M - c,
        {
            let mut r: usize = 0;
            while r < N
                invariant
                    r <= N,
                    c < M,
                    out.wf(),
                    self.wf(),
                    m.wf(),
                    self.pointwise_div_ok(*m),
                    forall|i: int, j: int|
                        0 <= i < N && 0 <= j < c ==> #[trigger] out.ent(i, j) == crate::tdiv(
                            self.ent(i, j),
                            m.ent(i, j),
                        ),
                    forall|i: int|
                        0 <= i < r ==> #[trigger] out.ent(i, c as int) == crate::tdiv(
                            self.ent(i, c as int),
                            m.ent(i, c as int),
                        ),
                decreases N - r,
            {
                let v = crate::div_trunc(self.get(r, c), m.get(r, c));
                out.set(r, c, v);
                r += 1;
            }
            c += 1;
        }
        out
    }

    /// True when every element times `s` is representable.
    pub open spec fn scalar_mul_ok(self, s: int) -> bool {
        forall|i: int, j: int|
            0 <= i < N && 0 <= j < M ==> i64::MIN <= #[trigger] self.ent(i, j) * s <= i64::MAX
    }

    /// Every element multiplied by the scalar `s`.
    pub fn mul_scalar(&self, s: i64) -> (r: Self)
        requires
            self.wf(),
            self.scalar_mul_ok(s as int),
        ensures
            r.wf(),
            forall|i: int, j: int|
                0 <= i < N && 0 <= j < M ==> #[trigger] r.ent(i, j) == self.ent(i, j) * s,
    {
        let mut out = Self::zeros();
        let mut c: usize = 0;
        while c < M
            invariant
                c <= M,
                out.wf(),
                self.wf(),
                self.scalar_mul_ok(s as int),
                forall|i: int, j: int|
                    0 <= i < N && 0 <= j < c ==> #[trigger] out.ent(i, j) == self.ent(i, j) * s,
            decreases M - c,
        {
            let mut r: usize = 0;
            while r < N
                invariant
                    r <= N,
                    c < M,
                    out.wf(),
                    self.wf(),
                    self.scalar_mul_ok(s as int),
                    forall|i: int, j: int|
                        0 <= i < N && 0 <= j < c ==> #[trigger] out.ent(i, j) == self.ent(i, j)
                            * s,
                    forall|i: int|
                        0 <= i < r ==> #[trigger] out.ent(i, c as int) == self.ent(i, c as int)
                            * s,
                decreases N - r,
            {
                let v = self.get(r, c) * s;
                out.set(r, c, v);
                r += 1;
            }
            c += 1;
        }
        out
    }

    /// Every element divided by the scalar `s`, rounded toward zero.
    pub fn div_scalar(&self, s: i64) -> (r: Self)
        requires
            self.wf(),
            s != 0,
            forall|i: int, j: int|
                0 <= i < N && 0 <= j < M ==> !(#[trigger] self.ent(i, j) == i64::MIN && s == -1),
        ensures
            r.wf(),
            forall|i: int, j: int|
                0 <= i < N && 0 <= j < M ==> #[trigger] r.ent(i, j) == crate::tdiv(
                    self.ent(i, j),
                    s as int,
                ),
    {
        let mut out = Self::zeros();
        let mut c: usize = 0;
        while c < M
            invariant
                c <= M,
                out.wf(),
                self.wf(),
                s != 0,
                forall|i: int, j: int|
                    0 <= i < N && 0 <= j < M ==> !(#[trigger] self.ent(i, j) == i64::MIN && s
                        == -1),
                forall|i: int, j: int|
                    0 <= i < N && 0 <= j < c ==> #[trigger] out.ent(i, j) == crate::tdiv(
                        self.ent(i, j),
                        s as int,
                    ),
            decreases M - c,
        {
            let mut r: usize = 0;
            while r < N
                invariant
                    r <= N,
                    c < M,
                    out.wf(),
                    self.wf(),
                    s != 0,
                    forall|i: int, j: int|
                        0 <= i < N && 0 <= j < M ==> !(#[trigger] self.ent(i, j) == i64::MIN && s
                            == -1),
                    forall|i: int, j: int|
                        0 <= i < N && 0 <= j < c ==> #[trigger] out.ent(i, j) == crate::tdiv(
                            self.ent(i, j),
                            s as int,
                        ),
                    forall|i: int|
                        0 <= i < r ==> #[trigger] out.ent(i, c as int) == crate::tdiv(
                            self.ent(i, c as int),
                            s as int,
                        ),
                decreases N - r,
            {
                let v = crate::div_trunc(self.get(r, c), s);
                out.set(r, c, v);
                r += 1;
            }
            c += 1;
        }
        out
    }

    /// The transpose: rows become columns.
    pub fn trasnpose(&self) -> (r: Matrix<M, N>)
        requires
            self.wf(),
        ensures
            r.wf(),
            forall|i: int, j: int|
                0 <= i < N && 0 <= j < M ==> #[trigger] r.ent(j, i) == self.ent(i, j),
    {
        let mut out = Matrix::<M, N>::zeros();
        let mut c: usize = 0;
        while c < N
            invariant
                c <= N,
                out.wf(),
                self.wf(),
                forall|i: int, j: int|
                    0 <= i < N && 0 <= j < M && i < c ==> #[trigger] out.ent(j, i) == self.ent(
                        i,
                        j,
                    ),
            decreases N - c,
        {
            let mut r: usize = 0;
            while r < M
                invariant
                    r <= M,
                    c < N,
                    out.wf(),
                    self.wf(),
                    forall|i: int, j: int|
                        0 <= i < N && 0 <= j < M && i < c ==> #[trigger] out.ent(j, i)
                            == self.ent(i, j),
                    forall|j: int|
                        0 <= j < r ==> #[trigger] out.ent(j, c as int) == self.ent(c as int, j),
                decreases M - r,
            {
                let v = self.get(c, r);
                out.set(r, c, v);
                r += 1;
            }
            c += 1;
        }
        out
    }
}

/// For `0 <= k <= m` and `0 <= x`, a sum of `k` terms each bounded by
/// `x / m` is bounded by `x`.
pub proof fn lemma_scaled_sum_bound(k: int, m: int, x: int)
    requires
        0 <= k <= m,
        0 < m,
        0 <= x,
    ensures
        0 <= k * (x / m) <= x,
{
    vstd::arithmetic::div_mod::lemma_div_pos_is_pos(x, m);
    vstd::arithmetic::mul::lemma_mul_nonnegative(k, x / m);
    lemma_mul_inequality(k, m, x / m);
    lemma_fundamental_div_mod(x, m);
    vstd::arithmetic::div_mod::lemma_mod_bound(x, m);
}

impl<const N: usize, const M: usize> Matrix<N, M> {
    /// The first `terms` terms of the inner product that standard matrix
    /// multiplication assigns to row `i` of `self` and column `j` of `rhs`.
    pub open spec fn mul_ent<const K: usize>(
        self,
        rhs: Matrix<M, K>,
        i: int,
        j: int,
        terms: int,
    ) -> int
        decreases terms,
    {
        if terms <= 0 {
            0
        } else {
            self.mul_ent(rhs, i, j, terms - 1) + self.ent(i, terms - 1) * rhs.ent(terms - 1, j)
        }
    }

    /// True when every scalar product that the multiplication sums is small
    /// enough that no partial sum of `M` of them can overflow.
    pub open spec fn mul_ok<const K: usize>(self, rhs: Matrix<M, K>) -> bool {
        forall|i: int, m2: int, j: int|
            #![trigger self.ent(i, m2), rhs.ent(m2, j)]
            0 <= i < N && 0 <= m2 < M && 0 <= j < K ==> -((i64::MAX as int) / (M as int))
                <= self.ent(i, m2) * rhs.ent(m2, j) <= (i64::MAX as int) / (M as int)
    }

    /// Standard matrix multiplication:
    /// `r[i][j] == sum over m of self[i][m] * rhs[m][j]`.
    pub fn mul_matrix<const K: usize>(&self, rhs: &Matrix<M, K>) -> (r: Matrix<N, K>)
        requires
            self.wf(),
            rhs.wf(),
            self.mul_ok(*rhs),
        ensures
            r.wf(),
            forall|i: int, j: int|
                0 <= i < N && 0 <= j < K ==> #[trigger] r.ent(i, j) == self.mul_ent(
                    *rhs,
                    i,
                    j,
                    M as int,
                ),
    {
        let ghost q = (i64::MAX as int) / (M as int);
        proof {
            if M >= 1 {
                lemma_scaled_sum_bound(M as int, M as int, i64::MAX as int);
            }
        }
        let mut out = Matrix::<N, K>::zeros();
        let mut c: usize = 0;
        while c < K
            invariant
                c <= K,
                out.wf(),
                self.wf(),
                rhs.wf(),
                self.mul_ok(*rhs),
                q == (i64::MAX as int) / (M as int),
                forall|i: int, j: int|
                    0 <= i < N && 0 <= j < c ==> #[trigger] out.ent(i, j) == self.mul_ent(
                        *rhs,
                        i,
                        j,
                        M as int,
                    ),
            decreases K - c,
        {
            let mut r: usize = 0;
            while r < N
                invariant
                    r <= N,
                    c < K,
                    out.wf(),
                    self.wf(),
                    rhs.wf(),
                    self.mul_ok(*rhs),
                    q == (i64::MAX as int) / (M as int),
                    forall|i: int, j: int|
                        0 <= i < N && 0 <= j < c ==> #[trigger] out.ent(i, j) == self.mul_ent(
                            *rhs,
                            i,
                            j,
                            M as int,
                        ),
                    forall|i: int|
                        0 <= i < r ==> #[trigger] out.ent(i, c as int) == self.mul_ent(
                            *rhs,
                            i,
                            c as int,
                            M as int,
                        ),
                decreases N - r,
            {
                let mut acc: i64 = 0;
                let mut m2: usize = 0;
                while m2 < M
                    invariant
                        m2 <= M,
                        r < N,
                        c < K,
                        self.wf(),
                        rhs.wf(),
                        self.mul_ok(*rhs),
                        q == (i64::MAX as int) / (M as int),
                        acc as int == self.mul_ent(*rhs, r as int, c as int, m2 as int),
                        -((m2 as int) * q) <= acc as int <= (m2 as int) * q,
                    decreases M - m2,
                {
                    proof {
                        lemma_scaled_sum_bound(m2 as int, M as int, i64::MAX as int);
                        lemma_scaled_sum_bound(m2 + 1, M as int, i64::MAX as int);
                        assert((m2 + 1) * q == (m2 as int) * q + q) by (nonlinear_arith);
                    }
                    let p = self.get(r, m2) * rhs.get(m2, c);
                    acc = acc + p;
                    m2 += 1;
                }
                out.set(r, c, acc);
                r += 1;
            }
            c += 1;
        }
        out
    }
}

/// Multiplying on the left by the identity leaves every element unchanged:
/// the inner products of identity rows with `m` reproduce `m`.
pub proof fn lemma_identity_mul_left<const N: usize, const M: usize>(
    id: Matrix<N, N>,
    m: Matrix<N, M>,
)
    requires
        id.is_identity(),
    ensures
        forall|i: int, j: int|
            0 <= i < N && 0 <= j < M ==> #[trigger] id.mul_ent(m, i, j, N as int) == m.ent(i, j),
{
    assert forall|i: int, j: int| 0 <= i < N && 0 <= j < M implies #[trigger] id.mul_ent(
        m,
        i,
        j,
        N as int,
    ) == m.ent(i, j) by {
        lemma_identity_mul_left_partial(id, m, i, j, N as int);
    }
}

proof fn lemma_identity_mul_left_partial<const N: usize, const M: usize>(
    id: Matrix<N, N>,
    m: Matrix<N, M>,
    i: int,
    j: int,
    terms: int,
)
    requires
        id.is_identity(),
        0 <= i < N,
        0 <= j < M,
        0 <= terms <= N,
    ensures
        id.mul_ent(m, i, j, terms) == if i < terms {
            m.ent(i, j)
        } else {
            0
        },
    decreases terms,
{
    if terms > 0 {
        lemma_identity_mul_left_partial(id, m, i, j, terms - 1);
        let t = terms - 1;
        if i == t {
            assert(id.ent(i, t) == 1);
        } else {
            assert(id.ent(i, t) == 0);
        }
    }
}

/// Multiplying on the right by the identity leaves every element unchanged.
pub proof fn lemma_identity_mul_right<const N: usize, const M: usize>(
    m: Matrix<N, M>,
    id: Matrix<M, M>,
)
    requires
        id.is_identity(),
    ensures
        forall|i: int, j: int|
            0 <= i < N && 0 <= j < M ==> #[trigger] m.mul_ent(id, i, j, M as int) == m.ent(i, j),
{
    assert forall|i: int, j: int| 0 <= i < N && 0 <= j < M implies #[trigger] m.mul_ent(
        id,
        i,
        j,
        M as int,
    ) == m.ent(i, j) by {
        lemma_identity_mul_right_partial(m, id, i, j, M as int);
    }
}

proof fn lemma_identity_mul_right_partial<const N: usize, const M: usize>(
    m: Matrix<N, M>,
    id: Matrix<M, M>,
    i: int,
    j: int,
    terms: int,
)
    requires
        id.is_identity(),
        0 <= i < N,
        0 <= j < M,
        0 <= terms <= M,
    ensures
        m.mul_ent(id, i, j, terms) == if j < terms {
            m.ent(i, j)
        } else {
            0
        },
    decreases terms,
{
    if terms > 0 {
        lemma_identity_mul_right_partial(m, id, i, j, terms - 1);
        let t = terms - 1;
        if j == t {
            assert(id.ent(t, j) == 1);
        } else {
            assert(id.ent(t, j) == 0);
        }
    }
}

impl<const N: usize, const M: usize> Matrix<N, M> {
    /// Builds a matrix by calling `f` once per element.
    pub fn generate(f: impl Fn() -> i64) -> (r: Self)
        requires
            f.requires(()),
        ensures
            r.wf(),
            forall|i: int, j: int|
                0 <= i < N && 0 <= j < M ==> f.ensures((), (#[trigger] r.ent(i, j)) as i64),
    {
        let mut out = Self::zeros();
        let mut c: usize = 0;
        while c < M
            invariant
                c <= M,
                out.wf(),
                f.requires(()),
                forall|i: int, j: int|
                    0 <= i < N && 0 <= j < c ==> f.ensures((), (#[trigger] out.ent(i, j)) as i64),
            decreases M - c,
        {
            let mut r: usize = 0;
            while r < N
                invariant
                    r <= N,
                    c < M,
                    out.wf(),
                    f.requires(()),
                    forall|i: int, j: int|
                        0 <= i < N && 0 <= j < c ==> f.ensures(
                            (),
                            (#[trigger] out.ent(i, j)) as i64,
                        ),
                    forall|i: int|
                        0 <= i < r ==> f.ensures((), (#[trigger] out.ent(i, c as int)) as i64),
                decreases N - r,
            {
                let v = f();
                out.set(r, c, v);
                r += 1;
            }
            c += 1;
        }
        out
    }

    /// A new matrix whose element at `(i, j)` is `f((i, j), self[(i, j)])`.
    pub fn map(&self, f: impl Fn((usize, usize), i64) -> i64) -> (r: Self)
        requires
            self.wf(),
            forall|i: usize, j: usize|
                i < N && j < M ==> f.requires(((i, j), (#[trigger] self.ent(i as int, j as int)) as i64)),
        ensures
            r.wf(),
            forall|i: usize, j: usize|
                i < N && j < M ==> f.ensures(
                    ((i, j), self.ent(i as int, j as int) as i64),
                    (#[trigger] r.ent(i as int, j as int)) as i64,
                ),
    {
        let mut out = Self::zeros();
        let mut c: usize = 0;
        while c < M
            invariant
                c <= M,
                out.wf(),
                self.wf(),
                forall|i: usize, j: usize|
                    i < N && j < M ==> f.requires(
                        ((i, j), (#[trigger] self.ent(i as int, j as int)) as i64),
                    ),
                forall|i: usize, j: usize|
                    i < N && j < c ==> f.ensures(
                        ((i, j), self.ent(i as int, j as int) as i64),
                        (#[trigger] out.ent(i as int, j as int)) as i64,
                    ),
            decreases M - c,
        {
            let mut r: usize = 0;
            while r < N
                invariant
                    r <= N,
                    c < M,
                    out.wf(),
                    self.wf(),
                    forall|i: usize, j: usize|
                        i < N && j < M ==> f.requires(
                            ((i, j), (#[trigger] self.ent(i as int, j as int)) as i64),
                        ),
                    forall|i: usize, j: usize|
                        i < N && j < c ==> f.ensures(
                            ((i, j), self.ent(i as int, j as int) as i64),
                            (#[trigger] out.ent(i as int, j as int)) as i64,
                        ),
                    forall|i: usize|
                        i < r ==> f.ensures(
                            ((i, c), self.ent(i as int, c as int) as i64),
                            (#[trigger] out.ent(i as int, c as int)) as i64,
                        ),
                decreases N - r,
            {
                let v = f((r, c), self.get(r, c));
                out.set(r, c, v);
                r += 1;
            }
            c += 1;
        }
        out
    }

    /// Replaces every element in place: the element at `(i, j)` becomes
    /// `f((i, j), self[(i, j)])`.
    pub fn iter_mut(&mut self, f: impl Fn((usize, usize), i64) -> i64)
        requires
            old(self).wf(),
            forall|i: usize, j: usize|
                i < N && j < M ==> f.requires(
                    ((i, j), (#[trigger] old(self).ent(i as int, j as int)) as i64),
                ),
        ensures
            final(self).wf(),
            forall|i: usize, j: usize|
                i < N && j < M ==> f.ensures(
                    ((i, j), old(self).ent(i as int, j as int) as i64),
                    (#[trigger] final(self).ent(i as int, j as int)) as i64,
                ),
    {
        let out = self.map(f);
        *self = out;
    }

    /// All elements with their positions, in storage order: the element at
    /// row `i`, column `j` sits at index `i + j * N` of the result.
    pub fn iter(&self) -> (r: Vec<((usize, usize), i64)>)
        requires
            self.wf(),
        ensures
            r@.len() == N * M,
            forall|i: int, j: int|
                0 <= i < N && 0 <= j < M ==> r@[i + j * (N as int)] == ((i as usize, j as usize), (
                #[trigger] self.ent(i, j)) as i64),
    {
        let mut out: Vec<((usize, usize), i64)> = Vec::new();
        let mut c: usize = 0;
        while c < M
            invariant
                c <= M,
                self.wf(),
                out@.len() == c * N,
                forall|i: int, j: int|
                    0 <= i < N && 0 <= j < c ==> out@[i + j * (N as int)] == ((i as usize, j as usize), (
                    #[trigger] self.ent(i, j)) as i64),
            decreases M - c,
        {
            let mut r: usize = 0;
            while r < N
                invariant
                    r <= N,
                    c < M,
                    self.wf(),
                    out@.len() == c * N + r,
                    forall|i: int, j: int|
                        0 <= i < N && 0 <= j < c ==> out@[i + j * (N as int)] == (
                            ((i as usize, j as usize), (#[trigger] self.ent(i, j)) as i64),
                        ).0,
                    forall|i: int|
                        0 <= i < r ==> out@[i + (c as int) * (N as int)] == ((i as usize, c), (
                        #[trigger] self.ent(i, c as int)) as i64),
                decreases N - r,
            {
                let v = self.get(r, c);
                out.push(((r, c), v));
                proof {
                    assert forall|i: int, j: int| 0 <= i < N && 0 <= j < c implies out@[i + j * (
                    N as int)] == ((i as usize, j as usize), self.ent(i, j) as i64) by {
                        lemma_flat_index::<N, M>(i, j);
                        assert(i + j * (N as int) < (c as int) * (N as int) + r) by (nonlinear_arith)
                            requires
                                0 <= i < N,
                                0 <= j < c,
                                r >= 0,
                        ;
                    }
                }
                r += 1;
            }
            proof {
                assert((c + 1) * N == c * N + N) by (nonlinear_arith);
            }
            c += 1;
        }
        proof {
            assert(M * N == N * M) by (nonlinear_arith);
        }
        out
    }

    /// The same enumeration as `iter`, as an owned list.
    pub fn into_iter(&self) -> (r: Vec<((usize, usize), i64)>)
        requires
            self.wf(),
        ensures
            r@.len() == N * M,
            forall|i: int, j: int|
                0 <= i < N && 0 <= j < M ==> r@[i + j * (N as int)] == ((i as usize, j as usize), (
                #[trigger] self.ent(i, j)) as i64),
    {
        self.iter()
    }

    /// The largest element.
    pub fn max(&self) -> (r: i64)
        requires
            self.wf(),
            N >= 1,
            M >= 1,
        ensures
            exists|i: int, j: int|
                0 <= i < N && 0 <= j < M && r as int == #[trigger] self.ent(i, j),
            forall|i: int, j: int| 0 <= i < N && 0 <= j < M ==> #[trigger] self.ent(i, j) <= r,
    {
        let mut cur = self.get(0, 0);
        let mut c: usize = 0;
        while c < M
            invariant
                c <= M,
                N >= 1,
                M >= 1,
                self.wf(),
                exists|i: int, j: int|
                    0 <= i < N && 0 <= j < M && cur as int == #[trigger] self.ent(i, j),
                forall|i: int, j: int|
                    0 <= i < N && 0 <= j < c ==> #[trigger] self.ent(i, j) <= cur,
            decreases M - c,
        {
            let mut r: usize = 0;
            while r < N
                invariant
                    r <= N,
                    c < M,
                    self.wf(),
                    exists|i: int, j: int|
                        0 <= i < N && 0 <= j < M && cur as int == #[trigger] self.ent(i, j),
                    forall|i: int, j: int|
                        0 <= i < N && 0 <= j < c ==> #[trigger] self.ent(i, j) <= cur,
                    forall|i: int| 0 <= i < r ==> #[trigger] self.ent(i, c as int) <= cur,
                decreases N - r,
            {
                let v = self.get(r, c);
                if v > cur {
                    cur = v;
                }
                r += 1;
            }
            c += 1;
        }
        cur
    }

    /// The columns of the matrix, each as an `N`-vector.
    pub fn sub_matrices_vertically(&self) -> (r: Vec<Matrix<N, 1>>)
        requires
            self.wf(),
        ensures
            r@.len() == M,
            forall|k: int| 0 <= k < M ==> (#[trigger] r@[k]).wf(),
            forall|k: int, i: int|
                0 <= k < M && 0 <= i < N ==> #[trigger] r@[k].ent(i, 0) == self.ent(i, k),
    {
        let mut out: Vec<Matrix<N, 1>> = Vec::new();
        let mut c: usize = 0;
        while c < M
            invariant
                c <= M,
                self.wf(),
                out@.len() == c,
                forall|k: int| 0 <= k < c ==> (#[trigger] out@[k]).wf(),
                forall|k: int, i: int|
                    0 <= k < c && 0 <= i < N ==> #[trigger] out@[k].ent(i, 0) == self.ent(i, k),
            decreases M - c,
        {
            let mut col = Matrix::<N, 1>::zeros();
            let mut r: usize = 0;
            while r < N
                invariant
                    r <= N,
                    c < M,
                    self.wf(),
                    col.wf(),
                    forall|i: int| 0 <= i < r ==> #[trigger] col.ent(i, 0) == self.ent(i, c as int),
                decreases N - r,
            {
                let v = self.get(r, c);
                col.set(r, 0, v);
                r += 1;
            }
            out.push(col);
            c += 1;
        }
        out
    }
}

impl<const N: usize, const M: usize> Clone for Matrix<N, M> {
    /// An exact copy: the clone holds the same scalars.
    fn clone(&self) -> (r: Self)
        ensures
            r@ == self@,
    {
        let mut data: Vec<i64> = Vec::new();
        let mut k: usize = 0;
        while k < self.data.len()
            invariant
                k <= self.data@.len(),
                data@ == self.data@.take(k as int),
            decreases self.data@.len() - k,
        {
            data.push(self.data[k]);
            k += 1;
        }
        proof {
            assert(self.data@.take(self.data@.len() as int) =~= self.data@);
        }
        Matrix { data }
    }
}

impl<const N: usize, const M: usize> PartialEq for Matrix<N, M> {
    /// Element-wise equality.
    fn eq(&self, other: &Self) -> (r: bool)
        ensures
            r == (self@ == other@),
    {
        if self.data.len() != other.data.len() {
            proof {
                assert(self@ != other@);
            }
            return false;
        }
        let mut k: usize = 0;
        while k < self.data.len()
            invariant
                k <= self.data@.len(),
                self.data@.len() == other.data@.len(),
                forall|i: int| 0 <= i < k ==> self.data@[i] == other.data@[i],
            decreases self.data@.len() - k,
        {
            if self.data[k] != other.data[k] {
                proof {
                    assert(self@[k as int] != other@[k as int]);
                }
                return false;
            }
            k += 1;
        }
        proof {
            assert(self@ =~= other@);
        }
        true
    }
}

impl<const N: usize, const M: usize> Eq for Matrix<N, M> {

}

impl<const N: usize, const M: usize> vstd::std_specs::cmp::PartialEqSpecImpl for Matrix<N, M> {
    open spec fn obeys_eq_spec() -> bool {
        true
    }

    open spec fn eq_spec(&self, other: &Self) -> bool {
        self@ == other@
    }
}

} // verus!
