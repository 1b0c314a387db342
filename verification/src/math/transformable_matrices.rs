//! View and projection matrix builders.
//!
//! A view matrix is built from camera vectors the standard way: forward is
//! the normalized direction, side is the normalized cross of forward and
//! up, true-up closes the right-handed basis, and the last column carries
//! the negated projections of the eye onto the basis.  The contracts state
//! every element exactly, over spec-level three-tuples of the input
//! elements.
//!
//! Projection matrices are in fixed point (`FX_ONE` stands for one); the
//! focal scalar is computed from the fixed-point tangent of half the field
//! of view.

use vstd::prelude::*;
use super::matrices::Matrix;
use super::vectors::{sqrt_floor, is_sqrt_floor};
use super::trig::{FX_ONE, sin_fx, cos_fx, sin_fx_spec, cos_fx_spec};
use crate::{tdiv, div_trunc};
use vstd::arithmetic::div_mod::{lemma_div_is_ordered, lemma_div_by_self, lemma_div_pos_is_pos};

verus! {

/// The three elements of a column 3-vector, as one spec-level tuple.
pub open spec fn v3(m: Matrix<3, 1>) -> (int, int, int) {
    (m.ent(0, 0), m.ent(1, 0), m.ent(2, 0))
}

/// The inner product of two spec-level 3-vectors.
pub open spec fn dot3(a: (int, int, int), b: (int, int, int)) -> int {
    a.0 * b.0 + a.1 * b.1 + a.2 * b.2
}

/// The right-hand-rule cross product of two spec-level 3-vectors.
pub open spec fn cross3(a: (int, int, int), b: (int, int, int)) -> (int, int, int) {
    (a.1 * b.2 - a.2 * b.1, a.2 * b.0 - a.0 * b.2, a.0 * b.1 - a.1 * b.0)
}

/// Normalization of a spec-level 3-vector, as the kernel computes it:
/// each element scaled by the fixed-point unit and divided by the floor
/// of the length, the zero vector unchanged.
pub open spec fn norm3(a: (int, int, int)) -> (int, int, int) {
    let d = dot3(a, a);
    if d == 0 {
        a
    } else {
        let s = sqrt_floor(d);
        (
            tdiv(a.0 * (FX_ONE as int), s),
            tdiv(a.1 * (FX_ONE as int), s),
            tdiv(a.2 * (FX_ONE as int), s),
        )
    }
}

/// Each component divided by the fixed-point unit: takes a product of two
/// fixed-point vectors back to fixed point.
pub open spec fn divfx3(a: (int, int, int)) -> (int, int, int) {
    (
        tdiv(a.0, FX_ONE as int),
        tdiv(a.1, FX_ONE as int),
        tdiv(a.2, FX_ONE as int),
    )
}

/// Pointwise negation of a spec-level 3-vector.
pub open spec fn neg3(a: (int, int, int)) -> (int, int, int) {
    (-a.0, -a.1, -a.2)
}

/// Pointwise difference of two spec-level 3-vectors.
pub open spec fn sub3(a: (int, int, int), b: (int, int, int)) -> (int, int, int) {
    (a.0 - b.0, a.1 - b.1, a.2 - b.2)
}

/// The component of a spec-level 3-vector selected by `k`.
pub open spec fn sel3(a: (int, int, int), k: int) -> int {
    if k == 0 {
        a.0
    } else if k == 1 {
        a.1
    } else {
        a.2
    }
}

/// True when every component of `a` is within `b` of zero.
pub open spec fn vec3_bounded(a: (int, int, int), b: int) -> bool {
    -b <= a.0 <= b && -b <= a.1 <= b && -b <= a.2 <= b
}

/// The element at row `i`, column `j` of the right-handed view matrix for
/// the given eye position, view direction and up vector, all in fixed
/// point: the rows carry the side, true-up and negated forward basis
/// vectors (normalized, so about one fixed-point unit long), and the last
/// column the negated projections of the eye onto them, rescaled to fixed
/// point.
pub open spec fn look_to_rh_ent(
    eye: (int, int, int),
    dir: (int, int, int),
    up: (int, int, int),
    i: int,
    j: int,
) -> int {
    let f = norm3(dir);
    let s = norm3(divfx3(cross3(f, up)));
    let u = divfx3(cross3(s, f));
    if j == 3 {
        if i == 0 {
            -tdiv(dot3(eye, s), FX_ONE as int)
        } else if i == 1 {
            -tdiv(dot3(eye, u), FX_ONE as int)
        } else if i == 2 {
            tdiv(dot3(eye, f), FX_ONE as int)
        } else {
            FX_ONE as int
        }
    } else {
        if i == 0 {
            sel3(s, j)
        } else if i == 1 {
            sel3(u, j)
        } else if i == 2 {
            -sel3(f, j)
        } else {
            0
        }
    }
}

/// Bounds under which the view-matrix construction cannot overflow: the
/// direction small enough to square, the up vector small enough to cross
/// and square, the eye small enough to project.
pub open spec fn look_vectors_ok(
    eye: (int, int, int),
    dir: (int, int, int),
    up: (int, int, int),
) -> bool {
    vec3_bounded(eye, 10_000_000_000_000) && vec3_bounded(dir, 1_000_000_000) && vec3_bounded(
        up,
        800_000_000,
    )
}

/// Bounds under which a view matrix toward a target point can be built:
/// eye and target small enough that their difference obeys
/// `look_vectors_ok`.
pub open spec fn look_points_ok(
    eye: (int, int, int),
    center: (int, int, int),
    up: (int, int, int),
) -> bool {
    vec3_bounded(eye, 500_000_000) && vec3_bounded(center, 500_000_000) && vec3_bounded(
        up,
        800_000_000,
    )
}

/// The magnitude of a product is the product of the magnitudes.
proof fn lemma_prod_bound(a: int, b: int, ba: int, bb: int)
    requires
        -ba <= a <= ba,
        -bb <= b <= bb,
        0 <= ba,
        0 <= bb,
    ensures
        -(ba * bb) <= a * b <= ba * bb,
{
    assert(-(ba * bb) <= a * b <= ba * bb) by (nonlinear_arith)
        requires
            -ba <= a <= ba,
            -bb <= b <= bb,
            0 <= ba,
            0 <= bb,
    ;
}

/// A quotient by a divisor at least as large as the dividend's magnitude
/// has magnitude at most one.
proof fn lemma_tdiv_small(x: int, s: int)
    requires
        1 <= s,
        -s <= x <= s,
    ensures
        -1 <= tdiv(x, s) <= 1,
{
    lemma_div_by_self(s);
    if x > 0 {
        lemma_div_pos_is_pos(x, s);
        lemma_div_is_ordered(x, s, s);
    } else if x < 0 {
        lemma_div_pos_is_pos(-x, s);
        lemma_div_is_ordered(-x, s, s);
    }
}

/// The inner product of two vectors equals its spec-level tuple form.
pub proof fn lemma_dot3(a: Matrix<3, 1>, b: Matrix<3, 1>)
    ensures
        a.dot_spec(b) == dot3(v3(a), v3(b)),
{
    assert(a.dot_partial(b, 0) == 0);
    assert(a.dot_partial(b, 1) == a.dot_partial(b, 0) + a.ent(0, 0) * b.ent(0, 0));
    assert(a.dot_partial(b, 2) == a.dot_partial(b, 1) + a.ent(1, 0) * b.ent(1, 0));
    assert(a.dot_partial(b, 3) == a.dot_partial(b, 2) + a.ent(2, 0) * b.ent(2, 0));
}

/// What the kernel's `normalized` returns, in tuple form, with the unit
/// bound on every component.
proof fn lemma_normalized_props(v: Matrix<3, 1>, r: Matrix<3, 1>)
    requires
        v.wf(),
        r.wf(),
        v.is_zero() ==> r@ == v@,
        !v.is_zero() ==> forall|i: int|
            0 <= i < 3 ==> #[trigger] r.ent(i, 0) == tdiv(
                v.ent(i, 0) * (FX_ONE as int),
                sqrt_floor(v.dot_spec(v)),
            ),
        forall|i: int| 0 <= i < 3 ==> -(FX_ONE as int) <= #[trigger] r.ent(i, 0) <= FX_ONE as int,
    ensures
        v3(r) == norm3(v3(v)),
        vec3_bounded(v3(r), FX_ONE as int),
{
    lemma_dot3(v, v);
    v.lemma_self_dot_zero_iff(3);
    if v.is_zero() {
        assert(dot3(v3(v), v3(v)) == 0);
        assert(v.ent(0, 0) == 0 && v.ent(1, 0) == 0 && v.ent(2, 0) == 0);
        assert(r.ent(0, 0) == v.ent(0, 0) && r.ent(1, 0) == v.ent(1, 0) && r.ent(2, 0) == v.ent(
            2,
            0,
        ));
    } else {
        assert(v.dot_spec(v) == dot3(v3(v), v3(v)));
        assert(dot3(v3(v), v3(v)) != 0);
    }
}

/// Assembles the element-wise description of a right-handed view matrix
/// from its basis vectors and translations.
proof fn lemma_look_assemble(
    eye: (int, int, int),
    dir: (int, int, int),
    up: (int, int, int),
    r: Matrix<4, 4>,
)
    requires
        r.ent(0, 0) == norm3(divfx3(cross3(norm3(dir), up))).0,
        r.ent(0, 1) == norm3(divfx3(cross3(norm3(dir), up))).1,
        r.ent(0, 2) == norm3(divfx3(cross3(norm3(dir), up))).2,
        r.ent(1, 0) == divfx3(cross3(norm3(divfx3(cross3(norm3(dir), up))), norm3(dir))).0,
        r.ent(1, 1) == divfx3(cross3(norm3(divfx3(cross3(norm3(dir), up))), norm3(dir))).1,
        r.ent(1, 2) == divfx3(cross3(norm3(divfx3(cross3(norm3(dir), up))), norm3(dir))).2,
        r.ent(2, 0) == -norm3(dir).0,
        r.ent(2, 1) == -norm3(dir).1,
        r.ent(2, 2) == -norm3(dir).2,
        r.ent(3, 0) == 0,
        r.ent(3, 1) == 0,
        r.ent(3, 2) == 0,
        r.ent(0, 3) == -tdiv(dot3(eye, norm3(divfx3(cross3(norm3(dir), up)))), FX_ONE as int),
        r.ent(1, 3) == -tdiv(
            dot3(eye, divfx3(cross3(norm3(divfx3(cross3(norm3(dir), up))), norm3(dir)))),
            FX_ONE as int,
        ),
        r.ent(2, 3) == tdiv(dot3(eye, norm3(dir)), FX_ONE as int),
        r.ent(3, 3) == FX_ONE as int,
    ensures
        forall|i: int, j: int|
            0 <= i < 4 && 0 <= j < 4 ==> #[trigger] r.ent(i, j) == look_to_rh_ent(
                eye,
                dir,
                up,
                i,
                j,
            ),
{
}

/// A perspective projection: field of view in fixed-point radians, aspect
/// ratio, near and far plane distances, all in fixed point.
pub struct Prespective {
    pub fovy_rad: i64,
    pub aspect: i64,
    pub near: i64,
    pub far: i64,
}

impl Prespective {
    /// The construction-time invariant: the near plane closer than the far
    /// plane, a nonzero aspect ratio, planes small enough that the matrix
    /// elements cannot overflow, and a field of view whose half-angle has
    /// a nonzero fixed-point sine (the focal scalar divides by it).
    pub open spec fn valid(self) -> bool {
        &&& self.near < self.far
        &&& self.aspect != 0
        &&& -2_000_000_000 <= self.near <= 2_000_000_000
        &&& -2_000_000_000 <= self.far <= 2_000_000_000
        &&& sin_fx_spec(tdiv(self.fovy_rad as int, 2)) != 0
    }

    /// Decides `valid` at run time.
    pub fn is_valid(&self) -> (b: bool)
        ensures
            b == self.valid(),
    {
        self.near < self.far && self.aspect != 0 && -2_000_000_000 <= self.near
            && self.near <= 2_000_000_000 && -2_000_000_000 <= self.far && self.far
            <= 2_000_000_000 && sin_fx(div_trunc(self.fovy_rad, 2)) != 0
    }

    /// The projection matrix, or `None` exactly when the parameters break
    /// the construction-time invariant.
    pub fn to_matrix(&self) -> (r: Option<Matrix<4, 4>>)
        ensures
            r is Some <==> self.valid(),
            r is Some ==> (r->Some_0).wf() && forall|i: int, j: int|
                0 <= i < 4 && 0 <= j < 4 ==> #[trigger] (r->Some_0).ent(i, j) == perspective_ent(
                    *self,
                    i,
                    j,
                ),
    {
        if self.is_valid() {
            Some(Matrix::<4, 4>::perspective(self))
        } else {
            None
        }
    }
}

/// The element at row `i`, column `j` of the fixed-point perspective
/// matrix: the standard form, with the focal scalar `f` the fixed-point
/// cotangent of half the field of view.
pub open spec fn perspective_ent(p: Prespective, i: int, j: int) -> int {
    let h = tdiv(p.fovy_rad as int, 2);
    let f = tdiv(cos_fx_spec(h) * (FX_ONE as int), sin_fx_spec(h));
    if i == 0 && j == 0 {
        tdiv(f * (FX_ONE as int), p.aspect as int)
    } else if i == 1 && j == 1 {
        f
    } else if i == 2 && j == 2 {
        tdiv((p.far + p.near) * (FX_ONE as int), p.near - p.far)
    } else if i == 3 && j == 2 {
        -(FX_ONE as int)
    } else if i == 2 && j == 3 {
        tdiv(2 * p.far * p.near, p.near - p.far)
    } else {
        0
    }
}

impl Matrix<4, 4> {
    /// The fixed-point perspective projection matrix.
    pub fn perspective(p: &Prespective) -> (r: Self)
        requires
            p.valid(),
        ensures
            r.wf(),
            forall|i: int, j: int|
                0 <= i < 4 && 0 <= j < 4 ==> #[trigger] r.ent(i, j) == perspective_ent(*p, i, j),
    {
        let h = div_trunc(p.fovy_rad, 2);
        let sh = sin_fx(h);
        let ch = cos_fx(h);
        proof {
            crate::lemma_tdiv_in_range((ch as int) * (FX_ONE as int), sh as int);
        }
        let f = div_trunc(ch * FX_ONE, sh);
        proof {
            crate::lemma_tdiv_in_range((f as int) * (FX_ONE as int), p.aspect as int);
        }
        let e00 = div_trunc(f * FX_ONE, p.aspect);
        let e22 = div_trunc((p.far + p.near) * FX_ONE, p.near - p.far);
        proof {
            assert(-8_000_000_000_000_000_000 <= 2 * (p.far as int) * (p.near as int)
                <= 8_000_000_000_000_000_000) by (nonlinear_arith)
                requires
                    -2_000_000_000 <= p.far as int <= 2_000_000_000,
                    -2_000_000_000 <= p.near as int <= 2_000_000_000,
            ;
        }
        let e23 = div_trunc(2 * p.far * p.near, p.near - p.far);
        let cols: [[i64; 4]; 4] = [
            [e00, 0, 0, 0],
            [0, f, 0, 0],
            [0, 0, e22, -FX_ONE],
            [0, 0, e23, 0],
        ];
        let r = Matrix::<4, 4>::from_cols(cols);
        proof {
            assert forall|i: int, j: int| 0 <= i < 4 && 0 <= j < 4 implies #[trigger] r.ent(i, j)
                == perspective_ent(*p, i, j) by {
                assert(r.ent(i, j) == cols@[j]@[i]);
            }
        }
        r
    }
}

/// The element at row `i`, column `j` of the homogeneous rotation about
/// the x axis by fixed-point angle `a`.
pub open spec fn rotate_x_ent(a: int, i: int, j: int) -> int {
    let c = cos_fx_spec(a);
    let s = sin_fx_spec(a);
    if i == 0 && j == 0 {
        FX_ONE as int
    } else if i == 3 && j == 3 {
        FX_ONE as int
    } else if i == 1 && j == 1 {
        c
    } else if i == 1 && j == 2 {
        -s
    } else if i == 2 && j == 1 {
        s
    } else if i == 2 && j == 2 {
        c
    } else {
        0
    }
}

/// The element at row `i`, column `j` of the homogeneous rotation about
/// the y axis by fixed-point angle `a`.
pub open spec fn rotate_y_ent(a: int, i: int, j: int) -> int {
    let c = cos_fx_spec(a);
    let s = sin_fx_spec(a);
    if i == 1 && j == 1 {
        FX_ONE as int
    } else if i == 3 && j == 3 {
        FX_ONE as int
    } else if i == 0 && j == 0 {
        c
    } else if i == 0 && j == 2 {
        s
    } else if i == 2 && j == 0 {
        -s
    } else if i == 2 && j == 2 {
        c
    } else {
        0
    }
}

/// The element at row `i`, column `j` of the homogeneous rotation about
/// the z axis by fixed-point angle `a`.
pub open spec fn rotate_z_ent(a: int, i: int, j: int) -> int {
    let c = cos_fx_spec(a);
    let s = sin_fx_spec(a);
    if i == 2 && j == 2 {
        FX_ONE as int
    } else if i == 3 && j == 3 {
        FX_ONE as int
    } else if i == 0 && j == 0 {
        c
    } else if i == 0 && j == 1 {
        -s
    } else if i == 1 && j == 0 {
        s
    } else if i == 1 && j == 1 {
        c
    } else {
        0
    }
}

/// One element of the fixed-point product of two 4 x 4 matrices whose
/// elements are given by `a` and `b`: the four-term inner product,
/// rescaled by the fixed-point unit.
pub open spec fn mulfix_ent_of(
    a: spec_fn(int, int) -> int,
    b: spec_fn(int, int) -> int,
    i: int,
    j: int,
) -> int {
    tdiv(a(i, 0) * b(0, j) + a(i, 1) * b(1, j) + a(i, 2) * b(2, j) + a(i, 3) * b(3, j), FX_ONE as int)
}

/// The element at row `i`, column `j` of the combined Euler rotation.
/// The composition order is fixed as `Rz * Ry * Rx`.
pub open spec fn euler_ent(ax: int, ay: int, az: int, i: int, j: int) -> int {
    mulfix_ent_of(
        |i2: int, j2: int|
            mulfix_ent_of(
                |i3: int, j3: int| rotate_z_ent(az, i3, j3),
                |i3: int, j3: int| rotate_y_ent(ay, i3, j3),
                i2,
                j2,
            ),
        |i2: int, j2: int| rotate_x_ent(ax, i2, j2),
        i,
        j,
    )
}

/// The four-term unfolding of the multiplication sum on 4 x 4 matrices.
pub proof fn lemma_mul_ent4(a: Matrix<4, 4>, b: Matrix<4, 4>, i: int, j: int)
    ensures
        a.mul_ent(b, i, j, 4) == a.ent(i, 0) * b.ent(0, j) + a.ent(i, 1) * b.ent(1, j) + a.ent(
            i,
            2,
        ) * b.ent(2, j) + a.ent(i, 3) * b.ent(3, j),
{
    assert(a.mul_ent(b, i, j, 0) == 0);
    assert(a.mul_ent(b, i, j, 1) == a.mul_ent(b, i, j, 0) + a.ent(i, 0) * b.ent(0, j));
    assert(a.mul_ent(b, i, j, 2) == a.mul_ent(b, i, j, 1) + a.ent(i, 1) * b.ent(1, j));
    assert(a.mul_ent(b, i, j, 3) == a.mul_ent(b, i, j, 2) + a.ent(i, 2) * b.ent(2, j));
    assert(a.mul_ent(b, i, j, 4) == a.mul_ent(b, i, j, 3) + a.ent(i, 3) * b.ent(3, j));
}

impl Matrix<4, 4> {
    /// True when every element has magnitude at most `b`.
    pub open spec fn ents_bounded(self, b: int) -> bool {
        forall|i: int, j: int| 0 <= i < 4 && 0 <= j < 4 ==> -b <= #[trigger] self.ent(i, j) <= b
    }

    /// Bounded factors multiply without overflow, and the fixed-point
    /// product is bounded by four rescaled element products.
    pub proof fn lemma_mulfix_ok(self, rhs: Matrix<4, 4>, ba: int, bb: int)
        requires
            self.ents_bounded(ba),
            rhs.ents_bounded(bb),
            0 <= ba,
            0 <= bb,
            4 * (ba * bb) <= i64::MAX as int,
        ensures
            self.mul_ok(rhs),
            forall|i: int, j: int|
                0 <= i < 4 && 0 <= j < 4 ==> -(4 * (ba * bb)) <= #[trigger] self.mul_ent(
                    rhs,
                    i,
                    j,
                    4,
                ) <= 4 * (ba * bb),
    {
        let q = (i64::MAX as int) / 4;
        super::matrices::lemma_scaled_sum_bound(4, 4, i64::MAX as int);
        assert(4 * ((i64::MAX as int) / 4) <= i64::MAX as int);
        assert forall|i: int, m2: int, j: int|
            #![trigger self.ent(i, m2), rhs.ent(m2, j)]
            0 <= i < 4 && 0 <= m2 < 4 && 0 <= j < 4 implies -q <= self.ent(i, m2) * rhs.ent(m2, j)
            <= q by {
            lemma_prod_bound(self.ent(i, m2), rhs.ent(m2, j), ba, bb);
            assert(ba * bb <= q) by (nonlinear_arith)
                requires
                    4 * (ba * bb) <= i64::MAX as int,
                    q == (i64::MAX as int) / 4,
                    4 * q + 3 >= i64::MAX as int,
                    0 <= ba * bb,
            ;
        }
        assert forall|i: int, j: int| 0 <= i < 4 && 0 <= j < 4 implies -(4 * (ba * bb))
            <= #[trigger] self.mul_ent(rhs, i, j, 4) <= 4 * (ba * bb) by {
            lemma_mul_ent4(self, rhs, i, j);
            lemma_prod_bound(self.ent(i, 0), rhs.ent(0, j), ba, bb);
            lemma_prod_bound(self.ent(i, 1), rhs.ent(1, j), ba, bb);
            lemma_prod_bound(self.ent(i, 2), rhs.ent(2, j), ba, bb);
            lemma_prod_bound(self.ent(i, 3), rhs.ent(3, j), ba, bb);
        }
    }

    /// The fixed-point matrix product: standard multiplication, each
    /// element rescaled by the fixed-point unit.
    pub fn mul_matrix_fixed(&self, rhs: &Matrix<4, 4>) -> (r: Self)
        requires
            self.wf(),
            rhs.wf(),
            self.mul_ok(*rhs),
        ensures
            r.wf(),
            forall|i: int, j: int|
                0 <= i < 4 && 0 <= j < 4 ==> #[trigger] r.ent(i, j) == tdiv(
                    self.mul_ent(*rhs, i, j, 4),
                    FX_ONE as int,
                ),
    {
        let raw = self.mul_matrix(rhs);
        raw.div_scalar(FX_ONE)
    }

    /// The homogeneous rotation about the x axis.
    pub fn rotate_x(a: i64) -> (r: Self)
        ensures
            r.wf(),
            forall|i: int, j: int|
                0 <= i < 4 && 0 <= j < 4 ==> #[trigger] r.ent(i, j) == rotate_x_ent(a as int, i, j),
            r.ents_bounded(FX_ONE as int),
    {
        let c = cos_fx(a);
        let s = sin_fx(a);
        let cols: [[i64; 4]; 4] = [
            [FX_ONE, 0, 0, 0],
            [0, c, s, 0],
            [0, -s, c, 0],
            [0, 0, 0, FX_ONE],
        ];
        let r = Matrix::<4, 4>::from_cols(cols);
        proof {
            assert forall|i: int, j: int| 0 <= i < 4 && 0 <= j < 4 implies #[trigger] r.ent(i, j)
                == rotate_x_ent(a as int, i, j) && -(FX_ONE as int) <= r.ent(i, j) <= FX_ONE as int by {
                assert(r.ent(i, j) == cols@[j]@[i]);
            }
        }
        r
    }

    /// The homogeneous rotation about the y axis.
    pub fn rotate_y(a: i64) -> (r: Self)
        ensures
            r.wf(),
            forall|i: int, j: int|
                0 <= i < 4 && 0 <= j < 4 ==> #[trigger] r.ent(i, j) == rotate_y_ent(a as int, i, j),
            r.ents_bounded(FX_ONE as int),
    {
        let c = cos_fx(a);
        let s = sin_fx(a);
        let cols: [[i64; 4]; 4] = [
            [c, 0, -s, 0],
            [0, FX_ONE, 0, 0],
            [s, 0, c, 0],
            [0, 0, 0, FX_ONE],
        ];
        let r = Matrix::<4, 4>::from_cols(cols);
        proof {
            assert forall|i: int, j: int| 0 <= i < 4 && 0 <= j < 4 implies #[trigger] r.ent(i, j)
                == rotate_y_ent(a as int, i, j) && -(FX_ONE as int) <= r.ent(i, j) <= FX_ONE as int by {
                assert(r.ent(i, j) == cols@[j]@[i]);
            }
        }
        r
    }

    /// The homogeneous rotation about the z axis.
    pub fn rotate_z(a: i64) -> (r: Self)
        ensures
            r.wf(),
            forall|i: int, j: int|
                0 <= i < 4 && 0 <= j < 4 ==> #[trigger] r.ent(i, j) == rotate_z_ent(a as int, i, j),
            r.ents_bounded(FX_ONE as int),
    {
        let c = cos_fx(a);
        let s = sin_fx(a);
        let cols: [[i64; 4]; 4] = [
            [c, s, 0, 0],
            [-s, c, 0, 0],
            [0, 0, FX_ONE, 0],
            [0, 0, 0, FX_ONE],
        ];
        let r = Matrix::<4, 4>::from_cols(cols);
        proof {
            assert forall|i: int, j: int| 0 <= i < 4 && 0 <= j < 4 implies #[trigger] r.ent(i, j)
                == rotate_z_ent(a as int, i, j) && -(FX_ONE as int) <= r.ent(i, j) <= FX_ONE as int by {
                assert(r.ent(i, j) == cols@[j]@[i]);
            }
        }
        r
    }

    /// The combined Euler rotation, composed as `Rz * Ry * Rx`.
    pub fn euler_rotation(ax: i64, ay: i64, az: i64) -> (r: Self)
        ensures
            r.wf(),
            forall|i: int, j: int|
                0 <= i < 4 && 0 <= j < 4 ==> #[trigger] r.ent(i, j) == euler_ent(
                    ax as int,
                    ay as int,
                    az as int,
                    i,
                    j,
                ),
            r.ents_bounded(16 * (FX_ONE as int)),
    {
        let rz = Self::rotate_z(az);
        let ry = Self::rotate_y(ay);
        let rx = Self::rotate_x(ax);
        proof {
            rz.lemma_mulfix_ok(ry, FX_ONE as int, FX_ONE as int);
        }
        let zy = rz.mul_matrix_fixed(&ry);
        proof {
            assert forall|i: int, j: int| 0 <= i < 4 && 0 <= j < 4 implies -(4 * (FX_ONE as int))
                <= #[trigger] zy.ent(i, j) <= 4 * (FX_ONE as int) by {
                assert(4 * ((FX_ONE as int) * (FX_ONE as int)) == (4 * (FX_ONE as int)) * (
                FX_ONE as int)) by (nonlinear_arith);
                crate::lemma_tdiv_shrink(rz.mul_ent(ry, i, j, 4), FX_ONE as int, 4 * (
                FX_ONE as int));
            }
            assert(zy.ents_bounded(4 * (FX_ONE as int)));
            zy.lemma_mulfix_ok(rx, 4 * (FX_ONE as int), FX_ONE as int);
        }
        let r = zy.mul_matrix_fixed(&rx);
        proof {
            assert forall|i: int, j: int| 0 <= i < 4 && 0 <= j < 4 implies -(16 * (FX_ONE as int))
                <= #[trigger] r.ent(i, j) <= 16 * (FX_ONE as int) by {
                assert(4 * ((4 * (FX_ONE as int)) * (FX_ONE as int)) == (16 * (FX_ONE as int)) * (
                FX_ONE as int)) by (nonlinear_arith);
                crate::lemma_tdiv_shrink(zy.mul_ent(rx, i, j, 4), FX_ONE as int, 16 * (
                FX_ONE as int));
            }
            assert forall|i: int, j: int| 0 <= i < 4 && 0 <= j < 4 implies #[trigger] r.ent(i, j)
                == euler_ent(ax as int, ay as int, az as int, i, j) by {
                lemma_mul_ent4(zy, rx, i, j);
                assert forall|i2: int, j2: int| 0 <= i2 < 4 && 0 <= j2 < 4 implies #[trigger] zy.ent(
                    i2,
                    j2,
                ) == mulfix_ent_of(
                    |i3: int, j3: int| rotate_z_ent(az as int, i3, j3),
                    |i3: int, j3: int| rotate_y_ent(ay as int, i3, j3),
                    i2,
                    j2,
                ) by {
                    lemma_mul_ent4(rz, ry, i2, j2);
                }
            }
        }
        r
    }
}

/// A nonzero vector of at least unit length normalizes to a vector of
/// unit length, up to the truncation of its three components: the squared
/// length of the result is within ten fixed-point units of the squared
/// fixed-point unit.  Vectors shorter than one unit are excluded: their
/// components truncate too coarsely (the all-ones vector is such an
/// input).
pub proof fn lemma_normalized_unit_length(a: (int, int, int))
    requires
        dot3(a, a) >= (FX_ONE as int) * (FX_ONE as int),
    ensures
        ({
            let r = norm3(a);
            (FX_ONE as int) * (FX_ONE as int) - 10 * (FX_ONE as int) <= dot3(r, r) && dot3(r, r)
                <= (FX_ONE as int) * (FX_ONE as int) + 10 * (FX_ONE as int)
        }),
{
    let fx = 65536int;
    assert(FX_ONE as int == fx);
    let d = dot3(a, a);
    assert(d > 0) by (nonlinear_arith)
        requires
            d >= 65536int * 65536int,
    ;
    let s = sqrt_floor(d);
    assert(is_sqrt_floor(d, s)) by {
        super::vectors::lemma_sqrt_floor_exists(d);
    }
    assert(s >= fx) by (nonlinear_arith)
        requires
            0 <= s,
            d < (s + 1) * (s + 1),
            d >= fx * fx,
            fx == 65536int,
    ;
    assert(-s <= a.0 <= s && -s <= a.1 <= s && -s <= a.2 <= s) by (nonlinear_arith)
        requires
            0 <= s,
            d == a.0 * a.0 + a.1 * a.1 + a.2 * a.2,
            d < (s + 1) * (s + 1),
    ;
    let r = norm3(a);
    let q0 = tdiv(a.0 * fx, s);
    let q1 = tdiv(a.1 * fx, s);
    let q2 = tdiv(a.2 * fx, s);
    assert(r == (q0, q1, q2));
    crate::lemma_tdiv_bracket(a.0 * fx, s);
    crate::lemma_tdiv_bracket(a.1 * fx, s);
    crate::lemma_tdiv_bracket(a.2 * fx, s);
    let u0 = if q0 >= 0 {
        q0
    } else {
        -q0
    };
    let u1 = if q1 >= 0 {
        q1
    } else {
        -q1
    };
    let u2 = if q2 >= 0 {
        q2
    } else {
        -q2
    };
    let y0 = if a.0 * fx >= 0 {
        a.0 * fx
    } else {
        -(a.0 * fx)
    };
    let y1 = if a.1 * fx >= 0 {
        a.1 * fx
    } else {
        -(a.1 * fx)
    };
    let y2 = if a.2 * fx >= 0 {
        a.2 * fx
    } else {
        -(a.2 * fx)
    };
    // magnitudes square to the same values, and sum to the scaled length
    assert(y0 * y0 == (fx * fx) * (a.0 * a.0)) by (nonlinear_arith)
        requires
            y0 == if a.0 * fx >= 0 {
                a.0 * fx
            } else {
                -(a.0 * fx)
            },
    ;
    assert(y1 * y1 == (fx * fx) * (a.1 * a.1)) by (nonlinear_arith)
        requires
            y1 == if a.1 * fx >= 0 {
                a.1 * fx
            } else {
                -(a.1 * fx)
            },
    ;
    assert(y2 * y2 == (fx * fx) * (a.2 * a.2)) by (nonlinear_arith)
        requires
            y2 == if a.2 * fx >= 0 {
                a.2 * fx
            } else {
                -(a.2 * fx)
            },
    ;
    assert((fx * fx) * (a.0 * a.0) + (fx * fx) * (a.1 * a.1) + (fx * fx) * (a.2 * a.2) == (fx * fx)
        * d) by (nonlinear_arith)
        requires
            d == a.0 * a.0 + a.1 * a.1 + a.2 * a.2,
    ;
    assert(y0 * y0 + y1 * y1 + y2 * y2 == (fx * fx) * d);
    let u = u0 * u0 + u1 * u1 + u2 * u2;
    assert(dot3(r, r) == u) by (nonlinear_arith)
        requires
            r == (q0, q1, q2),
            u == u0 * u0 + u1 * u1 + u2 * u2,
            u0 == if q0 >= 0 {
                q0
            } else {
                -q0
            },
            u1 == if q1 >= 0 {
                q1
            } else {
                -q1
            },
            u2 == if q2 >= 0 {
                q2
            } else {
                -q2
            },
    ;
    // scaled magnitudes never exceed s times the unit
    assert(y0 <= s * fx && y1 <= s * fx && y2 <= s * fx) by (nonlinear_arith)
        requires
            -s <= a.0 <= s,
            -s <= a.1 <= s,
            -s <= a.2 <= s,
            fx > 0,
            y0 == if a.0 * fx >= 0 {
                a.0 * fx
            } else {
                -(a.0 * fx)
            },
            y1 == if a.1 * fx >= 0 {
                a.1 * fx
            } else {
                -(a.1 * fx)
            },
            y2 == if a.2 * fx >= 0 {
                a.2 * fx
            } else {
                -(a.2 * fx)
            },
    ;
    // so no component of the result exceeds the unit
    assert(u0 <= fx && u1 <= fx && u2 <= fx) by (nonlinear_arith)
        requires
            s >= 1,
            0 <= u0 && u0 * s <= y0,
            0 <= u1 && u1 * s <= y1,
            0 <= u2 && u2 * s <= y2,
            y0 <= s * fx,
            y1 <= s * fx,
            y2 <= s * fx,
    ;
    // the brackets, squared
    assert((u0 * u0) * (s * s) <= y0 * y0) by (nonlinear_arith)
        requires
            0 <= u0,
            0 <= y0,
            u0 * s <= y0,
            s >= 1,
    ;
    assert((u1 * u1) * (s * s) <= y1 * y1) by (nonlinear_arith)
        requires
            0 <= u1,
            0 <= y1,
            u1 * s <= y1,
            s >= 1,
    ;
    assert((u2 * u2) * (s * s) <= y2 * y2) by (nonlinear_arith)
        requires
            0 <= u2,
            0 <= y2,
            u2 * s <= y2,
            s >= 1,
    ;
    assert(y0 * y0 < ((u0 + 1) * (u0 + 1)) * (s * s)) by (nonlinear_arith)
        requires
            0 <= y0,
            y0 < (u0 + 1) * s,
            0 <= u0,
            s >= 1,
    ;
    assert(y1 * y1 < ((u1 + 1) * (u1 + 1)) * (s * s)) by (nonlinear_arith)
        requires
            0 <= y1,
            y1 < (u1 + 1) * s,
            0 <= u1,
            s >= 1,
    ;
    assert(y2 * y2 < ((u2 + 1) * (u2 + 1)) * (s * s)) by (nonlinear_arith)
        requires
            0 <= y2,
            y2 < (u2 + 1) * s,
            0 <= u2,
            s >= 1,
    ;
    // upper bound: sum the squared brackets against the scaled length
    assert(u * (s * s) == (u0 * u0) * (s * s) + (u1 * u1) * (s * s) + (u2 * u2) * (s * s))
        by (nonlinear_arith)
        requires
            u == u0 * u0 + u1 * u1 + u2 * u2,
    ;
    assert(u * (s * s) <= (fx * fx) * d);
    assert(d <= s * s + 2 * s) by (nonlinear_arith)
        requires
            d < (s + 1) * (s + 1),
    ;
    assert((fx * fx) * d <= (fx * fx) * (s * s) + (2 * (fx * fx)) * s) by (nonlinear_arith)
        requires
            d <= s * s + 2 * s,
            fx == 65536int,
    ;
    assert(u <= fx * fx + 2 * fx) by (nonlinear_arith)
        requires
            u * (s * s) <= (fx * fx) * (s * s) + (2 * (fx * fx)) * s,
            s >= fx,
            u >= 0,
            fx == 65536int,
    ;
    // lower bound: the strict brackets force the sum up to the unit square
    assert((fx * fx) * d >= (fx * fx) * (s * s)) by (nonlinear_arith)
        requires
            d >= s * s,
            fx == 65536int,
    ;
    assert((fx * fx) * (s * s) < ((u + 2 * (u0 + u1 + u2) + 3)) * (s * s)) by (nonlinear_arith)
        requires
            (fx * fx) * (s * s) <= (fx * fx) * d,
            (fx * fx) * d == y0 * y0 + y1 * y1 + y2 * y2,
            y0 * y0 < ((u0 + 1) * (u0 + 1)) * (s * s),
            y1 * y1 < ((u1 + 1) * (u1 + 1)) * (s * s),
            y2 * y2 < ((u2 + 1) * (u2 + 1)) * (s * s),
            u == u0 * u0 + u1 * u1 + u2 * u2,
    ;
    assert(fx * fx < u + 2 * (u0 + u1 + u2) + 3) by (nonlinear_arith)
        requires
            (fx * fx) * (s * s) < (u + 2 * (u0 + u1 + u2) + 3) * (s * s),
            s >= 1,
    ;
    assert(u >= fx * fx - 10 * fx)
    by (nonlinear_arith)
        requires
            fx * fx < u + 2 * (u0 + u1 + u2) + 3,
            u0 <= fx,
            u1 <= fx,
            u2 <= fx,
            fx == 65536int,
    ;
}

/// Normalization never produces a component larger than one fixed-point
/// unit in magnitude: a zero vector stays zero, and otherwise each scaled
/// quotient is bounded by its divisor times the unit.
pub proof fn lemma_norm3_bounded(a: (int, int, int))
    ensures
        vec3_bounded(norm3(a), FX_ONE as int),
{
    let d = dot3(a, a);
    assert(d >= a.0 * a.0 && d >= a.1 * a.1 && d >= a.2 * a.2 && d >= 0) by (nonlinear_arith)
        requires
            d == a.0 * a.0 + a.1 * a.1 + a.2 * a.2,
    ;
    if d == 0 {
        assert(a.0 == 0 && a.1 == 0 && a.2 == 0) by (nonlinear_arith)
            requires
                a.0 * a.0 + a.1 * a.1 + a.2 * a.2 == 0,
        ;
    } else {
        let s = sqrt_floor(d);
        assert(is_sqrt_floor(d, s)) by {
            super::vectors::lemma_sqrt_floor_exists(d);
        }
        assert(s >= 1) by {
            if s == 0 {
                assert((0int + 1) * (0int + 1) == 1);
            }
        }
        assert(-s <= a.0 <= s && -s <= a.1 <= s && -s <= a.2 <= s) by (nonlinear_arith)
            requires
                0 <= s,
                a.0 * a.0 <= d,
                a.1 * a.1 <= d,
                a.2 * a.2 <= d,
                d < (s + 1) * (s + 1),
        ;
        assert(-(s * 65536) <= a.0 * 65536 <= s * 65536 && -(s * 65536) <= a.1 * 65536 <= s * 65536
            && -(s * 65536) <= a.2 * 65536 <= s * 65536) by (nonlinear_arith)
            requires
                -s <= a.0 <= s,
                -s <= a.1 <= s,
                -s <= a.2 <= s,
                s >= 1,
        ;
        crate::lemma_tdiv_shrink(a.0 * 65536, s, 65536);
        crate::lemma_tdiv_shrink(a.1 * 65536, s, 65536);
        crate::lemma_tdiv_shrink(a.2 * 65536, s, 65536);
    }
}

impl Matrix<4, 4> {
    /// The matrix's elements, as four columns of four scalars each.
    pub fn to_cols(&self) -> (r: [[i64; 4]; 4])
        requires
            self.wf(),
        ensures
            forall|i: int, j: int|
                0 <= i < 4 && 0 <= j < 4 ==> #[trigger] r@[j]@[i] == self.ent(i, j),
    {
        [
            [self.get(0, 0), self.get(1, 0), self.get(2, 0), self.get(3, 0)],
            [self.get(0, 1), self.get(1, 1), self.get(2, 1), self.get(3, 1)],
            [self.get(0, 2), self.get(1, 2), self.get(2, 2), self.get(3, 2)],
            [self.get(0, 3), self.get(1, 3), self.get(2, 3), self.get(3, 3)],
        ]
    }
}

/// A 4 x 4 homogeneous transform built from camera vectors.
pub trait TransformMatrix: Sized {
    /// The vector type the builders take.
    type Sub;

    /// Well-formedness of the built matrix.
    spec fn tm_wf(&self) -> bool;

    /// The element at row `i`, column `j` of the built matrix.
    spec fn tm_ent(&self, i: int, j: int) -> int;

    /// Bounds under which the direction-based builders cannot overflow.
    spec fn vectors_ok(eye: &Self::Sub, dir: &Self::Sub, up: &Self::Sub) -> bool;

    /// Bounds under which the target-based builders cannot overflow.
    spec fn points_ok(eye: &Self::Sub, center: &Self::Sub, up: &Self::Sub) -> bool;

    /// The element the right-handed direction-based builder produces.
    spec fn to_rh_ent(eye: &Self::Sub, dir: &Self::Sub, up: &Self::Sub, i: int, j: int) -> int;

    /// The element the left-handed direction-based builder produces.
    spec fn to_lh_ent(eye: &Self::Sub, dir: &Self::Sub, up: &Self::Sub, i: int, j: int) -> int;

    /// The element the right-handed target-based builder produces.
    spec fn at_rh_ent(eye: &Self::Sub, center: &Self::Sub, up: &Self::Sub, i: int, j: int) -> int;

    /// The element the left-handed target-based builder produces.
    spec fn at_lh_ent(eye: &Self::Sub, center: &Self::Sub, up: &Self::Sub, i: int, j: int) -> int;

    /// The right-handed view matrix for an eye looking along `dir`.
    fn look_to_rh(eye: &Self::Sub, dir: &Self::Sub, up: &Self::Sub) -> (r: Self)
        requires
            Self::vectors_ok(eye, dir, up),
        ensures
            r.tm_wf(),
            forall|i: int, j: int|
                0 <= i < 4 && 0 <= j < 4 ==> #[trigger] r.tm_ent(i, j) == Self::to_rh_ent(
                    eye,
                    dir,
                    up,
                    i,
                    j,
                ),
    ;

    /// The left-handed view matrix: the right-handed one for the negated
    /// direction.
    fn look_to_lh(eye: &Self::Sub, dir: &Self::Sub, up: &Self::Sub) -> (r: Self)
        requires
            Self::vectors_ok(eye, dir, up),
        ensures
            r.tm_wf(),
            forall|i: int, j: int|
                0 <= i < 4 && 0 <= j < 4 ==> #[trigger] r.tm_ent(i, j) == Self::to_lh_ent(
                    eye,
                    dir,
                    up,
                    i,
                    j,
                ),
    ;

    /// The right-handed view matrix for an eye looking at `center`.
    fn look_at_rh(eye: &Self::Sub, center: &Self::Sub, up: &Self::Sub) -> (r: Self)
        requires
            Self::points_ok(eye, center, up),
        ensures
            r.tm_wf(),
            forall|i: int, j: int|
                0 <= i < 4 && 0 <= j < 4 ==> #[trigger] r.tm_ent(i, j) == Self::at_rh_ent(
                    eye,
                    center,
                    up,
                    i,
                    j,
                ),
    ;

    /// The left-handed view matrix for an eye looking at `center`.
    fn look_at_lh(eye: &Self::Sub, center: &Self::Sub, up: &Self::Sub) -> (r: Self)
        requires
            Self::points_ok(eye, center, up),
        ensures
            r.tm_wf(),
            forall|i: int, j: int|
                0 <= i < 4 && 0 <= j < 4 ==> #[trigger] r.tm_ent(i, j) == Self::at_lh_ent(
                    eye,
                    center,
                    up,
                    i,
                    j,
                ),
    ;
}

impl TransformMatrix for Matrix<4, 4> {
    type Sub = Matrix<3, 1>;

    open spec fn tm_wf(&self) -> bool {
        self.wf()
    }

    open spec fn tm_ent(&self, i: int, j: int) -> int {
        self.ent(i, j)
    }

    open spec fn vectors_ok(eye: &Matrix<3, 1>, dir: &Matrix<3, 1>, up: &Matrix<3, 1>) -> bool {
        eye.wf() && dir.wf() && up.wf() && look_vectors_ok(v3(*eye), v3(*dir), v3(*up))
    }

    open spec fn points_ok(eye: &Matrix<3, 1>, center: &Matrix<3, 1>, up: &Matrix<3, 1>) -> bool {
        eye.wf() && center.wf() && up.wf() && look_points_ok(v3(*eye), v3(*center), v3(*up))
    }

    open spec fn to_rh_ent(
        eye: &Matrix<3, 1>,
        dir: &Matrix<3, 1>,
        up: &Matrix<3, 1>,
        i: int,
        j: int,
    ) -> int {
        look_to_rh_ent(v3(*eye), v3(*dir), v3(*up), i, j)
    }

    open spec fn to_lh_ent(
        eye: &Matrix<3, 1>,
        dir: &Matrix<3, 1>,
        up: &Matrix<3, 1>,
        i: int,
        j: int,
    ) -> int {
        look_to_rh_ent(v3(*eye), neg3(v3(*dir)), v3(*up), i, j)
    }

    open spec fn at_rh_ent(
        eye: &Matrix<3, 1>,
        center: &Matrix<3, 1>,
        up: &Matrix<3, 1>,
        i: int,
        j: int,
    ) -> int {
        look_to_rh_ent(v3(*eye), sub3(v3(*center), v3(*eye)), v3(*up), i, j)
    }

    open spec fn at_lh_ent(
        eye: &Matrix<3, 1>,
        center: &Matrix<3, 1>,
        up: &Matrix<3, 1>,
        i: int,
        j: int,
    ) -> int {
        look_to_rh_ent(v3(*eye), neg3(sub3(v3(*center), v3(*eye))), v3(*up), i, j)
    }

    #[verifier::rlimit(100)]
    #[verifier::spinoff_prover]
    fn look_to_rh(eye: &Matrix<3, 1>, dir: &Matrix<3, 1>, up: &Matrix<3, 1>) -> (r: Matrix<4, 4>) {
        proof {
            assert forall|i: int| 0 <= i < 3 implies -((i64::MAX as int) / 3) <= #[trigger] dir.ent(
                i,
                0,
            ) * dir.ent(i, 0) <= (i64::MAX as int) / 3 by {
                lemma_prod_bound(dir.ent(i, 0), dir.ent(i, 0), 1_000_000_000, 1_000_000_000);
            }
        }
        let f = dir.normalized();
        proof {
            lemma_normalized_props(*dir, f);
            let h = (i64::MAX as int) / 2;
            assert forall|i: int, j: int| 0 <= i < 3 && 0 <= j < 3 implies -h <= #[trigger] f.ent(
                i,
                0,
            ) * #[trigger] up.ent(j, 0) <= h by {
                lemma_prod_bound(f.ent(i, 0), up.ent(j, 0), 65536, 800_000_000);
            }
        }
        let s0 = f.cross(up);
        proof {
            let cb = 104_857_600_000_000int;
            assert(-cb <= s0.ent(0, 0) <= cb && -cb <= s0.ent(1, 0) <= cb && -cb <= s0.ent(2, 0)
                <= cb) by (nonlinear_arith)
                requires
                    -65536 <= f.ent(0, 0) <= 65536,
                    -65536 <= f.ent(1, 0) <= 65536,
                    -65536 <= f.ent(2, 0) <= 65536,
                    -800_000_000 <= up.ent(0, 0) <= 800_000_000,
                    -800_000_000 <= up.ent(1, 0) <= 800_000_000,
                    -800_000_000 <= up.ent(2, 0) <= 800_000_000,
                    s0.ent(0, 0) == f.ent(1, 0) * up.ent(2, 0) - f.ent(2, 0) * up.ent(1, 0),
                    s0.ent(1, 0) == f.ent(2, 0) * up.ent(0, 0) - f.ent(0, 0) * up.ent(2, 0),
                    s0.ent(2, 0) == f.ent(0, 0) * up.ent(1, 0) - f.ent(1, 0) * up.ent(0, 0),
                    cb == 104_857_600_000_000int,
            ;
        }
        let s0f = s0.div_scalar(FX_ONE);
        proof {
            assert forall|i: int| 0 <= i < 3 implies -1_600_000_000 <= #[trigger] s0f.ent(i, 0)
                <= 1_600_000_000 by {
                assert(1_600_000_000int * 65536 == 104_857_600_000_000int) by (nonlinear_arith);
                crate::lemma_tdiv_shrink(s0.ent(i, 0), 65536, 1_600_000_000);
            }
            assert forall|i: int| 0 <= i < 3 implies -((i64::MAX as int) / 3) <= #[trigger] s0f.ent(
                i,
                0,
            ) * s0f.ent(i, 0) <= (i64::MAX as int) / 3 by {
                lemma_prod_bound(s0f.ent(i, 0), s0f.ent(i, 0), 1_600_000_000, 1_600_000_000);
            }
        }
        let sv = s0f.normalized();
        proof {
            lemma_normalized_props(s0f, sv);
            let h = (i64::MAX as int) / 2;
            assert forall|i: int, j: int| 0 <= i < 3 && 0 <= j < 3 implies -h <= #[trigger] sv.ent(
                i,
                0,
            ) * #[trigger] f.ent(j, 0) <= h by {
                lemma_prod_bound(sv.ent(i, 0), f.ent(j, 0), 65536, 65536);
            }
        }
        let u0 = sv.cross(&f);
        let u = u0.div_scalar(FX_ONE);
        proof {
            let ub = 8_589_934_592int;
            assert(-ub <= u0.ent(0, 0) <= ub && -ub <= u0.ent(1, 0) <= ub && -ub <= u0.ent(2, 0)
                <= ub) by (nonlinear_arith)
                requires
                    -65536 <= sv.ent(0, 0) <= 65536,
                    -65536 <= sv.ent(1, 0) <= 65536,
                    -65536 <= sv.ent(2, 0) <= 65536,
                    -65536 <= f.ent(0, 0) <= 65536,
                    -65536 <= f.ent(1, 0) <= 65536,
                    -65536 <= f.ent(2, 0) <= 65536,
                    u0.ent(0, 0) == sv.ent(1, 0) * f.ent(2, 0) - sv.ent(2, 0) * f.ent(1, 0),
                    u0.ent(1, 0) == sv.ent(2, 0) * f.ent(0, 0) - sv.ent(0, 0) * f.ent(2, 0),
                    u0.ent(2, 0) == sv.ent(0, 0) * f.ent(1, 0) - sv.ent(1, 0) * f.ent(0, 0),
                    ub == 8_589_934_592int,
            ;
            assert forall|i: int| 0 <= i < 3 implies -131072 <= #[trigger] u.ent(i, 0)
                <= 131072 by {
                assert(131072int * 65536 == 8_589_934_592int) by (nonlinear_arith);
                crate::lemma_tdiv_shrink(u0.ent(i, 0), 65536, 131072);
            }
            let q3 = (i64::MAX as int) / 3;
            assert forall|i: int| 0 <= i < 3 implies -q3 <= #[trigger] eye.ent(i, 0)
                * #[trigger] sv.ent(i, 0) <= q3 by {
                lemma_prod_bound(eye.ent(i, 0), sv.ent(i, 0), 10_000_000_000_000, 65536);
            }
            assert forall|i: int| 0 <= i < 3 implies -q3 <= #[trigger] eye.ent(i, 0)
                * #[trigger] u.ent(i, 0) <= q3 by {
                lemma_prod_bound(eye.ent(i, 0), u.ent(i, 0), 10_000_000_000_000, 131072);
            }
            assert forall|i: int| 0 <= i < 3 implies -q3 <= #[trigger] eye.ent(i, 0)
                * #[trigger] f.ent(i, 0) <= q3 by {
                lemma_prod_bound(eye.ent(i, 0), f.ent(i, 0), 10_000_000_000_000, 65536);
            }
        }
        proof {
            lemma_dot3(*eye, sv);
            lemma_dot3(*eye, u);
            lemma_dot3(*eye, f);
            super::matrices::lemma_scaled_sum_bound(3, 3, i64::MAX as int);
        }
        let dsx = eye.dot(&sv);
        let dsy = eye.dot(&u);
        let dsz = eye.dot(&f);
        proof {
            crate::lemma_tdiv_in_range(dsx as int, 65536);
            crate::lemma_tdiv_in_range(dsy as int, 65536);
            crate::lemma_tdiv_in_range(dsz as int, 65536);
        }
        let tx = -div_trunc(dsx, FX_ONE);
        let ty = -div_trunc(dsy, FX_ONE);
        let tz = div_trunc(dsz, FX_ONE);
        let cols: [[i64; 4]; 4] = [
            [sv.get(0, 0), u.get(0, 0), -f.get(0, 0), 0],
            [sv.get(1, 0), u.get(1, 0), -f.get(1, 0), 0],
            [sv.get(2, 0), u.get(2, 0), -f.get(2, 0), 0],
            [tx, ty, tz, FX_ONE],
        ];
        let r = Matrix::<4, 4>::from_cols(cols);
        proof {
            assert(v3(s0f) == divfx3(cross3(v3(f), v3(*up))));
            assert(v3(u) == divfx3(cross3(v3(sv), v3(f))));
            assert(r.ent(0, 0) == cols@[0]@[0] && r.ent(1, 0) == cols@[0]@[1] && r.ent(2, 0)
                == cols@[0]@[2] && r.ent(3, 0) == cols@[0]@[3]);
            assert(r.ent(0, 1) == cols@[1]@[0] && r.ent(1, 1) == cols@[1]@[1] && r.ent(2, 1)
                == cols@[1]@[2] && r.ent(3, 1) == cols@[1]@[3]);
            assert(r.ent(0, 2) == cols@[2]@[0] && r.ent(1, 2) == cols@[2]@[1] && r.ent(2, 2)
                == cols@[2]@[2] && r.ent(3, 2) == cols@[2]@[3]);
            assert(r.ent(0, 3) == cols@[3]@[0] && r.ent(1, 3) == cols@[3]@[1] && r.ent(2, 3)
                == cols@[3]@[2] && r.ent(3, 3) == cols@[3]@[3]);
            lemma_look_assemble(v3(*eye), v3(*dir), v3(*up), r);
        }
        r
    }

    fn look_to_lh(eye: &Matrix<3, 1>, dir: &Matrix<3, 1>, up: &Matrix<3, 1>) -> (r: Matrix<4, 4>) {
        let nd = dir.neg();
        Self::look_to_rh(eye, &nd, up)
    }

    fn look_at_rh(eye: &Matrix<3, 1>, center: &Matrix<3, 1>, up: &Matrix<3, 1>) -> (r: Matrix<
        4,
        4,
    >) {
        let d = center.sub_matrix(eye);
        Self::look_to_rh(eye, &d, up)
    }

    fn look_at_lh(eye: &Matrix<3, 1>, center: &Matrix<3, 1>, up: &Matrix<3, 1>) -> (r: Matrix<
        4,
        4,
    >) {
        let d = center.sub_matrix(eye);
        let nd = d.neg();
        Self::look_to_rh(eye, &nd, up)
    }
}

} // verus!
