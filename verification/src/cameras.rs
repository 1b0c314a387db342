//! Cameras and the composed view-projection matrix.
//!
//! A perspective camera combines a right-handed view matrix (built from
//! its eye, view direction and up vectors), a fixed-point perspective
//! projection, and a constant matrix that remaps the depth range from
//! the [-1, 1] clip convention to [0, 1].  The composed matrix is what a
//! frame uploads as its camera uniform.

use vstd::prelude::*;
use crate::math::matrices::Matrix;
use crate::math::transformable_matrices::{
    Prespective, TransformMatrix, perspective_ent, look_to_rh_ent, look_points_ok, v3,
    vec3_bounded, mulfix_ent_of, lemma_mul_ent4, lemma_norm3_bounded, norm3, cross3, divfx3, dot3,
    sub3,
};
use crate::math::trig::{FX_ONE, FX_HALF};
use crate::lemma_tdiv_shrink;

verus! {

/// How far from zero a camera eye element may be.
pub const CAMERA_EYE_BOUND: i64 = 4_000_000;

/// How large a projection-matrix element may be for the composition not
/// to overflow.
pub const CAMERA_PROJ_BOUND: i64 = 17_179_869_184;

/// A perspective camera: where it stands, the point it looks at, its up
/// vector, and its projection parameters, all in fixed point.
#[derive(Clone, Debug)]
pub struct CameraPrespective {
    pub eye: Matrix<3, 1>,
    pub target: Matrix<3, 1>,
    pub up: Matrix<3, 1>,
    pub aspect: i64,
    pub fovy_rad: i64,
    pub znear: i64,
    pub zfar: i64,
}

/// A camera.
pub enum Camera {
    Prespective(CameraPrespective),
}

/// The projection parameters of a perspective camera.
pub open spec fn prespective_of(c: CameraPrespective) -> Prespective {
    Prespective { fovy_rad: c.fovy_rad, aspect: c.aspect, near: c.znear, far: c.zfar }
}

/// The bounds under which the composed camera matrix cannot overflow:
/// valid projection parameters, eye and target in view-matrix range, an
/// eye near enough the origin, and projection elements bounded.
pub open spec fn camera_ok(c: CameraPrespective) -> bool {
    &&& c.eye.wf()
    &&& c.target.wf()
    &&& c.up.wf()
    &&& vec3_bounded(v3(c.eye), CAMERA_EYE_BOUND as int)
    &&& look_points_ok(v3(c.eye), v3(c.target), v3(c.up))
    &&& prespective_of(c).valid()
    &&& forall|i: int, j: int|
        0 <= i < 4 && 0 <= j < 4 ==> -(CAMERA_PROJ_BOUND as int) <= #[trigger] perspective_ent(
            prespective_of(c),
            i,
            j,
        ) <= CAMERA_PROJ_BOUND as int
}

/// The element at row `i`, column `j` of the depth-remap matrix that
/// takes the [-1, 1] depth clip convention to [0, 1].
pub open spec fn opengl_to_wgpu_ent(i: int, j: int) -> int {
    if (i == 0 && j == 0) || (i == 1 && j == 1) || (i == 3 && j == 3) {
        FX_ONE as int
    } else if (i == 2 && j == 2) || (i == 2 && j == 3) {
        FX_HALF as int
    } else {
        0
    }
}

/// The depth-remap matrix.
pub fn opengl_to_wgpu_matrix() -> (r: Matrix<4, 4>)
    ensures
        r.wf(),
        forall|i: int, j: int|
            0 <= i < 4 && 0 <= j < 4 ==> #[trigger] r.ent(i, j) == opengl_to_wgpu_ent(i, j),
        r.ents_bounded(FX_ONE as int),
{
    let cols: [[i64; 4]; 4] = [
        [FX_ONE, 0, 0, 0],
        [0, FX_ONE, 0, 0],
        [0, 0, FX_HALF, 0],
        [0, 0, FX_HALF, FX_ONE],
    ];
    let r = Matrix::<4, 4>::from_cols(cols);
    proof {
        assert forall|i: int, j: int| 0 <= i < 4 && 0 <= j < 4 implies #[trigger] r.ent(i, j)
            == opengl_to_wgpu_ent(i, j) && -(FX_ONE as int) <= r.ent(i, j) <= FX_ONE as int by {
            assert(r.ent(i, j) == cols@[j]@[i]);
        }
    }
    r
}

/// The element at row `i`, column `j` of a camera's composed matrix:
/// depth remap times projection times the view matrix for the eye looking
/// at the target, all under the fixed-point product.
pub open spec fn camera_matrix_ent(c: CameraPrespective, i: int, j: int) -> int {
    mulfix_ent_of(
        |a: int, b: int|
            mulfix_ent_of(
                |x: int, y: int| opengl_to_wgpu_ent(x, y),
                |x: int, y: int| perspective_ent(prespective_of(c), x, y),
                a,
                b,
            ),
        |a: int, b: int|
            look_to_rh_ent(v3(c.eye), sub3(v3(c.target), v3(c.eye)), v3(c.up), a, b),
        i,
        j,
    )
}

impl Camera {
    /// The camera's perspective parameters.
    pub open spec fn cam_spec(self) -> CameraPrespective {
        match self {
            Camera::Prespective(c) => c,
        }
    }

    /// True when the composed matrix can be built without overflow.
    pub open spec fn camera_valid(self) -> bool {
        camera_ok(self.cam_spec())
    }

    /// Decides at run time whether the composed matrix can be built: the
    /// bounds on the camera vectors, valid projection parameters, and the
    /// projection elements within the composition's range.
    pub fn is_valid(&self) -> (b: bool)
        ensures
            b == self.camera_valid(),
    {
        match self {
            Camera::Prespective(c) => {
                if !(c.eye.is_well_formed() && c.target.is_well_formed() && c.up.is_well_formed()) {
                    return false;
                }
                let e0 = c.eye.get(0, 0);
                let e1 = c.eye.get(1, 0);
                let e2 = c.eye.get(2, 0);
                let t0 = c.target.get(0, 0);
                let t1 = c.target.get(1, 0);
                let t2 = c.target.get(2, 0);
                let u0 = c.up.get(0, 0);
                let u1 = c.up.get(1, 0);
                let u2 = c.up.get(2, 0);
                let eyes_ok = -CAMERA_EYE_BOUND <= e0 && e0 <= CAMERA_EYE_BOUND
                    && -CAMERA_EYE_BOUND <= e1 && e1 <= CAMERA_EYE_BOUND && -CAMERA_EYE_BOUND <= e2
                    && e2 <= CAMERA_EYE_BOUND;
                let points_ok = -500_000_000 <= e0 && e0 <= 500_000_000 && -500_000_000 <= e1 && e1
                    <= 500_000_000 && -500_000_000 <= e2 && e2 <= 500_000_000 && -500_000_000 <= t0
                    && t0 <= 500_000_000 && -500_000_000 <= t1 && t1 <= 500_000_000
                    && -500_000_000 <= t2 && t2 <= 500_000_000 && -800_000_000 <= u0 && u0
                    <= 800_000_000 && -800_000_000 <= u1 && u1 <= 800_000_000 && -800_000_000 <= u2
                    && u2 <= 800_000_000;
                if !(eyes_ok && points_ok) {
                    return false;
                }
                let p = Prespective {
                    fovy_rad: c.fovy_rad,
                    aspect: c.aspect,
                    near: c.znear,
                    far: c.zfar,
                };
                if !p.is_valid() {
                    return false;
                }
                let proj = Matrix::<4, 4>::perspective(&p);
                let mut i: usize = 0;
                while i < 4
                    invariant
                        i <= 4,
                        self.cam_spec() == *c,
                        proj.wf(),
                        forall|a: int, b2: int|
                            0 <= a < 4 && 0 <= b2 < 4 ==> #[trigger] proj.ent(a, b2)
                                == perspective_ent(prespective_of(*c), a, b2),
                        forall|a: int, b2: int|
                            0 <= a < i && 0 <= b2 < 4 ==> -(CAMERA_PROJ_BOUND as int)
                                <= #[trigger] proj.ent(a, b2) <= CAMERA_PROJ_BOUND as int,
                    decreases 4 - i,
                {
                    let mut j: usize = 0;
                    while j < 4
                        invariant
                            i < 4,
                            j <= 4,
                            self.cam_spec() == *c,
                            proj.wf(),
                            forall|a: int, b2: int|
                                0 <= a < 4 && 0 <= b2 < 4 ==> #[trigger] proj.ent(a, b2)
                                    == perspective_ent(prespective_of(*c), a, b2),
                            forall|a: int, b2: int|
                                0 <= a < i && 0 <= b2 < 4 ==> -(CAMERA_PROJ_BOUND as int)
                                    <= #[trigger] proj.ent(a, b2) <= CAMERA_PROJ_BOUND as int,
                            forall|b2: int|
                                0 <= b2 < j ==> -(CAMERA_PROJ_BOUND as int) <= #[trigger] proj.ent(
                                    i as int,
                                    b2,
                                ) <= CAMERA_PROJ_BOUND as int,
                        decreases 4 - j,
                    {
                        let v = proj.get(i, j);
                        if !(-CAMERA_PROJ_BOUND <= v && v <= CAMERA_PROJ_BOUND) {
                            proof {
                                assert(proj.ent(i as int, j as int) == perspective_ent(
                                    prespective_of(*c),
                                    i as int,
                                    j as int,
                                ));
                                assert(!(-(CAMERA_PROJ_BOUND as int) <= perspective_ent(
                                    prespective_of(*c),
                                    i as int,
                                    j as int,
                                ) <= CAMERA_PROJ_BOUND as int));
                                assert(!camera_ok(*c));
                                assert(self.cam_spec() == *c);
                            }
                            return false;
                        }
                        j += 1;
                    }
                    i += 1;
                }
                proof {
                    assert(p == prespective_of(*c));
                    assert forall|a: int, b2: int| 0 <= a < 4 && 0 <= b2 < 4 implies -(
                    CAMERA_PROJ_BOUND as int) <= #[trigger] perspective_ent(
                        prespective_of(*c),
                        a,
                        b2,
                    ) <= CAMERA_PROJ_BOUND as int by {
                        assert(proj.ent(a, b2) == perspective_ent(prespective_of(*c), a, b2));
                    }
                    assert(camera_ok(*c));
                }
                true
            },
        }
    }

    /// The composed view-projection matrix.
    #[verifier::rlimit(60)]
    pub fn build_projection_matrix(&self) -> (r: Matrix<4, 4>)
        requires
            self.camera_valid(),
        ensures
            r.wf(),
            forall|i: int, j: int|
                0 <= i < 4 && 0 <= j < 4 ==> #[trigger] r.ent(i, j) == camera_matrix_ent(
                    self.cam_spec(),
                    i,
                    j,
                ),
    {
        match self {
            Camera::Prespective(cam) => {
                let view = Matrix::<4, 4>::look_at_rh(&cam.eye, &cam.target, &cam.up);
                let p = Prespective {
                    fovy_rad: cam.fovy_rad,
                    aspect: cam.aspect,
                    near: cam.znear,
                    far: cam.zfar,
                };
                let proj = Matrix::<4, 4>::perspective(&p);
                let og = opengl_to_wgpu_matrix();
                proof {
                    og.lemma_mulfix_ok(proj, FX_ONE as int, CAMERA_PROJ_BOUND as int);
                }
                let left = og.mul_matrix_fixed(&proj);
                proof {
                    let lb = 68_719_476_736int;
                    assert forall|i: int, j: int| 0 <= i < 4 && 0 <= j < 4 implies -lb
                        <= #[trigger] left.ent(i, j) <= lb by {
                        assert(FX_ONE == 65536 && CAMERA_PROJ_BOUND == 17_179_869_184i64);
                        assert(4 * (65536int * 17_179_869_184int) == 68_719_476_736int * 65536int)
                            by (nonlinear_arith);
                        lemma_tdiv_shrink(og.mul_ent(proj, i, j, 4), FX_ONE as int, lb);
                    }
                    assert(left.ents_bounded(lb));
                    let e3 = v3(cam.eye);
                    let d3 = sub3(v3(cam.target), v3(cam.eye));
                    let f = norm3(d3);
                    let sv = norm3(divfx3(cross3(f, v3(cam.up))));
                    let u0 = cross3(sv, f);
                    lemma_norm3_bounded(d3);
                    lemma_norm3_bounded(divfx3(cross3(f, v3(cam.up))));
                    assert(-8_589_934_592 <= u0.0 <= 8_589_934_592 && -8_589_934_592 <= u0.1
                        <= 8_589_934_592 && -8_589_934_592 <= u0.2 <= 8_589_934_592)
                        by (nonlinear_arith)
                        requires
                            u0 == cross3(sv, f),
                            vec3_bounded(sv, 65536),
                            vec3_bounded(f, 65536),
                    ;
                    let u = divfx3(u0);
                    assert(131072int * 65536 == 8_589_934_592int) by (nonlinear_arith);
                    lemma_tdiv_shrink(u0.0, 65536, 131072);
                    lemma_tdiv_shrink(u0.1, 65536, 131072);
                    lemma_tdiv_shrink(u0.2, 65536, 131072);
                    assert(vec3_bounded(u, 131072));
                    assert(-1_572_864_000_000 <= dot3(e3, sv) <= 1_572_864_000_000
                        && -1_572_864_000_000 <= dot3(e3, u) <= 1_572_864_000_000
                        && -1_572_864_000_000 <= dot3(e3, f) <= 1_572_864_000_000)
                        by (nonlinear_arith)
                        requires
                            vec3_bounded(e3, 4_000_000),
                            vec3_bounded(sv, 65536),
                            vec3_bounded(f, 65536),
                            vec3_bounded(u, 131072),
                    ;
                    assert(25_000_000int * 65536 == 1_638_400_000_000int) by (nonlinear_arith);
                    lemma_tdiv_shrink(dot3(e3, sv), 65536, 25_000_000);
                    lemma_tdiv_shrink(dot3(e3, u), 65536, 25_000_000);
                    lemma_tdiv_shrink(dot3(e3, f), 65536, 25_000_000);
                    assert forall|i: int, j: int| 0 <= i < 4 && 0 <= j < 4 implies -25_000_000
                        <= #[trigger] view.ent(i, j) <= 25_000_000 by {
                        assert(view.tm_ent(i, j) == <Matrix<4, 4> as TransformMatrix>::at_rh_ent(
                            &cam.eye,
                            &cam.target,
                            &cam.up,
                            i,
                            j,
                        ));
                        assert(view.ent(i, j) == look_to_rh_ent(e3, d3, v3(cam.up), i, j));
                    }
                    assert(view.ents_bounded(25_000_000));
                    left.lemma_mulfix_ok(view, 68_719_476_736int, 25_000_000int);
                }
                let r = left.mul_matrix_fixed(&view);
                proof {
                    assert forall|i: int, j: int| 0 <= i < 4 && 0 <= j < 4 implies #[trigger] r.ent(
                        i,
                        j,
                    ) == camera_matrix_ent(*cam, i, j) by {
                        lemma_mul_ent4(left, view, i, j);
                        assert forall|i2: int, j2: int|
                            0 <= i2 < 4 && 0 <= j2 < 4 implies #[trigger] view.ent(i2, j2)
                            == look_to_rh_ent(
                            v3(cam.eye),
                            sub3(v3(cam.target), v3(cam.eye)),
                            v3(cam.up),
                            i2,
                            j2,
                        ) by {
                            assert(view.tm_ent(i2, j2) == <Matrix<
                                4,
                                4,
                            > as TransformMatrix>::at_rh_ent(
                                &cam.eye,
                                &cam.target,
                                &cam.up,
                                i2,
                                j2,
                            ));
                        }
                        assert forall|i2: int, j2: int|
                            0 <= i2 < 4 && 0 <= j2 < 4 implies #[trigger] left.ent(i2, j2)
                            == mulfix_ent_of(
                            |x: int, y: int| opengl_to_wgpu_ent(x, y),
                            |x: int, y: int| perspective_ent(prespective_of(*cam), x, y),
                            i2,
                            j2,
                        ) by {
                            lemma_mul_ent4(og, proj, i2, j2);
                        }
                    }
                }
                r
            },
        }
    }
}

/// The camera uniform: the composed matrix, flattened in column layout
/// for upload.
#[derive(Clone, Copy, Debug)]
pub struct CameraUniform {
    pub proj: [[i64; 4]; 4],
}

impl CameraUniform {
    /// Replaces the held matrix with the camera's composed matrix.
    pub fn from_camera(&mut self, c: &Camera)
        requires
            c.camera_valid(),
        ensures
            forall|i: int, j: int|
                0 <= i < 4 && 0 <= j < 4 ==> #[trigger] final(self).proj@[j]@[i]
                    == camera_matrix_ent(c.cam_spec(), i, j),
    {
        let m = c.build_projection_matrix();
        self.proj = m.to_cols();
    }
}

impl Default for CameraUniform {
    /// The identity in fixed point: no view or projection applied yet.
    fn default() -> (r: Self)
        ensures
            forall|i: int, j: int|
                0 <= i < 4 && 0 <= j < 4 ==> #[trigger] r.proj@[j]@[i] == if i == j {
                    FX_ONE as int
                } else {
                    0int
                },
    {
        CameraUniform {
            proj: [
                [FX_ONE, 0, 0, 0],
                [0, FX_ONE, 0, 0],
                [0, 0, FX_ONE, 0],
                [0, 0, 0, FX_ONE],
            ],
        }
    }
}

} // verus!
