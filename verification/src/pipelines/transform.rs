//! Per-entity transforms and their upload-ready form.
//!
//! A `Transform` is a position, scale and Euler rotation, in fixed point.
//! Once per frame each registered instance's transform is flattened into
//! an `InstanceTransform`: the 4 x 4 model matrix `T * S * R`, where `R`
//! is the combined Euler rotation `Rz * Ry * Rx`, composed with the
//! fixed-point matrix product.  The flattened form carries the matrix in
//! column layout, ready for a per-instance vertex stream.

use vstd::prelude::*;
use crate::math::matrices::Matrix;
use crate::math::transformable_matrices::{
    euler_ent, mulfix_ent_of, sel3, v3, lemma_mul_ent4, rotate_x_ent, rotate_y_ent, rotate_z_ent,
};
use crate::math::trig::FX_ONE;
use crate::tdiv;

verus! {

/// How far from zero a position element may be.
pub const TRANSFORM_POS_BOUND: i64 = 1_000_000_000;

/// How far from zero a scale element may be.
pub const TRANSFORM_SCALE_BOUND: i64 = 16_777_216;

/// A per-entity transform: position, scale and Euler rotation angles, all
/// in fixed point.
#[derive(Clone, Debug)]
pub struct Transform {
    pub position: Matrix<3, 1>,
    pub scale: Matrix<3, 1>,
    pub rotation: Matrix<3, 1>,
}

impl Transform {
    /// Well-formed, with position and scale small enough that the model
    /// matrix cannot overflow.
    pub open spec fn wf(self) -> bool {
        &&& self.position.wf()
        &&& self.scale.wf()
        &&& self.rotation.wf()
        &&& crate::math::transformable_matrices::vec3_bounded(
            v3(self.position),
            TRANSFORM_POS_BOUND as int,
        )
        &&& crate::math::transformable_matrices::vec3_bounded(
            v3(self.scale),
            TRANSFORM_SCALE_BOUND as int,
        )
    }

    /// The neutral transform: at the origin, unit scale, no rotation.
    pub fn identity() -> (r: Self)
        ensures
            r.wf(),
            v3(r.position) == (0int, 0int, 0int),
            v3(r.scale) == (FX_ONE as int, FX_ONE as int, FX_ONE as int),
            v3(r.rotation) == (0int, 0int, 0int),
    {
        Transform {
            position: Matrix::<3, 1>::zeros(),
            scale: Matrix::<3, 1>::fill(FX_ONE),
            rotation: Matrix::<3, 1>::zeros(),
        }
    }

    /// The same transform, moved to `position`.
    pub fn with_position(self, position: Matrix<3, 1>) -> (r: Transform)
        ensures
            r.position == position,
            r.scale == self.scale,
            r.rotation == self.rotation,
    {
        Transform { position, scale: self.scale, rotation: self.rotation }
    }

    /// The same transform, rotated by the Euler angles `rotation`.
    pub fn with_rotateion(self, rotation: Matrix<3, 1>) -> (r: Transform)
        ensures
            r.rotation == rotation,
            r.position == self.position,
            r.scale == self.scale,
    {
        Transform { rotation, position: self.position, scale: self.scale }
    }

    /// The same transform, scaled by `scale`.
    pub fn with_scale(self, scale: Matrix<3, 1>) -> (r: Transform)
        ensures
            r.scale == scale,
            r.position == self.position,
            r.rotation == self.rotation,
    {
        Transform { scale, position: self.position, rotation: self.rotation }
    }
}

/// The element at row `i`, column `j` of the homogeneous translation by
/// `p`: a fixed-point identity with `p` in the last column.
pub open spec fn translation_ent(p: (int, int, int), i: int, j: int) -> int {
    if i == j {
        FX_ONE as int
    } else if j == 3 && 0 <= i < 3 {
        sel3(p, i)
    } else {
        0
    }
}

/// The element at row `i`, column `j` of the homogeneous scale by `s`.
pub open spec fn scale_ent(s: (int, int, int), i: int, j: int) -> int {
    if i == j {
        if i < 3 {
            sel3(s, i)
        } else {
            FX_ONE as int
        }
    } else {
        0
    }
}

/// The element at row `i`, column `j` of the flattened model matrix of a
/// transform: `T * S * R` under the fixed-point product, `R` the combined
/// Euler rotation.
pub open spec fn instance_record_ent(
    p: (int, int, int),
    s: (int, int, int),
    rot: (int, int, int),
    i: int,
    j: int,
) -> int {
    mulfix_ent_of(
        |i2: int, j2: int|
            mulfix_ent_of(
                |i3: int, j3: int| translation_ent(p, i3, j3),
                |i3: int, j3: int| scale_ent(s, i3, j3),
                i2,
                j2,
            ),
        |i2: int, j2: int| euler_ent(rot.0, rot.1, rot.2, i2, j2),
        i,
        j,
    )
}

/// The upload-ready form of a transform: its model matrix, flattened in
/// column layout.
#[derive(Clone, Copy, Debug)]
pub struct InstanceTransform {
    pub data: [[i64; 4]; 4],
}

impl InstanceTransform {
    /// True when the flattened data is the model matrix of a transform
    /// with the given position, scale and rotation.
    pub open spec fn is_record_of(self, p: (int, int, int), s: (int, int, int), rot: (int, int, int)) -> bool {
        forall|i: int, j: int|
            0 <= i < 4 && 0 <= j < 4 ==> #[trigger] self.data@[j]@[i] == instance_record_ent(
                p,
                s,
                rot,
                i,
                j,
            )
    }

    /// The identity record: the flattened fixed-point identity matrix.
    pub fn default_record() -> (r: Self)
        ensures
            forall|i: int, j: int|
                0 <= i < 4 && 0 <= j < 4 ==> #[trigger] r.data@[j]@[i] == if i == j {
                    FX_ONE as int
                } else {
                    0int
                },
    {
        InstanceTransform {
            data: [
                [FX_ONE, 0, 0, 0],
                [0, FX_ONE, 0, 0],
                [0, 0, FX_ONE, 0],
                [0, 0, 0, FX_ONE],
            ],
        }
    }

    /// Flattens a transform into its model matrix.
    pub fn from_transform(value: &Transform) -> (r: Self)
        requires
            value.wf(),
        ensures
            r.is_record_of(v3(value.position), v3(value.scale), v3(value.rotation)),
    {
        let rot = Matrix::<4, 4>::euler_rotation(
            value.rotation.get(0, 0),
            value.rotation.get(1, 0),
            value.rotation.get(2, 0),
        );
        let scale = Matrix::<4, 4>::from_cols(
            [
                [value.scale.get(0, 0), 0, 0, 0],
                [0, value.scale.get(1, 0), 0, 0],
                [0, 0, value.scale.get(2, 0), 0],
                [0, 0, 0, FX_ONE],
            ],
        );
        let pos = Matrix::<4, 4>::from_cols(
            [
                [FX_ONE, 0, 0, 0],
                [0, FX_ONE, 0, 0],
                [0, 0, FX_ONE, 0],
                [
                    value.position.get(0, 0),
                    value.position.get(1, 0),
                    value.position.get(2, 0),
                    FX_ONE,
                ],
            ],
        );
        proof {
            assert(pos.ents_bounded(TRANSFORM_POS_BOUND as int));
            assert(scale.ents_bounded(TRANSFORM_SCALE_BOUND as int));
            pos.lemma_mulfix_ok(scale, TRANSFORM_POS_BOUND as int, TRANSFORM_SCALE_BOUND as int);
        }
        let ts = pos.mul_matrix_fixed(&scale);
        proof {
            let bts = 1_100_000_000_000int;
            assert forall|i: int, j: int| 0 <= i < 4 && 0 <= j < 4 implies -bts
                <= #[trigger] ts.ent(i, j) <= bts by {
                lemma_mul_ent4(pos, scale, i, j);
                crate::lemma_tdiv_shrink(pos.mul_ent(scale, i, j, 4), FX_ONE as int, bts);
            }
            assert(ts.ents_bounded(bts));
            ts.lemma_mulfix_ok(rot, bts, 16 * (FX_ONE as int));
        }
        let m = ts.mul_matrix_fixed(&rot);
        let r = InstanceTransform {
            data: [
                [m.get(0, 0), m.get(1, 0), m.get(2, 0), m.get(3, 0)],
                [m.get(0, 1), m.get(1, 1), m.get(2, 1), m.get(3, 1)],
                [m.get(0, 2), m.get(1, 2), m.get(2, 2), m.get(3, 2)],
                [m.get(0, 3), m.get(1, 3), m.get(2, 3), m.get(3, 3)],
            ],
        };
        proof {
            let p = v3(value.position);
            let s = v3(value.scale);
            let a = v3(value.rotation);
            assert forall|i: int, j: int| 0 <= i < 4 && 0 <= j < 4 implies #[trigger] r.data@[j]@[i]
                == instance_record_ent(p, s, a, i, j) by {
                lemma_mul_ent4(ts, rot, i, j);
                assert forall|i2: int, j2: int| 0 <= i2 < 4 && 0 <= j2 < 4 implies #[trigger] ts.ent(
                    i2,
                    j2,
                ) == mulfix_ent_of(
                    |i3: int, j3: int| translation_ent(p, i3, j3),
                    |i3: int, j3: int| scale_ent(s, i3, j3),
                    i2,
                    j2,
                ) by {
                    lemma_mul_ent4(pos, scale, i2, j2);
                }
            }
        }
        r
    }
}

/// The combined Euler rotation leaves the homogeneous column alone: its
/// last column is (0, 0, 0, one), whatever the angles.
proof fn lemma_euler_last_column(rot: (int, int, int))
    ensures
        forall|k: int|
            0 <= k < 4 ==> #[trigger] euler_ent(rot.0, rot.1, rot.2, k, 3) == if k == 3 {
                FX_ONE as int
            } else {
                0int
            },
{
    let fx = FX_ONE as int;
    assert forall|k: int|
        0 <= k < 4 implies #[trigger] euler_ent(rot.0, rot.1, rot.2, k, 3) == (if k == 3 {
        fx
    } else {
        0int
    }) by {
        let zy = mulfix_ent_of(
            |i3: int, j3: int| rotate_z_ent(rot.2, i3, j3),
            |i3: int, j3: int| rotate_y_ent(rot.1, i3, j3),
            k,
            3,
        );
        crate::lemma_tdiv_exact(rotate_z_ent(rot.2, k, 3), fx);
        assert(zy == rotate_z_ent(rot.2, k, 3));
        crate::lemma_tdiv_exact(zy, fx);
    }
}

/// Flattening a transform keeps its position recoverable: the last
/// column of the model matrix is exactly the position, whatever the
/// rotation; and under zero rotation the diagonal is exactly the scale.
/// The source offers no general rotation/scale decomposition, so only
/// these two directions are stated.
pub proof fn lemma_record_roundtrip(p: (int, int, int), s: (int, int, int), rot: (int, int, int))
    ensures
        forall|i: int|
            0 <= i < 3 ==> #[trigger] instance_record_ent(p, s, rot, i, 3) == sel3(p, i),
        instance_record_ent(p, s, rot, 3, 3) == FX_ONE as int,
        forall|i: int|
            0 <= i < 3 ==> #[trigger] instance_record_ent(p, s, (0int, 0int, 0int), i, i)
                == sel3(s, i),
{
    let fx = FX_ONE as int;
    lemma_euler_last_column(rot);
    assert forall|i: int|
        0 <= i < 4 implies mulfix_ent_of(
        |i3: int, j3: int| translation_ent(p, i3, j3),
        |i3: int, j3: int| scale_ent(s, i3, j3),
        i,
        3,
    ) == #[trigger] translation_ent(p, i, 3) by {
        crate::lemma_tdiv_exact(translation_ent(p, i, 3), fx);
    }
    assert forall|i: int| 0 <= i < 4 implies #[trigger] instance_record_ent(p, s, rot, i, 3)
        == translation_ent(p, i, 3) by {
        assert(euler_ent(rot.0, rot.1, rot.2, 0, 3) == 0);
        assert(euler_ent(rot.0, rot.1, rot.2, 1, 3) == 0);
        assert(euler_ent(rot.0, rot.1, rot.2, 2, 3) == 0);
        assert(euler_ent(rot.0, rot.1, rot.2, 3, 3) == fx);
        let a0 = mulfix_ent_of(
            |i3: int, j3: int| translation_ent(p, i3, j3),
            |i3: int, j3: int| scale_ent(s, i3, j3),
            i,
            0,
        );
        let a1 = mulfix_ent_of(
            |i3: int, j3: int| translation_ent(p, i3, j3),
            |i3: int, j3: int| scale_ent(s, i3, j3),
            i,
            1,
        );
        let a2 = mulfix_ent_of(
            |i3: int, j3: int| translation_ent(p, i3, j3),
            |i3: int, j3: int| scale_ent(s, i3, j3),
            i,
            2,
        );
        let a3 = mulfix_ent_of(
            |i3: int, j3: int| translation_ent(p, i3, j3),
            |i3: int, j3: int| scale_ent(s, i3, j3),
            i,
            3,
        );
        assert(instance_record_ent(p, s, rot, i, 3) == tdiv(
            a0 * euler_ent(rot.0, rot.1, rot.2, 0, 3) + a1 * euler_ent(rot.0, rot.1, rot.2, 1, 3)
                + a2 * euler_ent(rot.0, rot.1, rot.2, 2, 3) + a3 * euler_ent(
                rot.0,
                rot.1,
                rot.2,
                3,
                3,
            ),
            fx,
        ));
        assert(a0 * 0 == 0 && a1 * 0 == 0 && a2 * 0 == 0) by (nonlinear_arith);
        crate::lemma_tdiv_exact(a3, fx);
        assert(a3 == translation_ent(p, i, 3));
    }
    // zero rotation: the rotation factor is the fixed-point identity
    crate::math::trig::lemma_trig_zero();
    assert forall|a: int, b: int| 0 <= a < 4 && 0 <= b < 4 implies #[trigger] euler_ent(
        0,
        0,
        0,
        a,
        b,
    ) == (if a == b {
        fx
    } else {
        0int
    }) by {
        let zy = mulfix_ent_of(
            |i3: int, j3: int| rotate_z_ent(0, i3, j3),
            |i3: int, j3: int| rotate_y_ent(0, i3, j3),
            a,
            b,
        );
        assert(rotate_z_ent(0, a, 0) * rotate_y_ent(0, 0, b) + rotate_z_ent(0, a, 1)
            * rotate_y_ent(0, 1, b) + rotate_z_ent(0, a, 2) * rotate_y_ent(0, 2, b)
            + rotate_z_ent(0, a, 3) * rotate_y_ent(0, 3, b) == if a == b {
            fx * fx
        } else {
            0int
        }) by (nonlinear_arith)
            requires
                forall|x: int, y: int|
                    0 <= x < 4 && 0 <= y < 4 ==> #[trigger] rotate_z_ent(0, x, y) == (if x == y {
                        65536int
                    } else {
                        0int
                    }),
                forall|x: int, y: int|
                    0 <= x < 4 && 0 <= y < 4 ==> #[trigger] rotate_y_ent(0, x, y) == (if x == y {
                        65536int
                    } else {
                        0int
                    }),
                0 <= a < 4,
                0 <= b < 4,
                fx == 65536int,
        ;
        if a == b {
            crate::lemma_tdiv_exact(fx, fx);
            assert(zy == fx);
        } else {
            assert(zy == 0);
        }
        if a == b {
            crate::lemma_tdiv_exact(fx, fx);
        }
        let rx = mulfix_ent_of(
            |i3: int, j3: int|
                mulfix_ent_of(
                    |i4: int, j4: int| rotate_z_ent(0, i4, j4),
                    |i4: int, j4: int| rotate_y_ent(0, i4, j4),
                    i3,
                    j3,
                ),
            |i3: int, j3: int| rotate_x_ent(0, i3, j3),
            a,
            b,
        );
        assert(euler_ent(0, 0, 0, a, b) == rx);
    }
    assert forall|i: int| 0 <= i < 3 implies #[trigger] instance_record_ent(
        p,
        s,
        (0int, 0int, 0int),
        i,
        i,
    ) == sel3(s, i) by {
        let tsii = mulfix_ent_of(
            |i3: int, j3: int| translation_ent(p, i3, j3),
            |i3: int, j3: int| scale_ent(s, i3, j3),
            i,
            i,
        );
        assert(fx * sel3(s, i) == sel3(s, i) * fx) by (nonlinear_arith);
        crate::lemma_tdiv_exact(sel3(s, i), fx);
        assert(tsii == sel3(s, i));
        assert(instance_record_ent(p, s, (0int, 0int, 0int), i, i) == tdiv(tsii * fx, fx)) by {
            assert(euler_ent(0, 0, 0, i, i) == fx);
        }
        crate::lemma_tdiv_exact(tsii, fx);
    }
}

} // verus!
