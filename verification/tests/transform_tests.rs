use matrix_renderer::math::matrices::Matrix;
use matrix_renderer::math::transformable_matrices::{Prespective, TransformMatrix};
use matrix_renderer::math::trig::{FX_ONE, FX_HALF, FX_HALF_PI, FX_PI};
use matrix_renderer::cameras::{Camera, CameraPrespective, CameraUniform, opengl_to_wgpu_matrix};
use matrix_renderer::pipelines::transform::{Transform, InstanceTransform};

fn v3(x: i64, y: i64, z: i64) -> Matrix<3, 1> {
    Matrix::<3, 1>::from_cols([[x, y, z]])
}

#[test]
fn rotation_at_zero_is_identity() {
    for m in [
        Matrix::<4, 4>::rotate_x(0),
        Matrix::<4, 4>::rotate_y(0),
        Matrix::<4, 4>::rotate_z(0),
        Matrix::<4, 4>::euler_rotation(0, 0, 0),
    ] {
        for r in 0..4 {
            for c in 0..4 {
                assert_eq!(m.get(r, c), if r == c { FX_ONE } else { 0 });
            }
        }
    }
}

#[test]
fn rotation_quarter_turn() {
    let m = Matrix::<4, 4>::rotate_z(FX_HALF_PI);
    // cos(pi/2) == 0 and sin(pi/2) == 1 exactly in this approximation
    assert_eq!(m.get(0, 0), 0);
    assert_eq!(m.get(0, 1), -FX_ONE);
    assert_eq!(m.get(1, 0), FX_ONE);
    assert_eq!(m.get(1, 1), 0);
    assert_eq!(m.get(2, 2), FX_ONE);
    assert_eq!(m.get(3, 3), FX_ONE);
}

#[test]
fn perspective_rejects_bad_parameters() {
    // near at or past far is a construction-time invariant violation
    let p = Prespective { fovy_rad: FX_HALF_PI, aspect: FX_ONE, near: 10 * FX_ONE, far: FX_ONE };
    assert!(p.to_matrix().is_none());
    assert!(!p.is_valid());
    // a zero aspect ratio likewise
    let q = Prespective { fovy_rad: FX_HALF_PI, aspect: 0, near: FX_ONE, far: 10 * FX_ONE };
    assert!(q.to_matrix().is_none());
    // equal planes likewise
    let e = Prespective { fovy_rad: FX_HALF_PI, aspect: FX_ONE, near: FX_ONE, far: FX_ONE };
    assert!(e.to_matrix().is_none());
}

#[test]
fn perspective_matrix_values() {
    // a quarter-turn field of view makes the focal scalar exactly one
    let p = Prespective { fovy_rad: FX_HALF_PI, aspect: FX_ONE, near: FX_ONE, far: 10 * FX_ONE };
    assert!(p.is_valid());
    let m = p.to_matrix().unwrap();
    assert_eq!(m.get(0, 0), FX_ONE);
    assert_eq!(m.get(1, 1), FX_ONE);
    assert_eq!(m.get(2, 2), -80099);
    assert_eq!(m.get(3, 2), -FX_ONE);
    assert_eq!(m.get(2, 3), -145635);
    assert_eq!(m.get(0, 1), 0);
    assert_eq!(m.get(3, 3), 0);
}

#[test]
fn view_matrix_third_basis_row() {
    // camera at (0, 0, 5) looking at the origin, up (0, 1, 0): the third
    // basis row is the normalized (0, 0, 1)
    let eye = v3(0, 0, 5 * FX_ONE);
    let target = v3(0, 0, 0);
    let up = v3(0, FX_ONE, 0);
    let view = Matrix::<4, 4>::look_at_rh(&eye, &target, &up);
    assert_eq!(view.get(2, 0), 0);
    assert_eq!(view.get(2, 1), 0);
    assert_eq!(view.get(2, 2), FX_ONE);
    // side and true-up close the right-handed basis
    assert_eq!(view.get(0, 0), FX_ONE);
    assert_eq!(view.get(1, 1), FX_ONE);
    // the translation column carries the eye projections
    assert_eq!(view.get(2, 3), -5 * FX_ONE);
    assert_eq!(view.get(0, 3), 0);
    assert_eq!(view.get(3, 3), FX_ONE);
}

#[test]
fn look_to_left_handed_negates_direction() {
    let eye = v3(0, 0, 0);
    let dir = v3(0, 0, -5 * FX_ONE);
    let up = v3(0, FX_ONE, 0);
    let rh = Matrix::<4, 4>::look_to_rh(&eye, &dir, &up);
    let neg = v3(0, 0, 5 * FX_ONE);
    let lh = Matrix::<4, 4>::look_to_lh(&eye, &neg, &up);
    for r in 0..4 {
        for c in 0..4 {
            assert_eq!(rh.get(r, c), lh.get(r, c));
        }
    }
}

#[test]
fn depth_remap_matrix() {
    let m = opengl_to_wgpu_matrix();
    assert_eq!(m.get(0, 0), FX_ONE);
    assert_eq!(m.get(1, 1), FX_ONE);
    assert_eq!(m.get(2, 2), FX_HALF);
    assert_eq!(m.get(2, 3), FX_HALF);
    assert_eq!(m.get(3, 3), FX_ONE);
    assert_eq!(m.get(0, 1), 0);
}

#[test]
fn camera_builds_composed_matrix() {
    let cam = Camera::Prespective(CameraPrespective {
        eye: v3(0, 0, FX_ONE),
        target: v3(0, 0, -FX_ONE),
        up: v3(0, FX_ONE, 0),
        aspect: FX_ONE,
        fovy_rad: FX_HALF_PI,
        znear: 6554,  // 0.1
        zfar: 100 * FX_ONE,
    });
    let m = cam.build_projection_matrix();
    // the first row survives the depth remap and the axis-aligned view
    assert_eq!(m.get(0, 0), FX_ONE);
    assert_eq!(m.get(1, 1), FX_ONE);
    // the bottom row comes from the projection's -1 at (3, 2) times the
    // view basis
    assert_eq!(m.get(3, 2), -FX_ONE);
    let mut u = CameraUniform::default();
    assert_eq!(u.proj[0][0], FX_ONE);
    u.from_camera(&cam);
    assert_eq!(u.proj[0][0], m.get(0, 0));
    assert_eq!(u.proj[2][3], m.get(3, 2));
}

#[test]
fn transform_builders() {
    let t = Transform::identity();
    assert_eq!(t.position.get(0, 0), 0);
    assert_eq!(t.scale.get(1, 0), FX_ONE);
    assert_eq!(t.rotation.get(2, 0), 0);
    let t2 = t
        .with_position(v3(FX_ONE, 2 * FX_ONE, 3 * FX_ONE))
        .with_scale(v3(FX_ONE, FX_ONE, FX_ONE))
        .with_rotateion(v3(0, 0, 0));
    assert_eq!(t2.position.get(1, 0), 2 * FX_ONE);
    assert_eq!(t2.scale.get(0, 0), FX_ONE);
}

#[test]
fn record_roundtrip_position_and_scale() {
    // flatten a rotation-free transform and read position and scale back
    let t = Transform::identity()
        .with_position(v3(FX_ONE, 2 * FX_ONE, 3 * FX_ONE))
        .with_scale(v3(2 * FX_ONE, 3 * FX_ONE, 4 * FX_ONE));
    let rec = InstanceTransform::from_transform(&t);
    // the last column is exactly the position
    assert_eq!(rec.data[3][0], FX_ONE);
    assert_eq!(rec.data[3][1], 2 * FX_ONE);
    assert_eq!(rec.data[3][2], 3 * FX_ONE);
    assert_eq!(rec.data[3][3], FX_ONE);
    // the diagonal is exactly the scale
    assert_eq!(rec.data[0][0], 2 * FX_ONE);
    assert_eq!(rec.data[1][1], 3 * FX_ONE);
    assert_eq!(rec.data[2][2], 4 * FX_ONE);
    // off-diagonal rotation-free entries vanish
    assert_eq!(rec.data[1][0], 0);
    assert_eq!(rec.data[0][2], 0);
}

#[test]
fn record_with_rotation_keeps_position() {
    let t = Transform::identity()
        .with_position(v3(7 * FX_ONE, 0, -2 * FX_ONE))
        .with_rotateion(v3(1000, FX_HALF_PI, -3000));
    let rec = InstanceTransform::from_transform(&t);
    assert_eq!(rec.data[3][0], 7 * FX_ONE);
    assert_eq!(rec.data[3][1], 0);
    assert_eq!(rec.data[3][2], -2 * FX_ONE);
    assert_eq!(rec.data[3][3], FX_ONE);
}

#[test]
fn default_record_is_identity() {
    let d = InstanceTransform::default_record();
    for j in 0..4 {
        for i in 0..4 {
            assert_eq!(d.data[j][i], if i == j { FX_ONE } else { 0 });
        }
    }
    let _ = FX_PI;
}
