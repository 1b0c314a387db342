use matrix_renderer::math::matrices::Matrix;
use matrix_renderer::math::vectors::{isqrt, Vector1D, Vector2D, Vector3D, Vector4D, Crossable};
use matrix_renderer::math::trig::{sin_fx, cos_fx, mod_euclid, FX_ONE, FX_HALF_PI, FX_PI, FX_TWO_PI};
use matrix_renderer::div_trunc;

fn m2(vals: [[i64; 2]; 2]) -> Matrix<2, 2> {
    Matrix::<2, 2>::from_cols(vals)
}

#[test]
fn zeros_and_identity() {
    let z = Matrix::<3, 3>::zeros();
    for r in 0..3 {
        for c in 0..3 {
            assert_eq!(z.get(r, c), 0);
        }
    }
    let id = Matrix::<3, 3>::identity();
    for r in 0..3 {
        for c in 0..3 {
            assert_eq!(id.get(r, c), if r == c { 1 } else { 0 });
        }
    }
    let rect = Matrix::<2, 3>::identity();
    assert_eq!(rect.get(0, 0), 1);
    assert_eq!(rect.get(1, 1), 1);
    assert_eq!(rect.get(1, 2), 0);
}

#[test]
fn get_set_and_from_cols() {
    let mut m = Matrix::<2, 2>::zeros();
    m.set(0, 1, 7);
    assert_eq!(m.get(0, 1), 7);
    assert_eq!(m.get(1, 0), 0);
    let n = m2([[1, 2], [3, 4]]);
    // columns: first inner array is column 0
    assert_eq!(n.get(0, 0), 1);
    assert_eq!(n.get(1, 0), 2);
    assert_eq!(n.get(0, 1), 3);
    assert_eq!(n.get(1, 1), 4);
}

#[test]
fn identity_multiplication_is_neutral() {
    let m = m2([[5, -3], [2, 9]]);
    let id = Matrix::<2, 2>::identity();
    let left = id.mul_matrix(&m);
    let right = m.mul_matrix(&id);
    assert!(left == m);
    assert!(right == m);
}

#[test]
fn matrix_multiplication_exact() {
    // columns of a: (1, 3), (2, 4); i.e. rows (1, 2) and (3, 4)
    let a = m2([[1, 3], [2, 4]]);
    let b = m2([[5, 7], [6, 8]]);
    let p = a.mul_matrix(&b);
    // row 0 of a dot col 0 of b: 1*5 + 2*7 = 19
    assert_eq!(p.get(0, 0), 19);
    assert_eq!(p.get(1, 0), 43);
    assert_eq!(p.get(0, 1), 22);
    assert_eq!(p.get(1, 1), 50);
}

#[test]
fn add_sub_neg() {
    let a = m2([[1, 2], [3, 4]]);
    let b = m2([[10, 20], [30, 40]]);
    let s = a.add_matrix(&b);
    assert_eq!(s.get(0, 0), 11);
    assert_eq!(s.get(1, 1), 44);
    let d = b.sub_matrix(&a);
    assert_eq!(d.get(0, 0), 9);
    assert_eq!(d.get(1, 1), 36);
    let n = a.neg();
    assert_eq!(n.get(0, 0), -1);
    assert_eq!(n.get(1, 1), -4);
}

#[test]
fn elementwise_and_scalar_ops() {
    let a = m2([[2, 3], [4, 5]]);
    let b = m2([[10, 10], [10, 10]]);
    let m = a.mul_element_wise(&b);
    assert_eq!(m.get(0, 0), 20);
    assert_eq!(m.get(1, 1), 50);
    let p = a.element_wise_product(&b);
    assert_eq!(p.get(0, 0), 20);
    let q = b.div_element_wise(&a);
    assert_eq!(q.get(0, 0), 5);
    assert_eq!(q.get(1, 0), 3); // 10 / 3 rounded toward zero
    let sm = a.mul_scalar(3);
    assert_eq!(sm.get(1, 1), 15);
    let sd = a.div_scalar(2);
    assert_eq!(sd.get(0, 1), 2); // 4 / 2
    assert_eq!(sd.get(1, 0), 1); // 3 / 2 rounded toward zero
}

#[test]
fn division_rounds_toward_zero() {
    assert_eq!(div_trunc(7, 2), 3);
    assert_eq!(div_trunc(-7, 2), -3);
    assert_eq!(div_trunc(7, -2), -3);
    assert_eq!(div_trunc(-7, -2), 3);
}

#[test]
fn transpose_swaps_indices() {
    let a = Matrix::<2, 3>::from_cols([[1, 2], [3, 4], [5, 6]]);
    let t = a.trasnpose();
    for r in 0..2 {
        for c in 0..3 {
            assert_eq!(a.get(r, c), t.get(c, r));
        }
    }
}

#[test]
fn max_iter_and_columns() {
    let a = m2([[1, 9], [-4, 2]]);
    assert_eq!(a.max(), 9);
    let items = a.iter();
    assert_eq!(items.len(), 4);
    // storage order: rows vary fastest within a column
    assert_eq!(items[0], ((0, 0), 1));
    assert_eq!(items[1], ((1, 0), 9));
    assert_eq!(items[2], ((0, 1), -4));
    assert_eq!(items[3], ((1, 1), 2));
    let owned = a.into_iter();
    assert_eq!(owned, items);
    let cols = a.sub_matrices_vertically();
    assert_eq!(cols.len(), 2);
    assert_eq!(cols[0].get(0, 0), 1);
    assert_eq!(cols[0].get(1, 0), 9);
    assert_eq!(cols[1].get(0, 0), -4);
}

#[test]
fn generate_map_and_iter_mut() {
    let g = Matrix::<2, 2>::generate(|| 7);
    assert_eq!(g.get(0, 0), 7);
    assert_eq!(g.get(1, 1), 7);
    let a = m2([[1, 2], [3, 4]]);
    let doubled = a.map(|_pos, v| v * 2);
    assert_eq!(doubled.get(0, 0), 2);
    assert_eq!(doubled.get(1, 1), 8);
    let mut b = m2([[1, 2], [3, 4]]);
    b.iter_mut(|_pos, v| v + 1);
    assert_eq!(b.get(0, 0), 2);
    assert_eq!(b.get(1, 1), 5);
}

#[test]
fn clone_and_equality() {
    let a = m2([[1, 2], [3, 4]]);
    let b = a.clone();
    assert!(a == b);
    let mut c = a.clone();
    c.set(0, 0, 99);
    assert!(a != c);
}

#[test]
fn integer_square_root() {
    assert_eq!(isqrt(0), 0);
    assert_eq!(isqrt(1), 1);
    assert_eq!(isqrt(3), 1);
    assert_eq!(isqrt(4), 2);
    assert_eq!(isqrt(99), 9);
    assert_eq!(isqrt(100), 10);
    assert_eq!(isqrt(i64::MAX), 3_037_000_499);
}

#[test]
fn dot_and_cross_products() {
    let a = Matrix::<3, 1>::from_cols([[1, 2, 3]]);
    let b = Matrix::<3, 1>::from_cols([[4, 5, 6]]);
    assert_eq!(a.dot(&b), 32);
    let c = a.cross(&b);
    assert_eq!(c.get(0, 0), 2 * 6 - 3 * 5);
    assert_eq!(c.get(1, 0), 3 * 4 - 1 * 6);
    assert_eq!(c.get(2, 0), 1 * 5 - 2 * 4);
    // the cross product is orthogonal to both factors
    assert_eq!(c.dot(&a), 0);
    assert_eq!(c.dot(&b), 0);
}

#[test]
fn normalize_unit_and_zero() {
    // an axis-aligned vector normalizes exactly to the fixed-point unit
    let v = Matrix::<3, 1>::from_cols([[0, 0, -5 * FX_ONE]]);
    let n = v.normalized();
    assert_eq!(n.get(0, 0), 0);
    assert_eq!(n.get(1, 0), 0);
    assert_eq!(n.get(2, 0), -FX_ONE);
    assert_eq!(n.dot(&n), FX_ONE * FX_ONE);
    // a diagonal vector lands within the truncation slack of unit length
    let w = Matrix::<3, 1>::from_cols([[3 * FX_ONE, 4 * FX_ONE, 0]]);
    let nw = w.normalized();
    assert_eq!(nw.get(0, 0), 39321);
    assert_eq!(nw.get(1, 0), 52428);
    let len2 = nw.dot(&nw);
    assert!((len2 - FX_ONE * FX_ONE).abs() <= 10 * FX_ONE);
    // the zero vector is returned unchanged
    let z = Matrix::<3, 1>::zeros();
    let nz = z.normalized();
    assert!(nz == z);
}

#[test]
fn vector_accessors() {
    let mut v1 = Matrix::<1, 1>::from_cols([[5]]);
    assert_eq!(Vector1D::x(&v1), 5);
    Vector1D::set_x(&mut v1, 6);
    assert_eq!(Vector1D::x(&v1), 6);
    let mut v2 = Matrix::<2, 1>::from_cols([[1, 2]]);
    assert_eq!(Vector2D::y(&v2), 2);
    Vector2D::set_y(&mut v2, 9);
    assert_eq!(Vector2D::y(&v2), 9);
    assert_eq!(Vector2D::x(&v2), 1);
    let mut v3 = Matrix::<3, 1>::from_cols([[1, 2, 3]]);
    assert_eq!(Vector3D::z(&v3), 3);
    Vector3D::set_z(&mut v3, 7);
    assert_eq!(Vector3D::z(&v3), 7);
    let a = Matrix::<3, 1>::from_cols([[1, 0, 0]]);
    let b = Matrix::<3, 1>::from_cols([[0, 1, 0]]);
    let c = Crossable::cross(&a, &b);
    assert_eq!(Vector3D::z(&c), 1);
    let mut v4 = Matrix::<4, 1>::from_cols([[1, 2, 3, 4]]);
    assert_eq!(Vector4D::w(&v4), 4);
    Vector4D::set_w(&mut v4, 8);
    assert_eq!(Vector4D::w(&v4), 8);
}

#[test]
fn trig_key_angles() {
    assert_eq!(sin_fx(0), 0);
    assert_eq!(cos_fx(0), FX_ONE);
    assert_eq!(sin_fx(FX_HALF_PI), FX_ONE);
    assert_eq!(sin_fx(FX_PI), 0);
    assert_eq!(sin_fx(3 * FX_HALF_PI), -FX_ONE);
    assert_eq!(sin_fx(51472), 46260);
    assert_eq!(cos_fx(51472), 46260);
    // a small angle: close to the angle itself
    assert_eq!(sin_fx(1000), 1017);
    // periodicity
    assert_eq!(sin_fx(FX_HALF_PI + FX_TWO_PI), FX_ONE);
    assert_eq!(sin_fx(FX_HALF_PI - FX_TWO_PI), FX_ONE);
}

#[test]
fn euclidean_remainder() {
    assert_eq!(mod_euclid(7, 3), 1);
    assert_eq!(mod_euclid(-7, 3), 2);
    assert_eq!(mod_euclid(0, 3), 0);
    assert_eq!(mod_euclid(-3, 3), 0);
}

#[test]
fn sine_tracks_the_real_sine() {
    // the rational approximation stays within one percent of full scale
    // across a few turns
    let mut x: i64 = -3 * FX_TWO_PI;
    while x <= 3 * FX_TWO_PI {
        let approx = sin_fx(x) as f64 / FX_ONE as f64;
        let exact = ((x as f64) / (FX_ONE as f64)).sin();
        assert!(
            (approx - exact).abs() < 0.01,
            "sin_fx({x}) = {approx}, sin = {exact}"
        );
        x += 1234;
    }
}
