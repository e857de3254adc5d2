use nalgebra::{Vector2, Vector3};
use robust_geo as rg;
use simplicity::cascade::{in_circle, in_sphere, orient_1d, orient_2d, orient_3d};
use simplicity::sign_test::{PlaneTest, SpaceTest};

fn sign(v: f64) -> i8 {
    if v > 0.0 {
        1
    } else if v < 0.0 {
        -1
    } else {
        0
    }
}

fn line_compare(points: &[f64], a: usize, b: usize) -> i8 {
    sign(points[a] - points[b])
}

fn plane(p: Vector2<f64>, axes: [usize; 2]) -> Vector2<f64> {
    Vector2::new(p[axes[0]], p[axes[1]])
}

fn space2(p: Vector3<f64>, axes: [usize; 2]) -> Vector2<f64> {
    Vector2::new(p[axes[0]], p[axes[1]])
}

fn space3(p: Vector3<f64>, axes: [usize; 3]) -> Vector3<f64> {
    Vector3::new(p[axes[0]], p[axes[1]], p[axes[2]])
}

fn plane_sign(points: &[Vector2<f64>], t: PlaneTest) -> i8 {
    let p = |i: usize| points[i];
    match t {
        PlaneTest::Coordinate { a, b, axis } => sign(p(a)[axis] - p(b)[axis]),
        PlaneTest::Orient { a, b, c, axes } => {
            sign(rg::orient_2d(plane(p(a), axes), plane(p(b), axes), plane(p(c), axes)))
        }
        PlaneTest::Lifted { a, b, c, axes } => {
            sign(rg::sign_det_x_x2y2(plane(p(a), axes), plane(p(b), axes), plane(p(c), axes)))
        }
        PlaneTest::InCircle { a, b, c, d } => sign(rg::in_circle(p(a), p(b), p(c), p(d))),
    }
}

fn space_sign(points: &[Vector3<f64>], t: SpaceTest) -> i8 {
    let p = |i: usize| points[i];
    match t {
        SpaceTest::Coordinate { a, b, axis } => sign(p(a)[axis] - p(b)[axis]),
        SpaceTest::Magnitude { a, b } => sign(rg::magnitude_cmp_3d(p(a), p(b))),
        SpaceTest::Orient2 { a, b, c, axes } => {
            sign(rg::orient_2d(space2(p(a), axes), space2(p(b), axes), space2(p(c), axes)))
        }
        SpaceTest::Orient3 { a, b, c, d } => sign(rg::orient_3d(p(a), p(b), p(c), p(d))),
        SpaceTest::Lifted1 { a, b, c, axes } => {
            sign(rg::sign_det_x_x2y2z2(space3(p(a), axes), space3(p(b), axes), space3(p(c), axes)))
        }
        SpaceTest::Lifted2 { a, b, c, d, axes } => sign(rg::sign_det_x_y_x2y2z2(
            space3(p(a), axes),
            space3(p(b), axes),
            space3(p(c), axes),
            space3(p(d), axes),
        )),
        SpaceTest::InSphere { a, b, c, d, e } => sign(rg::in_sphere(p(a), p(b), p(c), p(d), p(e))),
    }
}

fn points2(raw: &[[f64; 2]]) -> Vec<Vector2<f64>> {
    raw.iter().map(|&[x, y]| Vector2::new(x, y)).collect()
}

fn points3(raw: &[[i32; 3]]) -> Vec<Vector3<f64>> {
    raw.iter().map(|&[x, y, z]| Vector3::new(x as f64, y as f64, z as f64)).collect()
}

fn o2(points: &[Vector2<f64>], i: usize, j: usize, k: usize) -> bool {
    orient_2d(i, j, k, |t| plane_sign(points, t))
}

fn o3(points: &[Vector3<f64>], i: usize, j: usize, k: usize, l: usize) -> bool {
    orient_3d(i, j, k, l, |t| space_sign(points, t))
}

fn ic(points: &[Vector2<f64>], i: usize, j: usize, k: usize, l: usize) -> bool {
    in_circle(i, j, k, l, |t| plane_sign(points, t))
}

fn is(points: &[Vector3<f64>], i: usize, j: usize, k: usize, l: usize, m: usize) -> bool {
    in_sphere(i, j, k, l, m, |t| space_sign(points, t))
}

#[test]
fn orient_1d_positive() {
    let points = vec![0.0, 1.0];
    assert!(orient_1d(1, 0, |a, b| line_compare(&points, a, b)))
}

#[test]
fn orient_1d_negative() {
    let points = vec![0.0, 1.0];
    assert!(!orient_1d(0, 1, |a, b| line_compare(&points, a, b)))
}

#[test]
fn orient_1d_positive_degenerate() {
    let points = vec![0.0, 0.0];
    assert!(orient_1d(0, 1, |a, b| line_compare(&points, a, b)))
}

#[test]
fn orient_1d_negative_degenerate() {
    let points = vec![0.0, 0.0];
    assert!(!orient_1d(1, 0, |a, b| line_compare(&points, a, b)))
}

#[test]
fn orient_1d_equal_points_lower_index_first() {
    let points = vec![0.0, 1.0, 2.0, 1.0];
    assert!(orient_1d(1, 3, |a, b| line_compare(&points, a, b)));
    assert!(!orient_1d(3, 1, |a, b| line_compare(&points, a, b)));
}

fn check_orient_2d(raw: [[f64; 2]; 3]) {
    let points = points2(&raw);
    assert!(o2(&points, 0, 1, 2));
    assert!(!o2(&points, 0, 2, 1));
    assert!(!o2(&points, 1, 0, 2));
    assert!(o2(&points, 1, 2, 0));
    assert!(o2(&points, 2, 0, 1));
    assert!(!o2(&points, 2, 1, 0));
}

#[test]
fn orient_2d_general() {
    check_orient_2d([[0.0, 0.0], [1.0, 0.0], [2.0, 1.0]]);
}

#[test]
fn orient_2d_collinear() {
    check_orient_2d([[0.0, 0.0], [1.0, 1.0], [2.0, 2.0]]);
}

#[test]
fn orient_2d_collinear_same_x() {
    check_orient_2d([[0.0, 0.0], [0.0, 2.0], [0.0, 1.0]]);
}

#[test]
fn orient_2d_two_equal() {
    check_orient_2d([[1.0, 0.0], [0.0, 2.0], [0.0, 2.0]]);
}

#[test]
fn orient_2d_two_equal_same_x() {
    check_orient_2d([[0.0, 0.0], [0.0, 2.0], [0.0, 2.0]]);
}

#[test]
fn orient_2d_documented_examples() {
    let points = points2(&[[0.0, 0.0], [1.0, 0.0], [1.0, 1.0], [0.0, 1.0], [2.0, 0.0]]);
    assert!(o2(&points, 0, 1, 2));
    assert!(!o2(&points, 0, 3, 2));
    assert!(o2(&points, 0, 1, 4));
    assert!(!o2(&points, 4, 1, 0));
}

fn check_orient_3d(raw: [[i32; 3]; 4]) {
    let points = points3(&raw);
    assert!(o3(&points, 0, 1, 2, 3));
    assert!(!o3(&points, 3, 2, 0, 1));
}

#[test]
fn orient_3d_general() {
    check_orient_3d([[0, 0, 0], [0, 0, 1], [0, 1, 0], [1, 0, 0]]);
}

#[test]
fn orient_3d_coplanar() {
    check_orient_3d([[0, 0, 0], [1, 1, 1], [3, 4, 5], [2, 3, 4]]);
}

#[test]
fn orient_3d_coplanar_projection_collinear() {
    check_orient_3d([[0, 0, 0], [1, 1, 1], [2, 2, 4], [3, 3, 5]]);
}

#[test]
fn orient_3d_collinear_triple() {
    check_orient_3d([[0, 0, 0], [1, 2, 3], [2, 3, 4], [3, 4, 5]]);
}

#[test]
fn orient_3d_last_two_equal() {
    check_orient_3d([[0, 0, 0], [1, 0, 0], [2, 1, 0], [2, 1, 0]]);
}

#[test]
fn orient_3d_three_equal() {
    check_orient_3d([[0, 0, 0], [0, 2, 0], [0, 2, 0], [0, 2, 0]]);
}

#[test]
fn orient_3d_all_collinear() {
    // The first nonzero coefficient of the expansion is that of ε(0,y)·ε(1,z),
    // and it is negative; the cascade reaches it as the x-comparison of the
    // last two points.
    let points = points3(&[[0, 0, 0], [1, 1, 1], [2, 2, 2], [3, 3, 3]]);
    assert!(!o3(&points, 0, 1, 2, 3));
    assert!(o3(&points, 1, 0, 2, 3));
}

#[test]
fn orient_3d_documented_examples() {
    let points = points3(&[
        [0, 0, 0],
        [1, 0, 0],
        [1, 1, 1],
        [2, -2, 0],
        [2, 3, 4],
        [0, 0, 1],
        [0, 1, 0],
        [3, 4, 5],
    ]);
    assert!(!o3(&points, 0, 1, 6, 5));
    assert!(o3(&points, 7, 4, 0, 2));
}

fn check_in_circle(raw: [[f64; 2]; 4]) {
    let points = points2(&raw);
    assert!(ic(&points, 0, 1, 2, 3));
    assert!(ic(&points, 0, 2, 1, 3));
    assert!(ic(&points, 1, 2, 0, 3));
    assert!(ic(&points, 1, 0, 2, 3));
    assert!(ic(&points, 2, 0, 1, 3));
    assert!(ic(&points, 2, 1, 0, 3));
    assert!(
        (ic(&points, 0, 1, 2, 3) == ic(&points, 0, 1, 3, 2))
            == (o2(&points, 0, 1, 3) != o2(&points, 0, 1, 2))
    );
}

#[test]
fn in_circle_general() {
    check_in_circle([[0.0, 0.0], [0.0, 2.0], [2.0, 2.0], [1.0, 1.0]]);
}

#[test]
fn in_circle_cocircular() {
    check_in_circle([[1.0, 0.0], [3.0, 1.0], [2.0, 3.0], [0.0, 2.0]]);
}

#[test]
fn in_circle_cocircular_collinear() {
    check_in_circle([[0.0, 0.0], [1.0, 1.0], [3.0, 3.0], [2.0, 2.0]]);
}

#[test]
fn in_circle_two_equal() {
    check_in_circle([[1.0, 1.0], [0.0, 0.0], [0.0, 0.0], [2.0, 3.0]]);
}

#[test]
fn in_circle_last_two_equal() {
    check_in_circle([[0.0, 0.0], [1.0, 0.0], [2.0, 1.0], [2.0, 1.0]]);
}

#[test]
fn in_circle_three_equal_same_x() {
    check_in_circle([[0.0, 0.0], [0.0, 2.0], [0.0, 2.0], [0.0, 2.0]]);
}

#[test]
fn in_circle_documented_examples() {
    let points = points2(&[[0.0, 2.0], [1.0, 1.0], [2.0, 1.0], [0.0, 0.0], [2.0, 3.0]]);
    assert!(ic(&points, 0, 2, 3, 1));
    assert!(!ic(&points, 2, 3, 1, 4));
}

fn check_in_sphere(raw: [[i32; 3]; 5]) {
    let points = points3(&raw);
    assert!(is(&points, 0, 1, 2, 3, 4));
    assert!(is(&points, 0, 2, 1, 3, 4));
    assert!(is(&points, 1, 2, 0, 3, 4));
    assert!(is(&points, 1, 3, 0, 2, 4));
    assert!(is(&points, 2, 3, 0, 1, 4));
    assert!(is(&points, 2, 3, 1, 0, 4));
    assert!(
        (is(&points, 0, 1, 2, 3, 4) == is(&points, 0, 1, 2, 4, 3))
            == (o3(&points, 0, 1, 2, 3) != o3(&points, 0, 1, 2, 4))
    );
}

#[test]
fn in_sphere_general() {
    check_in_sphere([[0, 0, 0], [4, 0, 0], [0, 4, 0], [0, 0, 4], [1, 1, 1]]);
}

#[test]
fn in_sphere_cospherical() {
    check_in_sphere([[0, 0, 0], [2, 0, 0], [2, 2, 2], [2, 2, 0], [0, 2, 2]]);
}

#[test]
fn in_sphere_cospherical_coplanar() {
    check_in_sphere([[0, 0, 0], [1, 1, 1], [2, 2, 2], [2, 4, 4], [2, 3, 3]]);
}

#[test]
fn in_sphere_cocircular() {
    check_in_sphere([[0, 0, 0], [1, 0, 0], [1, 0, 0], [0, 0, 1], [0, 1, 0]]);
}

#[test]
fn in_sphere_two_of_last_three_equal() {
    check_in_sphere([[0, 0, 0], [1, 0, 0], [0, 1, 0], [0, 1, 0], [0, 0, 1]]);
}

#[test]
fn in_sphere_magnitude_case() {
    check_in_sphere([[0, 1, 2], [0, 2, 1], [0, 2, 2], [0, 2, 0], [0, 2, 1]]);
}

#[test]
fn in_sphere_last_two_equal() {
    check_in_sphere([[0, 0, 0], [1, 1, 1], [0, 1, 0], [1, 0, 0], [1, 0, 0]]);
}

#[test]
fn in_sphere_last_three_equal() {
    check_in_sphere([[0, 0, 0], [1, 0, 0], [2, 1, 0], [2, 1, 0], [2, 1, 0]]);
}

#[test]
fn in_sphere_four_equal() {
    check_in_sphere([[0, 0, 0], [0, 2, 0], [0, 2, 0], [0, 2, 0], [0, 2, 0]]);
}

#[test]
fn in_sphere_documented_examples() {
    let points = points3(&[[0, 0, 0], [4, 0, 0], [0, 4, 0], [0, 0, 4], [1, 1, 1]]);
    assert!(is(&points, 0, 1, 2, 3, 4));
    assert!(is(&points, 0, 2, 3, 1, 4));
    assert!(!is(&points, 2, 3, 1, 4, 0));
}

#[test]
fn scenario_orient_2d_general() {
    let points = points2(&[[0.0, 0.0], [1.0, 0.0], [2.0, 1.0]]);
    assert!(o2(&points, 0, 1, 2));
}

#[test]
fn scenario_orient_2d_collinear() {
    let points = points2(&[[0.0, 0.0], [1.0, 1.0], [2.0, 2.0]]);
    assert!(o2(&points, 0, 1, 2));
}

#[test]
fn scenario_in_circle_general() {
    let points = points2(&[[0.0, 0.0], [0.0, 2.0], [2.0, 2.0], [1.0, 1.0]]);
    assert!(ic(&points, 0, 1, 2, 3));
}

#[test]
fn scenario_in_circle_cocircular() {
    let points = points2(&[[1.0, 0.0], [3.0, 1.0], [2.0, 3.0], [0.0, 2.0]]);
    assert!(ic(&points, 0, 1, 2, 3));
    let same = ic(&points, 0, 1, 2, 3) == ic(&points, 0, 1, 3, 2);
    assert_eq!(same, o2(&points, 0, 1, 3) != o2(&points, 0, 1, 2));
}

#[test]
fn scenario_in_sphere() {
    let points = points3(&[[0, 0, 0], [4, 0, 0], [0, 4, 0], [0, 0, 4], [1, 1, 1]]);
    assert!(is(&points, 0, 1, 2, 3, 4));
    assert!(!is(&points, 2, 3, 1, 4, 0));
}


#[test]
fn orient_swaps_flip_and_swapping_twice_restores() {
    let points = points3(&[[0, 0, 0], [1, 2, 3], [2, 3, 4], [3, 4, 5]]);
    let base = o3(&points, 0, 1, 2, 3);
    assert_eq!(o3(&points, 1, 0, 2, 3), !base);
    assert_eq!(o3(&points, 3, 1, 2, 0), !base);
    assert_eq!(o3(&points, 0, 2, 1, 3), !base);
    assert_eq!(o3(&points, 0, 1, 2, 3), base);
}

#[test]
fn predicates_are_deterministic() {
    let points = points3(&[[0, 0, 0], [0, 0, 0], [1, 0, 0], [0, 0, 0], [0, 0, 1]]);
    assert_eq!(is(&points, 0, 1, 2, 3, 4), is(&points, 0, 1, 2, 3, 4));
    assert_eq!(o3(&points, 4, 2, 1, 0), o3(&points, 4, 2, 1, 0));
}

#[test]
fn oracle_sees_sorted_indices() {
    let points = points2(&[[0.0, 0.0], [1.0, 0.0], [2.0, 1.0]]);
    let seen = std::cell::RefCell::new(Vec::new());
    let r = orient_2d(2, 0, 1, |t| {
        seen.borrow_mut().push(t);
        plane_sign(&points, t)
    });
    assert!(r);
    assert_eq!(seen.borrow().len(), 1);
    assert_eq!(seen.borrow()[0], PlaneTest::Orient { a: 0, b: 1, c: 2, axes: [0, 1] });
}
