use softrender::geom::{Barycentric, cartesian_to_barycentric, interpolate, is_point_in_triangle};

#[test]
fn point_inside_right_triangle() {
    assert!(is_point_in_triangle((0, 0), (4, 0), (0, 4), (1, 1)));
}

#[test]
fn point_outside_right_triangle() {
    assert!(!is_point_in_triangle((0, 0), (4, 0), (0, 4), (5, 5)));
}

#[test]
fn boundary_points_count_as_inside() {
    assert!(is_point_in_triangle((0, 0), (4, 0), (0, 4), (0, 0)));
    assert!(is_point_in_triangle((0, 0), (4, 0), (0, 4), (2, 0)));
    assert!(is_point_in_triangle((0, 0), (4, 0), (0, 4), (2, 2)));
}

#[test]
fn barycentric_weights_are_exact_rationals() {
    let b = cartesian_to_barycentric((0, 0), (4, 0), (0, 4), (1, 1));
    assert_eq!(b, Barycentric { a_num: -8, b_num: -4, c_num: -4, den: -16 });
    assert_eq!(b.a_num + b.b_num + b.c_num, b.den);
}

#[test]
fn degenerate_triangle_yields_the_negative_sentinel() {
    let b = cartesian_to_barycentric((0, 0), (2, 2), (4, 4), (1, 1));
    assert_eq!(b, Barycentric { a_num: 0, b_num: 0, c_num: -1, den: 1 });
    assert!(!is_point_in_triangle((0, 0), (2, 2), (4, 4), (1, 1)));
}

#[test]
fn interpolating_a_constant_attribute_returns_it() {
    let b = cartesian_to_barycentric((0, 0), (4, 0), (0, 4), (1, 1));
    assert_eq!(interpolate(&b, 5_000_000, 5_000_000, 5_000_000), 5_000_000);
}

#[test]
fn interpolation_matches_the_weights() {
    // Weights at (1, 1) are (1/2, 1/4, 1/4).
    let b = cartesian_to_barycentric((0, 0), (4, 0), (0, 4), (1, 1));
    assert_eq!(interpolate(&b, 1_000_000, 0, 0), 500_000);
    assert_eq!(interpolate(&b, 0, 1_000_000, 0), 250_000);
    assert_eq!(interpolate(&b, 0, 0, 1_000_000), 250_000);
}
