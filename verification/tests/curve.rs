use glyph_mesh::curve::{lerp_points, point_on_cubic, point_on_quad};
use glyph_mesh::geometry::Point;

#[test]
fn lerp_is_a_numerator_over_the_steps() {
    let a = Point { x: 0, y: 10 };
    let b = Point { x: 8, y: -10 };
    assert_eq!(lerp_points(a, b, 0, 4), Point { x: 0, y: 40 });
    assert_eq!(lerp_points(a, b, 1, 4), Point { x: 8, y: 20 });
    assert_eq!(lerp_points(a, b, 3, 4), Point { x: 24, y: -20 });
    assert_eq!(lerp_points(a, b, 4, 4), Point { x: 32, y: -40 });
}

#[test]
fn quad_point_lies_on_the_curve() {
    let p0 = Point { x: 0, y: 0 };
    let p1 = Point { x: 10, y: 20 };
    let p2 = Point { x: 20, y: 0 };
    // at one half: a quarter of each end and half of the control point, over four
    assert_eq!(point_on_quad(p0, p1, p2, 1, 2), Point { x: 40, y: 40 });
    // at one quarter: 9/16, 6/16 and 1/16, over sixteen
    assert_eq!(point_on_quad(p0, p1, p2, 1, 4), Point { x: 80, y: 120 });
    let x = 80.0_f64 / 16.0;
    let y = 120.0_f64 / 16.0;
    assert_eq!(x, 0.5625 * 0.0 + 0.375 * 10.0 + 0.0625 * 20.0);
    assert_eq!(y, 0.375 * 20.0);
}

#[test]
fn quad_begins_and_ends_at_its_ends() {
    let p0 = Point { x: -3, y: 7 };
    let p1 = Point { x: 100, y: -50 };
    let p2 = Point { x: 9, y: 11 };
    assert_eq!(point_on_quad(p0, p1, p2, 0, 5), Point { x: -75, y: 175 });
    assert_eq!(point_on_quad(p0, p1, p2, 5, 5), Point { x: 225, y: 275 });
}

#[test]
fn cubic_point_lies_on_the_curve() {
    let p0 = Point { x: 0, y: 0 };
    let p1 = Point { x: 0, y: 8 };
    let p2 = Point { x: 8, y: 8 };
    let p3 = Point { x: 8, y: 0 };
    // at one half: 1/8, 3/8, 3/8 and 1/8, over eight
    assert_eq!(point_on_cubic(p0, p1, p2, p3, 1, 2), Point { x: 32, y: 48 });
    // at one third: 8/27, 12/27, 6/27 and 1/27, over twenty-seven
    assert_eq!(point_on_cubic(p0, p1, p2, p3, 1, 3), Point { x: 56, y: 144 });
    assert_eq!(point_on_cubic(p0, p1, p2, p3, 3, 3), Point { x: 216, y: 0 });
}

#[test]
fn curve_points_with_the_largest_inputs_do_not_overflow() {
    let big = i32::MAX as i128;
    let small = i32::MIN as i128;
    let p0 = Point { x: big, y: small };
    let p1 = Point { x: big, y: small };
    let p2 = Point { x: big, y: small };
    let p3 = Point { x: big, y: small };
    let n: u16 = u16::MAX;
    let cube = (n as i128) * (n as i128) * (n as i128);
    assert_eq!(
        point_on_cubic(p0, p1, p2, p3, 12345, n),
        Point { x: big * cube, y: small * cube }
    );
}
