use rusterizer::fixed::Fixed;
use rusterizer::linalg::{Pixel, Point3, Point4};
use rusterizer::triangle::{Barycentric, GeometryError, ScreenPoint, ScreenTriangle, Triangle};

fn fx(v: f64) -> Fixed {
    Fixed::from_raw((v * 65536.0).round() as i32)
}

fn point4(x: f64, y: f64, z: f64, w: f64) -> Point4 {
    Point4 { x: fx(x), y: fx(y), z: fx(z), w: fx(w) }
}

fn at(x: u32, y: u32) -> Pixel {
    Pixel { x, y }
}

fn triangle(a: Point4, b: Point4, c: Point4) -> Triangle {
    let o = Point3 { x: fx(0.0), y: fx(0.0), z: fx(0.0) };
    let mut t = Triangle::new(o, o, o);
    t.set_vertex([a, b, c]);
    t
}

/// Corners (1, 1), (9, 1), (1, 9), counter-clockwise, with depths 10, 20, 30 and
/// fourth coordinates 1, 2, 4.
fn sample() -> Triangle {
    triangle(point4(1.0, 1.0, 10.0, 1.0), point4(9.0, 1.0, 20.0, 2.0), point4(1.0, 9.0, 30.0, 4.0))
}

#[test]
fn new_triangle_is_white_with_zero_fourth_coordinates() {
    let a = Point3 { x: fx(2.0), y: fx(0.0), z: fx(-2.0) };
    let b = Point3 { x: fx(0.0), y: fx(2.0), z: fx(-2.0) };
    let c = Point3 { x: fx(-2.0), y: fx(0.0), z: fx(-2.0) };
    let t = Triangle::new(a, b, c);
    assert_eq!(t.a(), point4(2.0, 0.0, -2.0, 0.0));
    assert_eq!(t.b(), point4(0.0, 2.0, -2.0, 0.0));
    assert_eq!(t.c(), point4(-2.0, 0.0, -2.0, 0.0));
    assert_eq!(t.get_vertex(), [t.a(), t.b(), t.c()]);
    assert_eq!(t.get_color(), [255, 255, 255]);
}

#[test]
fn setters_replace_corners_and_colour() {
    let mut t = sample();
    t.set_color([52, 134, 235]);
    assert_eq!(t.get_color(), [52, 134, 235]);
    assert_eq!(t.a(), point4(1.0, 1.0, 10.0, 1.0));
    let moved = [point4(0.0, 0.0, 1.0, 1.0), point4(4.0, 0.0, 1.0, 1.0), point4(0.0, 4.0, 1.0, 1.0)];
    t.set_vertex(moved);
    assert_eq!(t.get_vertex(), moved);
    assert_eq!(t.b(), moved[1]);
    assert_eq!(t.c(), moved[2]);
    assert_eq!(t.get_color(), [52, 134, 235]);
}

#[test]
fn copies_are_independent() {
    let kept = sample();
    let mut copy = kept;
    copy.set_vertex([point4(0.0, 0.0, 0.0, 1.0); 3]);
    copy.set_color([1, 2, 3]);
    assert_eq!(kept, sample());
    assert_ne!(copy, kept);
}

#[test]
fn bounding_box_is_left_right_top_bottom() {
    let t = triangle(point4(0.5, 0.25, 1.0, 1.0), point4(6.75, 1.5, 1.0, 1.0), point4(2.25, 5.5, 1.0, 1.0));
    assert_eq!(t.get_bounding(), [fx(0.5), fx(6.75), fx(5.5), fx(0.25)]);
    let u = triangle(point4(-3.0, 7.0, 0.0, 1.0), point4(-8.0, -2.0, 0.0, 1.0), point4(4.0, 1.0, 0.0, 1.0));
    assert_eq!(u.get_bounding(), [fx(-8.0), fx(4.0), fx(7.0), fx(-2.0)]);
    let point = triangle(point4(2.0, 3.0, 0.0, 1.0), point4(2.0, 3.0, 0.0, 1.0), point4(2.0, 3.0, 0.0, 1.0));
    assert_eq!(point.get_bounding(), [fx(2.0), fx(2.0), fx(3.0), fx(3.0)]);
}

#[test]
fn pixels_strictly_inside_are_included() {
    let t = sample();
    assert!(t.include_point(at(2, 2)));
    assert!(t.include_point(at(3, 3)));
    assert!(t.include_point(at(4, 5)));
    assert!(t.include_point(at(2, 7)));
}

#[test]
fn pixels_on_an_edge_or_a_corner_are_excluded() {
    let t = sample();
    assert!(!t.include_point(at(1, 1)));
    assert!(!t.include_point(at(5, 1)));
    assert!(!t.include_point(at(1, 5)));
    assert!(!t.include_point(at(5, 5)));
    assert!(!t.include_point(at(8, 1)));
}

#[test]
fn pixels_outside_are_excluded() {
    let t = sample();
    assert!(!t.include_point(at(0, 0)));
    assert!(!t.include_point(at(10, 10)));
    assert!(!t.include_point(at(6, 5)));
    assert!(!t.include_point(at(u32::MAX, u32::MAX)));
    assert!(!t.include_point(at(0, u32::MAX)));
}

#[test]
fn winding_does_not_matter_for_inclusion() {
    let t = sample();
    let clockwise = triangle(t.a(), t.c(), t.b());
    for x in 0..11 {
        for y in 0..11 {
            assert_eq!(t.include_point(at(x, y)), clockwise.include_point(at(x, y)));
        }
    }
}

#[test]
fn included_pixels_of_a_slanted_triangle() {
    let t = triangle(point4(0.5, 0.25, 1.0, 1.0), point4(6.75, 1.5, 1.0, 1.0), point4(2.25, 5.5, 1.0, 1.0));
    let mut inside = Vec::new();
    for y in 0..7 {
        for x in 0..8 {
            if t.include_point(at(x, y)) {
                inside.push((x, y));
            }
        }
    }
    assert_eq!(
        inside,
        vec![
            (1, 1), (2, 1), (3, 1), (4, 1),
            (2, 2), (3, 2), (4, 2), (5, 2), (6, 2),
            (2, 3), (3, 3), (4, 3), (5, 3),
            (2, 4), (3, 4),
        ]
    );
}

#[test]
fn degenerate_triangle_includes_nothing() {
    let line = triangle(point4(0.0, 0.0, 1.0, 1.0), point4(4.0, 4.0, 1.0, 1.0), point4(8.0, 8.0, 1.0, 1.0));
    for x in 0..9 {
        for y in 0..9 {
            assert!(!line.include_point(at(x, y)));
        }
    }
}

#[test]
fn barycentric_weights_are_exact_fractions() {
    let t = sample();
    assert_eq!(
        t.get_bary_centric(at(2, 2)),
        Ok(Barycentric {
            alpha: 206158430208,
            beta: 34359738368,
            gamma: 34359738368,
            total: 274877906944,
        })
    );
    assert_eq!(
        t.get_bary_centric(at(4, 5)),
        Ok(Barycentric {
            alpha: 34359738368,
            beta: 103079215104,
            gamma: 137438953472,
            total: 274877906944,
        })
    );
}

#[test]
fn barycentric_weights_at_the_corners() {
    let t = sample();
    let total = 274877906944;
    assert_eq!(t.get_bary_centric(at(1, 1)), Ok(Barycentric { alpha: total, beta: 0, gamma: 0, total }));
    assert_eq!(t.get_bary_centric(at(9, 1)), Ok(Barycentric { alpha: 0, beta: total, gamma: 0, total }));
    assert_eq!(t.get_bary_centric(at(1, 9)), Ok(Barycentric { alpha: 0, beta: 0, gamma: total, total }));
}

#[test]
fn barycentric_weights_outside_have_mixed_signs() {
    let t = sample();
    assert_eq!(
        t.get_bary_centric(at(10, 10)),
        Ok(Barycentric {
            alpha: -343597383680,
            beta: 309237645312,
            gamma: 309237645312,
            total: 274877906944,
        })
    );
}

#[test]
fn barycentric_weights_of_a_clockwise_triangle_are_negative_over_negative() {
    let t = sample();
    let clockwise = triangle(t.a(), t.c(), t.b());
    assert_eq!(
        clockwise.get_bary_centric(at(2, 2)),
        Ok(Barycentric {
            alpha: -206158430208,
            beta: -34359738368,
            gamma: -34359738368,
            total: -274877906944,
        })
    );
}

#[test]
fn barycentric_weights_sum_to_one_and_locate_the_pixel() {
    let t = triangle(point4(0.5, 0.25, 1.0, 1.0), point4(6.75, 1.5, 1.0, 1.0), point4(2.25, 5.5, 1.0, 1.0));
    for x in 0..9u32 {
        for y in 0..9u32 {
            let w = t.get_bary_centric(at(x, y)).unwrap();
            assert_eq!(w.alpha + w.beta + w.gamma, w.total);
            let (a, b, c) = (t.a(), t.b(), t.c());
            assert_eq!(
                w.alpha * a.x.raw as i128 + w.beta * b.x.raw as i128 + w.gamma * c.x.raw as i128,
                w.total * (x as i128) * 65536
            );
            assert_eq!(
                w.alpha * a.y.raw as i128 + w.beta * b.y.raw as i128 + w.gamma * c.y.raw as i128,
                w.total * (y as i128) * 65536
            );
            if t.include_point(at(x, y)) {
                for part in [w.alpha, w.beta, w.gamma] {
                    assert!(part.signum() == w.total.signum());
                    assert!(part.abs() < w.total.abs());
                }
            }
        }
    }
}

#[test]
fn degenerate_triangle_has_no_weights() {
    let line = triangle(point4(0.0, 0.0, 1.0, 1.0), point4(4.0, 4.0, 1.0, 1.0), point4(8.0, 8.0, 1.0, 1.0));
    assert_eq!(line.get_bary_centric(at(2, 3)), Err(GeometryError::DegenerateGeometry));
    let point = triangle(point4(2.0, 3.0, 0.0, 1.0), point4(2.0, 3.0, 0.0, 1.0), point4(2.0, 3.0, 0.0, 1.0));
    assert_eq!(point.get_bary_centric(at(2, 3)), Err(GeometryError::DegenerateGeometry));
}

#[test]
fn depth_is_interpolated_with_perspective() {
    let t = sample();
    // Weights 3/4, 1/8, 1/8: (7.5 + 1.25 + 0.9375) / (0.75 + 0.0625 + 0.03125).
    assert_eq!(t.depth_at(at(2, 2)), Some(Fixed::from_raw(752450)));
    assert_eq!(t.depth_at(at(3, 3)), Some(Fixed::from_raw(893672)));
    assert_eq!(t.depth_at(at(4, 5)), Some(fx(20.0)));
    assert_eq!(t.depth_at(at(2, 7)), Some(Fixed::from_raw(1419946)));
}

#[test]
fn depth_is_linear_where_the_fourth_coordinates_agree() {
    let t = triangle(point4(0.0, 0.0, 1.0, 2.0), point4(8.0, 0.0, 3.0, 2.0), point4(0.0, 8.0, 5.0, 2.0));
    assert_eq!(t.depth_at(at(2, 2)), Some(fx(2.5)));
    assert_eq!(t.depth_at(at(1, 1)), Some(fx(1.75)));
    assert_eq!(t.depth_at(at(4, 3)), Some(fx(3.5)));
}

#[test]
fn depth_does_not_depend_on_winding() {
    let t = sample();
    let clockwise = triangle(t.a(), t.c(), t.b());
    assert_eq!(clockwise.depth_at(at(2, 2)), Some(Fixed::from_raw(752450)));
}

#[test]
fn no_depth_outside_or_on_the_boundary() {
    let t = sample();
    assert_eq!(t.depth_at(at(0, 0)), None);
    assert_eq!(t.depth_at(at(1, 1)), None);
    assert_eq!(t.depth_at(at(5, 5)), None);
    assert_eq!(t.depth_at(at(10, 10)), None);
}

#[test]
fn no_depth_with_a_zero_fourth_coordinate() {
    let t = triangle(point4(0.0, 0.0, 1.0, 0.0), point4(8.0, 0.0, 3.0, 2.0), point4(0.0, 8.0, 5.0, 2.0));
    assert!(t.include_point(at(2, 2)));
    assert_eq!(t.depth_at(at(2, 2)), None);
    let o = Point3 { x: fx(0.0), y: fx(0.0), z: fx(0.0) };
    let e = Point3 { x: fx(8.0), y: fx(0.0), z: fx(0.0) };
    let n = Point3 { x: fx(0.0), y: fx(8.0), z: fx(0.0) };
    assert_eq!(Triangle::new(o, e, n).depth_at(at(2, 2)), None);
}

#[test]
fn no_depth_where_the_denominator_vanishes() {
    let t = triangle(point4(0.0, 0.0, 1.0, 1.0), point4(8.0, 0.0, 1.0, -1.0), point4(0.0, 8.0, 1.0, 1.0));
    assert!(t.include_point(at(4, 2)));
    assert_eq!(t.depth_at(at(4, 2)), None);
    assert_eq!(t.depth_at(at(2, 2)), Some(fx(1.0)));
    assert_eq!(t.depth_at(at(3, 1)), Some(fx(1.0)));
}

#[test]
fn depth_is_pulled_toward_a_corner_with_a_small_fourth_coordinate() {
    let t = triangle(
        point4(0.0, 0.0, 100.0, 0.001),
        point4(8.0, 0.0, 1.0, 1.0),
        point4(0.0, 8.0, 1.0, 1.0),
    );
    assert_eq!(t.depth_at(at(2, 2)), Some(Fixed::from_raw(6547072)));
    assert_eq!(t.depth_at(at(1, 1)), Some(Fixed::from_raw(6551422)));
}

#[test]
fn flat_triangle_has_its_depth_at_every_pixel() {
    let deep = triangle(
        point4(0.0, 0.0, 30000.0, 1.0),
        point4(8.0, 0.0, 30000.0, 1.0),
        point4(0.0, 8.0, 30000.0, 1.0),
    );
    assert_eq!(deep.depth_at(at(2, 2)), Some(fx(30000.0)));
    // Whatever the fourth coordinates are, as long as they have one sign.
    let odd = triangle(
        point4(0.5, 0.25, 49.386, -7.0),
        point4(6.75, 1.5, 49.386, -20.3),
        point4(2.25, 5.5, 49.386, -0.013),
    );
    for x in 0..8 {
        for y in 0..7 {
            if odd.include_point(at(x, y)) {
                assert_eq!(odd.depth_at(at(x, y)), Some(fx(49.386)));
            }
        }
    }
}

#[test]
fn wide_screen_triangle_answers_the_same_queries() {
    let corner = |x: i64, y: i64| ScreenPoint { x, y, z: fx(2.0), w: fx(1.0) };
    let far = 1i64 << 45;
    let t = ScreenTriangle { a: corner(-far, -far), b: corner(far, -far), c: corner(0, far), color: [1, 2, 3] };
    assert_eq!(t.get_bounding(), [-far, far, far, -far]);
    assert!(t.include_point(at(0, 0)));
    assert!(t.include_point(at(1000, 70000)));
    assert!(t.include_point(at(2_000_000, 2_000_000)));
    assert!(!t.include_point(at(400_000_000, 400_000_000)));
    assert_eq!(t.depth_at(at(5, 5)), Some(fx(2.0)));
    assert_eq!(t.to_triangle(), None);
    let w = t.get_bary_centric(at(0, 0)).unwrap();
    assert_eq!(w.alpha + w.beta + w.gamma, w.total);
    assert_eq!(w.total, 4 * (far as i128) * (far as i128));
    let small = ScreenTriangle { a: corner(0, 0), b: corner(8 << 16, 0), c: corner(0, 8 << 16), color: [1, 2, 3] };
    let same = small.to_triangle().unwrap();
    assert_eq!(same.a(), point4(0.0, 0.0, 2.0, 1.0));
    assert_eq!(same.on_screen(), small);
    assert_eq!(same.get_color(), [1, 2, 3]);
}
