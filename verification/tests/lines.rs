use rusterizer::fixed::Fixed;
use rusterizer::linalg::{Point2, Point3, Point4};
use rusterizer::rasterizer::Rasterizer;
use rusterizer::triangle::Triangle;

const INK: [u8; 3] = [10, 20, 30];

fn fx(v: f64) -> Fixed {
    Fixed::from_raw((v * 65536.0).round() as i32)
}

fn p(x: f64, y: f64) -> Point2 {
    Point2 { x: fx(x), y: fx(y) }
}

/// The pixels that are not black, as `(x, y)` in the order of the buffer.
fn lit(r: &Rasterizer) -> Vec<(i32, i32)> {
    let (w, h) = (r.width(), r.height());
    let mut out = Vec::new();
    for (i, c) in r.frame_buf().iter().enumerate() {
        if *c != [0, 0, 0] {
            out.push(((i % w) as i32, (h - 1 - i / w) as i32));
        }
    }
    out.sort();
    out
}

fn sorted(mut v: Vec<(i32, i32)>) -> Vec<(i32, i32)> {
    v.sort();
    v
}

fn picture(r: &Rasterizer) -> Vec<String> {
    let w = r.width();
    r.frame_buf()
        .chunks(w)
        .map(|row| row.iter().map(|c| if *c == INK { 'a' } else if *c == [0, 0, 0] { '.' } else { '?' }).collect())
        .collect()
}

#[test]
fn helper_steps_a_flat_line() {
    let mut r = Rasterizer::new(8, 8);
    r.draw_line_helper(p(0.0, 0.0), p(5.0, 2.0), INK, false);
    assert_eq!(lit(&r), sorted(vec![(0, 0), (1, 0), (2, 1), (3, 1), (4, 2), (5, 2)]));
}

#[test]
fn helper_with_flip_exchanges_the_axes() {
    let mut r = Rasterizer::new(8, 8);
    r.draw_line_helper(p(0.0, 0.0), p(5.0, 2.0), INK, true);
    assert_eq!(lit(&r), sorted(vec![(0, 0), (0, 1), (1, 2), (1, 3), (2, 4), (2, 5)]));
}

#[test]
fn helper_takes_at_most_one_step_across_for_each_step_along() {
    let mut r = Rasterizer::new(8, 8);
    r.draw_line_helper(p(1.0, 1.0), p(4.0, 6.0), INK, false);
    assert_eq!(lit(&r), sorted(vec![(1, 1), (2, 2), (3, 3), (4, 4)]));
}

#[test]
fn helper_draws_nothing_backwards() {
    let mut r = Rasterizer::new(8, 8);
    r.draw_line_helper(p(5.0, 0.0), p(0.0, 0.0), INK, false);
    assert_eq!(lit(&r), Vec::<(i32, i32)>::new());
}

#[test]
fn helper_draws_a_single_pixel() {
    let mut r = Rasterizer::new(8, 8);
    r.draw_line_helper(p(3.0, 4.0), p(3.0, 4.0), INK, false);
    assert_eq!(lit(&r), vec![(3, 4)]);
}

#[test]
fn line_is_the_same_from_either_end() {
    let mut forth = Rasterizer::new(8, 8);
    forth.draw_line(p(0.0, 0.0), p(5.0, 2.0), INK);
    let mut back = Rasterizer::new(8, 8);
    back.draw_line(p(5.0, 2.0), p(0.0, 0.0), INK);
    let expected = sorted(vec![(0, 0), (1, 0), (2, 1), (3, 1), (4, 2), (5, 2)]);
    assert_eq!(lit(&forth), expected);
    assert_eq!(lit(&back), expected);
}

#[test]
fn steep_line_steps_along_y() {
    let expected = sorted(vec![(1, 1), (1, 2), (2, 3), (2, 4), (2, 5), (3, 6), (3, 7)]);
    let mut up = Rasterizer::new(8, 8);
    up.draw_line(p(1.0, 1.0), p(3.0, 7.0), INK);
    assert_eq!(lit(&up), expected);
    let mut down = Rasterizer::new(8, 8);
    down.draw_line(p(3.0, 7.0), p(1.0, 1.0), INK);
    assert_eq!(lit(&down), expected);
}

#[test]
fn falling_line() {
    let mut r = Rasterizer::new(8, 8);
    r.draw_line(p(0.0, 4.0), p(6.0, 1.0), INK);
    assert_eq!(lit(&r), sorted(vec![(0, 4), (1, 4), (2, 3), (3, 3), (4, 2), (5, 2), (6, 1)]));
}

#[test]
fn diagonal_counts_as_steep() {
    let mut r = Rasterizer::new(8, 8);
    r.draw_line(p(0.0, 0.0), p(3.0, 3.0), INK);
    assert_eq!(lit(&r), sorted(vec![(0, 0), (1, 1), (2, 2), (3, 3)]));
}

#[test]
fn axis_is_chosen_before_the_points_are_cut_to_pixels() {
    // Steeper than flat by a fraction, though both ends fall in one pixel.
    let mut r = Rasterizer::new(8, 8);
    r.draw_line(p(1.2, 1.0), p(1.9, 1.8), INK);
    assert_eq!(lit(&r), vec![(1, 1)]);
    let mut s = Rasterizer::new(8, 8);
    s.draw_line(p(0.5, 0.2), p(4.9, 2.7), INK);
    assert_eq!(lit(&s), sorted(vec![(0, 0), (1, 0), (2, 1), (3, 1), (4, 2)]));
}

#[test]
fn pixels_off_the_screen_are_dropped() {
    let mut r = Rasterizer::new(4, 2);
    r.draw_line(p(-2.0, -1.0), p(3.0, 1.0), INK);
    assert_eq!(lit(&r), sorted(vec![(0, 0), (1, 0), (2, 1), (3, 1)]));
    let mut s = Rasterizer::new(4, 4);
    s.draw_line(p(-30000.0, 2.0), p(30000.0, 2.0), INK);
    assert_eq!(lit(&s), sorted(vec![(0, 2), (1, 2), (2, 2), (3, 2)]));
    let mut t = Rasterizer::new(4, 4);
    t.draw_line(p(-30000.0, -30000.0), p(-20000.0, 30000.0), INK);
    assert_eq!(lit(&t), Vec::<(i32, i32)>::new());
}

#[test]
fn negative_fractions_are_cut_toward_zero() {
    let mut r = Rasterizer::new(8, 8);
    r.draw_line(p(-0.5, -0.5), p(2.5, 1.5), INK);
    assert_eq!(lit(&r), sorted(vec![(0, 0), (1, 0), (2, 1)]));
}

#[test]
fn flat_line_follows_the_nearest_row() {
    // Rise 1 over run 9: the row changes where the ideal line passes one half.
    let mut r = Rasterizer::new(10, 2);
    r.draw_line(p(0.0, 0.0), p(9.0, 1.0), INK);
    assert_eq!(picture(&r), vec![".....aaaaa", "aaaaa....."]);
    for k in 0..10 {
        let nearest = (2 * k + 9 - 1) / 18;
        assert!(lit(&r).contains(&(k, nearest)));
    }
}

#[test]
fn later_line_overwrites_an_earlier_one() {
    let mut r = Rasterizer::new(4, 4);
    r.draw_line(p(0.0, 1.0), p(3.0, 1.0), [1, 1, 1]);
    r.draw_line(p(1.0, 0.0), p(1.0, 3.0), [2, 2, 2]);
    assert_eq!(r.frame_buf()[r.get_index(1, 1)], [2, 2, 2]);
    assert_eq!(r.frame_buf()[r.get_index(0, 1)], [1, 1, 1]);
    assert_eq!(r.frame_buf()[r.get_index(1, 3)], [2, 2, 2]);
    assert_eq!(r.frame_buf()[r.get_index(3, 3)], [0, 0, 0]);
}

#[test]
fn outline_of_a_triangle() {
    let o = Point3 { x: fx(0.0), y: fx(0.0), z: fx(0.0) };
    let mut t = Triangle::new(o, o, o);
    let corner = |x: f64, y: f64| Point4 { x: fx(x), y: fx(y), z: fx(0.0), w: fx(1.0) };
    t.set_vertex([corner(1.0, 1.0), corner(10.0, 2.0), corner(4.0, 6.0)]);
    t.set_color(INK);
    let mut r = Rasterizer::new(12, 8);
    r.draw_triangle(&t);
    assert_eq!(
        picture(&r),
        vec![
            "............",
            "....a.......",
            "...a.aa.....",
            "...a...a....",
            "..a.....aa..",
            "..a...aaaaa.",
            ".aaaaa......",
            "............",
        ]
    );
    assert!(r.depth_buf().iter().all(|d| *d == rusterizer::depth::Depth::Infinite));
}
