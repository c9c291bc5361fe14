//! The screen: how pixels are placed in the buffers, and how a corner of a
//! triangle gets from object space to the screen.
//!
//! Pixel `(x, y)` has `x` as its column and `y` as its row, counted from the
//! bottom. The buffers are stored by rows from the top, so the pixel is at
//! place `(height - 1 - y) * width + x`.
//!
//! Depths on the screen grow with the distance from the eye: the projection
//! sends the near plane to z = +1 and the far plane to z = -1, and the map to
//! the depth range turns that round, so that the near plane gets the depth
//! `near` and the far plane the depth `far`.

use crate::fixed::{
    fits, floor_div, floor_quotient, floor_ratio, lemma_floor_quotient_bound, narrow, Fixed, ONE,
};
use crate::linalg::{model_fits, product_model, row_times_point, Matrix4, MatrixModel, Point4};
use crate::mvp::{lemma_projection_shape, orders_depth, projection_entries};
use crate::triangle::{corner, corner_within_reach, Corner, ScreenPoint, TriangleView};
use vstd::prelude::*;

verus! {

/// Whether `(x, y)` is a pixel of a `width` by `height` image.
pub open spec fn on_screen(width: int, height: int, x: int, y: int) -> bool {
    0 <= x < width && 0 <= y < height
}

/// The place of pixel `(x, y)` in the buffers.
pub open spec fn pixel_index(width: int, height: int, x: int, y: int) -> int {
    (height - 1 - y) * width + x
}

/// The column of the pixel at place `i`.
pub open spec fn column_of(width: int, i: int) -> int {
    i % width
}

/// The row of the pixel at place `i`.
pub open spec fn row_of(width: int, height: int, i: int) -> int {
    height - 1 - i / width
}

/// Every pixel has exactly one place, and every place one pixel.
pub proof fn lemma_pixel_index(width: int, height: int, x: int, y: int)
    requires
        on_screen(width, height, x, y),
    ensures
        0 <= pixel_index(width, height, x, y) < width * height,
        column_of(width, pixel_index(width, height, x, y)) == x,
        row_of(width, height, pixel_index(width, height, x, y)) == y,
{
    let i = pixel_index(width, height, x, y);
    let r = height - 1 - y;
    assert(0 <= r * width && r * width + width <= height * width) by (nonlinear_arith)
        requires
            0 <= r < height,
            width > 0,
    ;
    assert(height * width == width * height) by (nonlinear_arith);
    vstd::arithmetic::div_mod::lemma_fundamental_div_mod_converse(i, width, r, x);
}

/// The pixel of a place is on the screen, and has that place.
pub proof fn lemma_place_pixel(width: int, height: int, i: int)
    requires
        0 <= width,
        0 <= height,
        0 <= i < width * height,
    ensures
        on_screen(width, height, column_of(width, i), row_of(width, height, i)),
        pixel_index(width, height, column_of(width, i), row_of(width, height, i)) == i,
{
    assert(width > 0) by (nonlinear_arith)
        requires
            0 <= width,
            0 <= i < width * height,
    ;
    vstd::arithmetic::div_mod::lemma_fundamental_div_mod(i, width);
    vstd::arithmetic::div_mod::lemma_mod_bound(i, width);
    let q = i / width;
    let r = i % width;
    assert(0 <= q < height) by (nonlinear_arith)
        requires
            i == width * q + r,
            0 <= r < width,
            0 <= i < width * height,
    ;
    assert(width * q == q * width) by (nonlinear_arith);
}

/// Half the extent of the range that depths are mapped to: `(far - near) / 2`
/// for a near plane at 0.1 and a far plane at 50.
pub const DEPTH_SCALE: i32 = 1635123;

/// The middle of the range that depths are mapped to: `(far + near) / 2`.
pub const DEPTH_SHIFT: i32 = 1641677;

/// The product `projection * view * model`, formed from the left; `None` if an
/// entry of it, or of `projection * view`, is out of range.
pub open spec fn composed(projection: MatrixModel, view: MatrixModel, model: MatrixModel) -> Option<
    MatrixModel,
> {
    let seen = product_model(projection, view);
    let all = product_model(seen, model);
    if model_fits(seen) && model_fits(all) {
        Some(all)
    } else {
        None
    }
}

/// Row `r` of `m` times the position `(x, y, z, 1)` of the corner `v`, on raw
/// values and without rounding.
pub open spec fn row_times_corner(m: MatrixModel, v: Corner, r: int) -> int {
    m[r][0] * v.x + m[r][1] * v.y + m[r][2] * v.z + m[r][3] * 65536
}

/// A coordinate on the screen: `size / 2 * (1 + c)` for a coordinate `c` of the
/// cube `[-1, 1]`, so that the cube fills the screen.
pub open spec fn screen_coordinate(size: int, c: int) -> int {
    (size * (65536 + c)) / 2
}

/// The depth on the screen of a point whose exact z is `sum` (with 32
/// fractional bits) and whose fourth coordinate is `w`: `shift - scale * z / w`,
/// rounded once. It is `near` on the near plane, where `z / w` is +1, and `far`
/// on the far plane, where it is -1.
pub open spec fn screen_depth(sum: int, w: int) -> int {
    DEPTH_SHIFT - floor_quotient(sum * DEPTH_SCALE, w * 65536)
}

/// The screen point of a corner `v` under the composed matrix `mvp`.
///
/// The corner is read as a position (fourth coordinate one) and multiplied by
/// `mvp`. The fourth coordinate of the product is rounded and kept. The exact
/// x and y of the product are divided by it, each with one rounding; x is
/// taken from `[-1, 1]` to `[0, width]` and y to `[0, height]`, with `flip`
/// upside down. The exact z of the product is divided by it and taken to the
/// depth range, with one rounding in all. There is no screen point where
/// the fourth coordinate is zero, or where a machine limit is passed: the
/// fourth coordinate or the depth beyond 32 bits, or x or y beyond the reach
/// of half a billion pixels.
pub open spec fn screen_point(mvp: MatrixModel, v: Corner, width: int, height: int, flip: bool) -> Option<
    Corner,
> {
    let w = row_times_corner(mvp, v, 3) / 65536;
    let cx = floor_quotient(row_times_corner(mvp, v, 0), w);
    let cy = floor_quotient(row_times_corner(mvp, v, 1), w);
    let s = Corner {
        x: screen_coordinate(width, cx),
        y: screen_coordinate(
            height,
            if flip {
                -cy
            } else {
                cy
            },
        ),
        z: screen_depth(row_times_corner(mvp, v, 2), w),
        w,
    };
    if w != 0 && corner_within_reach(s) {
        Some(s)
    } else {
        None
    }
}

/// A triangle taken to screen space corner by corner, with its colour.
pub open spec fn screen_triangle(
    mvp: MatrixModel,
    t: TriangleView,
    width: int,
    height: int,
    flip: bool,
) -> Option<TriangleView> {
    match (
        screen_point(mvp, t.a, width, height, flip),
        screen_point(mvp, t.b, width, height, flip),
        screen_point(mvp, t.c, width, height, flip),
    ) {
        (Some(a), Some(b), Some(c)) => Some(TriangleView { a, b, c, color: t.color }),
        _ => None,
    }
}

/// A coordinate on the screen, unless it is beyond the reach.
fn to_screen_coordinate(size: usize, c: i128) -> (r: Option<i64>)
    requires
        size <= i32::MAX,
        -0x8_0000_0000_0000_0000 <= c <= 0x8_0000_0000_0000_0000,
    ensures
        r matches Some(x) ==> x == screen_coordinate(size as int, c as int),
        r is Some <==> -0x2000_0000_0000 <= screen_coordinate(size as int, c as int) <= 0x2000_0000_0000,
{
    assert(-0x8_0000_0000_0000_0000_0000_0000 <= size * (65536 + c)
        <= 0x8_0000_0000_0000_0000_0000_0000) by (nonlinear_arith)
        requires
            0 <= size <= 0x8000_0000,
            -0x8_0000_0000_0000_0000 <= c <= 0x8_0000_0000_0000_0000,
    ;
    let x = floor_div((size as i128) * (65536 + c), 2);
    if -0x2000_0000_0000 <= x && x <= 0x2000_0000_0000 {
        Some(x as i64)
    } else {
        None
    }
}

/// The screen point of a corner under `mvp`, for a screen of the given size.
pub fn screen_vertex(mvp: &Matrix4, v: Point4, width: usize, height: usize, flip: bool) -> (r: Option<
    ScreenPoint,
>)
    requires
        width <= i32::MAX,
        height <= i32::MAX,
    ensures
        r is Some <==> screen_point(mvp@, corner(v), width as int, height as int, flip) is Some,
        r matches Some(s) ==> Some(s@) == screen_point(
            mvp@,
            corner(v),
            width as int,
            height as int,
            flip,
        ) && corner_within_reach(s@),
{
    let position = Point4 { x: v.x, y: v.y, z: v.z, w: Fixed { raw: ONE } };
    let sums = mvp.raw_image(position);
    proof {
        assert forall|r: int| 0 <= r < 4 implies row_times_point(mvp@, position, r)
            == row_times_corner(mvp@, corner(v), r) && -0x2_0000_0000_0000_0000
            <= row_times_point(mvp@, position, r) <= 0x2_0000_0000_0000_0000 by {
            lemma_row_bound(mvp@[r][0], v.x.raw as int);
            lemma_row_bound(mvp@[r][1], v.y.raw as int);
            lemma_row_bound(mvp@[r][2], v.z.raw as int);
            lemma_row_bound(mvp@[r][3], 65536);
        }
    }
    let w = match narrow(floor_div(sums[3], 65536)) {
        Some(w) => w,
        None => {
            return None;
        },
    };
    if w.raw == 0 {
        return None;
    }
    proof {
        lemma_floor_quotient_bound(sums[0] as int, w.raw as int);
        lemma_floor_quotient_bound(sums[1] as int, w.raw as int);
    }
    let cx = floor_ratio(sums[0], w.raw as i128);
    let cy = floor_ratio(sums[1], w.raw as i128);
    let up: i128 = if flip {
        -cy
    } else {
        cy
    };
    let x = to_screen_coordinate(width, cx);
    let y = to_screen_coordinate(height, up);
    proof {
        lemma_floor_quotient_bound(sums[2] * DEPTH_SCALE, w.raw * 65536);
    }
    let z = narrow(
        (DEPTH_SHIFT as i128) - floor_ratio(
            sums[2] * (DEPTH_SCALE as i128),
            (w.raw as i128) * 65536,
        ),
    );
    match (x, y, z) {
        (Some(x), Some(y), Some(z)) => Some(ScreenPoint { x, y, z, w }),
        _ => None,
    }
}

/// A product of two 32-bit values fits in 63 bits.
proof fn lemma_row_bound(a: int, b: int)
    by (nonlinear_arith)
    requires
        -0x8000_0000 <= a <= 0x8000_0000,
        -0x8000_0000 <= b <= 0x8000_0000,
    ensures
        -0x4000_0000_0000_0000 <= a * b <= 0x4000_0000_0000_0000,
{
}

/// Of two fractions with positive denominators, the greater has the greater
/// floor, or the same.
proof fn lemma_floor_follows_fraction(n1: int, m1: int, n2: int, m2: int)
    requires
        m1 > 0,
        m2 > 0,
        n1 * m2 >= n2 * m1,
    ensures
        n1 / m1 >= n2 / m2,
{
    let q1 = n1 / m1;
    let q2 = n2 / m2;
    vstd::arithmetic::div_mod::lemma_fundamental_div_mod(n1, m1);
    vstd::arithmetic::div_mod::lemma_mod_bound(n1, m1);
    vstd::arithmetic::div_mod::lemma_fundamental_div_mod(n2, m2);
    vstd::arithmetic::div_mod::lemma_mod_bound(n2, m2);
    if q1 < q2 {
        assert(n1 * m2 < n2 * m1) by (nonlinear_arith)
            requires
                n1 == m1 * q1 + n1 % m1,
                0 <= n1 % m1 < m1,
                n2 == m2 * q2 + n2 % m2,
                0 <= n2 % m2 < m2,
                q1 + 1 <= q2,
                m1 > 0,
                m2 > 0,
        ;
    }
}

/// Depth follows distance. Under a matrix of the shape of a projection, of two
/// corners in front of the eye the one nearer the eye has the smaller depth on
/// the screen, or the same.
pub proof fn lemma_nearer_is_smaller(
    mvp: MatrixModel,
    near: Corner,
    far: Corner,
    width: int,
    height: int,
    flip: bool,
)
    requires
        orders_depth(mvp),
        far.z < near.z < 0,
        screen_point(mvp, near, width, height, flip) is Some,
        screen_point(mvp, far, width, height, flip) is Some,
    ensures
        screen_point(mvp, near, width, height, flip)->0.z <= screen_point(
            mvp,
            far,
            width,
            height,
            flip,
        )->0.z,
{
    let p = mvp[2][2];
    let k = -(mvp[2][3] * 65536);
    let d1 = -near.z;
    let d2 = -far.z;
    lemma_depth_of_distance(mvp, near, width, height, flip);
    lemma_depth_of_distance(mvp, far, width, height, flip);
    // (p d + k) / d = p + k / d shrinks as d grows, and so does its floor.
    let scale = DEPTH_SCALE as int;
    assert(((p * d1 + k) * scale) * (d2 * 65536) >= ((p * d2 + k) * scale) * (d1 * 65536))
        by (nonlinear_arith)
        requires
            0 < d1 < d2,
            k >= 0,
            scale > 0,
    ;
    lemma_floor_follows_fraction(
        (p * d1 + k) * scale,
        d1 * 65536,
        (p * d2 + k) * scale,
        d2 * 65536,
    );
}

/// Under a matrix of the shape of a projection, the depth on the screen of a
/// corner in front of the eye depends on its distance `d` alone: it is
/// `shift - scale * (p + k / d)` rounded once, where `p` is the entry that
/// multiplies z and `k` the negative of the entry that is added.
pub proof fn lemma_depth_of_distance(mvp: MatrixModel, v: Corner, width: int, height: int, flip: bool)
    requires
        orders_depth(mvp),
        v.z < 0,
    ensures
        row_times_corner(mvp, v, 3) / 65536 == v.z,
        screen_point(mvp, v, width, height, flip) matches Some(s) ==> s.z == DEPTH_SHIFT - ((mvp[2][2]
            * (-v.z) + (-(mvp[2][3] * 65536))) * DEPTH_SCALE) / ((-v.z) * 65536),
{
    let p = mvp[2][2];
    let k = -(mvp[2][3] * 65536);
    let d = -v.z;
    assert(row_times_corner(mvp, v, 3) == 65536 * v.z) by (nonlinear_arith)
        requires
            row_times_corner(mvp, v, 3) == mvp[3][0] * v.x + mvp[3][1] * v.y + mvp[3][2] * v.z
                + mvp[3][3] * 65536,
            mvp[3][0] == 0 && mvp[3][1] == 0 && mvp[3][2] == 65536 && mvp[3][3] == 0,
    ;
    assert(row_times_corner(mvp, v, 2) == p * v.z + mvp[2][3] * 65536) by (nonlinear_arith)
        requires
            row_times_corner(mvp, v, 2) == mvp[2][0] * v.x + mvp[2][1] * v.y + mvp[2][2] * v.z
                + mvp[2][3] * 65536,
            mvp[2][0] == 0 && mvp[2][1] == 0,
            p == mvp[2][2],
    ;
    let sum = row_times_corner(mvp, v, 2);
    assert(-(sum * DEPTH_SCALE) == (p * d + k) * DEPTH_SCALE) by (nonlinear_arith)
        requires
            sum == p * v.z + mvp[2][3] * 65536,
            k == -(mvp[2][3] * 65536),
            d == -v.z,
    ;
    assert(-(v.z * 65536) == d * 65536);
}

/// With the projection of [`crate::mvp::get_projection_matrix`] for planes in
/// front of the eye, of two corners in front of the eye the one nearer the eye
/// has the smaller depth on the screen, or the same.
pub proof fn lemma_projection_orders_depth(
    tan_half_fov: Fixed,
    aspect_ratio: Fixed,
    z_near: Fixed,
    z_far: Fixed,
    near: Corner,
    far: Corner,
    width: int,
    height: int,
)
    requires
        0 < z_near.raw < z_far.raw,
        far.z < near.z < 0,
        screen_point(
            projection_entries(tan_half_fov, aspect_ratio, z_near, z_far),
            near,
            width,
            height,
            false,
        ) is Some,
        screen_point(
            projection_entries(tan_half_fov, aspect_ratio, z_near, z_far),
            far,
            width,
            height,
            false,
        ) is Some,
    ensures
        screen_point(
            projection_entries(tan_half_fov, aspect_ratio, z_near, z_far),
            near,
            width,
            height,
            false,
        )->0.z <= screen_point(
            projection_entries(tan_half_fov, aspect_ratio, z_near, z_far),
            far,
            width,
            height,
            false,
        )->0.z,
{
    lemma_projection_shape(tan_half_fov, aspect_ratio, z_near, z_far);
    lemma_nearer_is_smaller(
        projection_entries(tan_half_fov, aspect_ratio, z_near, z_far),
        near,
        far,
        width,
        height,
        false,
    );
}

} // verus!
