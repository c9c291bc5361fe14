//! Builders of the view, model and projection matrices.
//!
//! The builders take the cosine, sine and tangent of their angles as numbers:
//! evaluating them is left to the caller. Each builder returns `None` exactly
//! when an entry of its matrix has no [`Fixed`] value.

use crate::fixed::{
    lemma_nearest_quotient, lemma_scaled_product_bound, magnitude, nearest_quotient,
    nearest_ratio, scaled_mul, scaled_product, Fixed,
};
use crate::linalg::{
    identity_model, model_fits, narrow_matrix, wide_model, Matrix4, MatrixModel, Point3, Vector3,
};
use vstd::prelude::*;

verus! {

/// The translation that moves an eye at `eye` to the origin: the identity with
/// its last column set to `-eye`.
pub open spec fn view_model(eye: Point3) -> MatrixModel {
    seq![
        seq![65536int, 0int, 0int, -eye.x.raw],
        seq![0int, 65536int, 0int, -eye.y.raw],
        seq![0int, 0int, 65536int, -eye.z.raw],
        seq![0int, 0int, 0int, 65536int],
    ]
}

/// The view matrix for a camera at `eye_pos`, looking down the negative z axis.
/// It exists unless a coordinate of the eye has no negative.
pub fn get_view_matrix(eye_pos: Point3) -> (r: Option<Matrix4>)
    ensures
        r is Some <==> eye_pos.x.raw > i32::MIN && eye_pos.y.raw > i32::MIN && eye_pos.z.raw
            > i32::MIN,
        r matches Some(m) ==> m@ == view_model(eye_pos),
{
    let one: i128 = 65536;
    let wide: [[i128; 4]; 4] = [
        [one, 0, 0, -(eye_pos.x.raw as i128)],
        [0, one, 0, -(eye_pos.y.raw as i128)],
        [0, 0, one, -(eye_pos.z.raw as i128)],
        [0, 0, 0, one],
    ];
    let ghost want = view_model(eye_pos);
    assert(wide_model(wide) =~~= want);
    proof {
        if model_fits(want) {
            assert(crate::fixed::fits(want[0][3]));
            assert(crate::fixed::fits(want[1][3]));
            assert(crate::fixed::fits(want[2][3]));
        }
    }
    narrow_matrix(&wide)
}

/// A camera at the origin has the identity as its view matrix.
pub proof fn lemma_view_from_origin(eye: Point3)
    requires
        eye.x.raw == 0,
        eye.y.raw == 0,
        eye.z.raw == 0,
    ensures
        view_model(eye) == identity_model(),
{
    assert(view_model(eye) =~~= identity_model());
}

/// Coordinate `i` of `axis`, as a raw value.
pub open spec fn axis_coordinate(axis: Vector3, i: int) -> int {
    if i == 0 {
        axis.x.raw as int
    } else if i == 1 {
        axis.y.raw as int
    } else {
        axis.z.raw as int
    }
}

/// Entry `(i, j)` of the cross-product matrix of `axis`: the skew-symmetric `K`
/// with `K v = axis x v`.
pub open spec fn skew_entry(axis: Vector3, i: int, j: int) -> int {
    if i == 0 && j == 1 {
        -axis.z.raw
    } else if i == 0 && j == 2 {
        axis.y.raw as int
    } else if i == 1 && j == 0 {
        axis.z.raw as int
    } else if i == 1 && j == 2 {
        -axis.x.raw
    } else if i == 2 && j == 0 {
        -axis.y.raw
    } else if i == 2 && j == 1 {
        axis.x.raw as int
    } else {
        0
    }
}

/// Entry `(i, j)` of Rodrigues' rotation `cos I + ((1 - cos) axis) axis^T + sin K`,
/// each product rounded as it is formed.
pub open spec fn rotation_entry(axis: Vector3, cos: int, sin: int, i: int, j: int) -> int {
    (if i == j {
        cos
    } else {
        0
    }) + scaled_product(
        scaled_product(65536 - cos, axis_coordinate(axis, i)),
        axis_coordinate(axis, j),
    ) + scaled_product(sin, skew_entry(axis, i, j))
}

/// The rotation about `axis` by the angle with the given cosine and sine, as a
/// homogeneous transform without translation.
pub open spec fn rotation_model(axis: Vector3, cos: Fixed, sin: Fixed) -> MatrixModel {
    Seq::new(
        4,
        |r: int|
            Seq::new(
                4,
                |c: int|
                    if r < 3 && c < 3 {
                        rotation_entry(axis, cos.raw as int, sin.raw as int, r, c)
                    } else if r == 3 && c == 3 {
                        65536int
                    } else {
                        0int
                    },
            ),
    )
}

fn axis_at(axis: Vector3, i: usize) -> (v: i128)
    requires
        i < 3,
    ensures
        v == axis_coordinate(axis, i as int),
{
    if i == 0 {
        axis.x.raw as i128
    } else if i == 1 {
        axis.y.raw as i128
    } else {
        axis.z.raw as i128
    }
}

fn skew_at(axis: Vector3, i: usize, j: usize) -> (v: i128)
    requires
        i < 3,
        j < 3,
    ensures
        v == skew_entry(axis, i as int, j as int),
        -0x8000_0000 <= v <= 0x8000_0000,
{
    if i == 0 && j == 1 {
        -(axis.z.raw as i128)
    } else if i == 0 && j == 2 {
        axis.y.raw as i128
    } else if i == 1 && j == 0 {
        axis.z.raw as i128
    } else if i == 1 && j == 2 {
        -(axis.x.raw as i128)
    } else if i == 2 && j == 0 {
        -(axis.y.raw as i128)
    } else if i == 2 && j == 1 {
        axis.x.raw as i128
    } else {
        0
    }
}

fn rotation_at(axis: Vector3, cos: Fixed, sin: Fixed, i: usize, j: usize) -> (v: i128)
    requires
        i < 3,
        j < 3,
    ensures
        v == rotation_entry(axis, cos.raw as int, sin.raw as int, i as int, j as int),
{
    let diagonal: i128 = if i == j {
        cos.raw as i128
    } else {
        0
    };
    let rest: i128 = 65536 - (cos.raw as i128);
    let along = scaled_mul(rest, axis_at(axis, i));
    proof {
        lemma_scaled_product_bound(
            rest as int,
            axis_coordinate(axis, i as int),
            0x1_0000_0000,
            0x8000_0000,
        );
    }
    let outer = scaled_mul(along, axis_at(axis, j));
    proof {
        lemma_scaled_product_bound(
            along as int,
            axis_coordinate(axis, j as int),
            0x8000_0000_0000,
            0x8000_0000,
        );
    }
    let turn = scaled_mul(sin.raw as i128, skew_at(axis, i, j));
    proof {
        lemma_scaled_product_bound(
            sin.raw as int,
            skew_entry(axis, i as int, j as int),
            0x8000_0000,
            0x8000_0000,
        );
    }
    diagonal + outer + turn
}

/// The model matrix: the rotation about `rotate_axis` by the angle whose cosine
/// and sine are given. The axis is used as it is, without normalising it.
pub fn get_model_matrix(rotate_axis: Vector3, cos_angle: Fixed, sin_angle: Fixed) -> (r: Option<
    Matrix4,
>)
    ensures
        r is Some <==> model_fits(rotation_model(rotate_axis, cos_angle, sin_angle)),
        r matches Some(m) ==> m@ == rotation_model(rotate_axis, cos_angle, sin_angle),
{
    let mut wide: [[i128; 4]; 4] = [[0; 4]; 4];
    let ghost want = rotation_model(rotate_axis, cos_angle, sin_angle);
    for i in 0..3usize
        invariant
            want == rotation_model(rotate_axis, cos_angle, sin_angle),
            forall|a: int, b: int| 0 <= a < i && 0 <= b < 3 ==> #[trigger] wide[a][b] == want[a][b],
            forall|a: int, b: int|
                0 <= a < 4 && 0 <= b < 4 && (a >= i || b >= 3) ==> #[trigger] wide[a][b] == 0,
    {
        for j in 0..3usize
            invariant
                0 <= i < 3,
                want == rotation_model(rotate_axis, cos_angle, sin_angle),
                forall|a: int, b: int|
                    0 <= a < i && 0 <= b < 3 ==> #[trigger] wide[a][b] == want[a][b],
                forall|b: int| 0 <= b < j ==> #[trigger] wide[i as int][b] == want[i as int][b],
                forall|a: int, b: int|
                    0 <= a < 4 && 0 <= b < 4 && (a > i || b >= 3 || (a == i && b >= j))
                        ==> #[trigger] wide[a][b] == 0,
        {
            wide[i][j] = rotation_at(rotate_axis, cos_angle, sin_angle, i, j);
        }
    }
    wide[3][3] = 65536;
    assert(wide_model(wide) =~~= want);
    narrow_matrix(&wide)
}

/// A rotation whose cosine is one and whose sine is zero (a full turn, or none)
/// is the identity, about any axis.
pub proof fn lemma_full_turn_is_identity(axis: Vector3, cos: Fixed, sin: Fixed)
    requires
        cos.raw == 65536,
        sin.raw == 0,
    ensures
        rotation_model(axis, cos, sin) == identity_model(),
{
    assert forall|i: int, j: int| 0 <= i < 3 && 0 <= j < 3 implies rotation_entry(
        axis,
        65536,
        0,
        i,
        j,
    ) == (if i == j {
        65536int
    } else {
        0int
    }) by {
        let a = axis_coordinate(axis, i);
        let b = axis_coordinate(axis, j);
        let k = skew_entry(axis, i, j);
        assert(0 * a == 0 && 0 * b == 0 && 0 * k == 0) by (nonlinear_arith);
    }
    assert(rotation_model(axis, cos, sin) =~~= identity_model());
}

/// About the z axis, the rotation by the opposite angle (the same cosine, the
/// negated sine) is the transpose of the rotation.
pub proof fn lemma_opposite_turn_about_z(axis: Vector3, cos: Fixed, sin: Fixed, back: Fixed)
    requires
        axis.x.raw == 0,
        axis.y.raw == 0,
        back.raw == -sin.raw,
    ensures
        forall|i: int, j: int|
            0 <= i < 4 && 0 <= j < 4 ==> #[trigger] rotation_model(axis, cos, back)[i][j]
                == rotation_model(axis, cos, sin)[j][i],
{
    assert forall|i: int, j: int| 0 <= i < 3 && 0 <= j < 3 implies rotation_entry(
        axis,
        cos.raw as int,
        back.raw as int,
        i,
        j,
    ) == rotation_entry(axis, cos.raw as int, sin.raw as int, j, i) by {
        let rest = 65536 - cos.raw;
        let (a, b) = (axis_coordinate(axis, i), axis_coordinate(axis, j));
        assert(skew_entry(axis, j, i) == -skew_entry(axis, i, j));
        assert(back.raw * skew_entry(axis, i, j) == sin.raw * skew_entry(axis, j, i))
            by (nonlinear_arith)
            requires
                back.raw == -sin.raw,
                skew_entry(axis, j, i) == -skew_entry(axis, i, j),
        ;
        if i != j {
            // One of the two coordinates is zero, so the outer product is.
            assert(rest * 0 == 0 && scaled_product(rest, a) * 0 == 0 && scaled_product(rest, b) * 0
                == 0 && 0 * a == 0 && 0 * b == 0) by (nonlinear_arith);
        }
    }
}

/// Height of the top of the frustum at the near plane: the tangent of half the
/// field of view times the distance of the plane. The product is kept exact,
/// with 32 fractional bits.
pub open spec fn frustum_top(tan_half_fov: Fixed, z_near: Fixed) -> int {
    tan_half_fov.raw * magnitude(-z_near.raw)
}

/// The right edge of the frustum at the near plane, `-top * aspect`, kept exact
/// with 48 fractional bits. Its negative is the left edge, and its magnitude
/// the half-width of the frustum.
pub open spec fn frustum_right(tan_half_fov: Fixed, aspect_ratio: Fixed, z_near: Fixed) -> int {
    (-frustum_top(tan_half_fov, z_near)) * aspect_ratio.raw
}

/// Whether the frustum has a width, a height and a depth, so that it can be
/// scaled to the unit cube.
pub open spec fn frustum_is_solid(
    tan_half_fov: Fixed,
    aspect_ratio: Fixed,
    z_near: Fixed,
    z_far: Fixed,
) -> bool {
    &&& frustum_top(tan_half_fov, z_near) != 0
    &&& frustum_right(tan_half_fov, aspect_ratio, z_near) != 0
    &&& z_near.raw != z_far.raw
}

/// The projection `scale * translate * perspective`, entry by entry.
///
/// With `n` and `f` the planes on the negative z axis, `right = -top * aspect`,
/// `left = -right` and `bottom = -top`, the three factors are
///
/// - translate: the identity with `-(n + f) / 2` as its z translation;
/// - scale: the diagonal `2 / (right - left)`, `2 / (top - bottom)`,
///   `2 / (n - f)`, `1`;
/// - perspective: rows `(n, 0, 0, 0)`, `(0, n, 0, 0)`, `(0, 0, n + f, -n f)` and
///   `(0, 0, 1, 0)`.
///
/// Their exact product has the rows `(n / right, 0, 0, 0)`, `(0, n / top, 0, 0)`,
/// `(0, 0, (n + f) / (n - f), -2 n f / (n - f))` and `(0, 0, 1, 0)`. Each entry
/// is formed from exact integers and rounded once, to the nearest value.
pub open spec fn projection_entries(
    tan_half_fov: Fixed,
    aspect_ratio: Fixed,
    z_near: Fixed,
    z_far: Fixed,
) -> MatrixModel {
    let n = -z_near.raw;
    let f = -z_far.raw;
    seq![
        seq![
            nearest_quotient(
                n * 0x1_0000_0000_0000,
                frustum_right(tan_half_fov, aspect_ratio, z_near),
            ),
            0int,
            0int,
            0int,
        ],
        seq![
            0int,
            nearest_quotient(n * 0x1_0000_0000, frustum_top(tan_half_fov, z_near)),
            0int,
            0int,
        ],
        seq![
            0int,
            0int,
            nearest_quotient((n + f) * 65536, n - f),
            nearest_quotient(-2 * (n * f), n - f),
        ],
        seq![0int, 0int, 65536int, 0int],
    ]
}

/// The projection, if the frustum is solid and every entry is in range.
pub open spec fn projection_model(
    tan_half_fov: Fixed,
    aspect_ratio: Fixed,
    z_near: Fixed,
    z_far: Fixed,
) -> Option<MatrixModel> {
    let all = projection_entries(tan_half_fov, aspect_ratio, z_near, z_far);
    if frustum_is_solid(tan_half_fov, aspect_ratio, z_near, z_far) && model_fits(all) {
        Some(all)
    } else {
        None
    }
}

/// The perspective projection for a field of view with the given tangent of its
/// half angle, an aspect ratio, and the distances of the near and far planes.
/// The planes are given as positive distances and negated here, for a camera
/// that looks down the negative z axis: the near plane goes to z = +1 and the
/// far plane to z = -1 after the division by the fourth coordinate, which is
/// the z of the point.
pub fn get_projection_matrix(
    tan_half_fov: Fixed,
    aspect_ratio: Fixed,
    z_near: Fixed,
    z_far: Fixed,
) -> (r: Option<Matrix4>)
    ensures
        r is Some <==> projection_model(tan_half_fov, aspect_ratio, z_near, z_far) is Some,
        r matches Some(m) ==> projection_model(tan_half_fov, aspect_ratio, z_near, z_far) == Some(
            m@,
        ),
{
    let one: i128 = 65536;
    // The planes, on the negative z axis.
    let zn: i128 = -(z_near.raw as i128);
    let zf: i128 = -(z_far.raw as i128);

    let reach: i128 = if zn >= 0 {
        zn
    } else {
        -zn
    };
    assert(-0x4000_0000_0000_0000 <= tan_half_fov.raw * reach <= 0x4000_0000_0000_0000)
        by (nonlinear_arith)
        requires
            -0x8000_0000 <= tan_half_fov.raw <= 0x8000_0000,
            0 <= reach <= 0x8000_0000,
    ;
    let top: i128 = (tan_half_fov.raw as i128) * reach;
    assert(-0x2000_0000_0000_0000_0000_0000 <= (-top) * aspect_ratio.raw
        <= 0x2000_0000_0000_0000_0000_0000) by (nonlinear_arith)
        requires
            -0x4000_0000_0000_0000 <= top <= 0x4000_0000_0000_0000,
            -0x8000_0000 <= aspect_ratio.raw <= 0x8000_0000,
    ;
    let right: i128 = (-top) * (aspect_ratio.raw as i128);
    if top == 0 || right == 0 || zn == zf {
        return None;
    }
    assert(-0x4000_0000_0000_0000 <= zn * zf <= 0x4000_0000_0000_0000) by (nonlinear_arith)
        requires
            -0x8000_0000 <= zn <= 0x8000_0000,
            -0x8000_0000 <= zf <= 0x8000_0000,
    ;
    let wide: [[i128; 4]; 4] = [
        [nearest_ratio(zn * 0x1_0000_0000_0000, right), 0, 0, 0],
        [0, nearest_ratio(zn * 0x1_0000_0000, top), 0, 0],
        [0, 0, nearest_ratio((zn + zf) * 65536, zn - zf), nearest_ratio(-2 * (zn * zf), zn - zf)],
        [0, 0, one, 0],
    ];
    assert(wide_model(wide) =~~= projection_entries(tan_half_fov, aspect_ratio, z_near, z_far));
    narrow_matrix(&wide)
}

/// How far the entries of the projection are from the exact ones: each is
/// within half a unit of the last place. With `n` and `f` the planes on the
/// negative z axis, the entries times their denominators differ from the
/// numerators `n`, `n`, `n + f` and `-2 n f` by at most half a denominator.
pub proof fn lemma_projection_entries(
    tan_half_fov: Fixed,
    aspect_ratio: Fixed,
    z_near: Fixed,
    z_far: Fixed,
)
    requires
        frustum_is_solid(tan_half_fov, aspect_ratio, z_near, z_far),
    ensures
        ({
            let m = projection_entries(tan_half_fov, aspect_ratio, z_near, z_far);
            let n = -z_near.raw;
            let f = -z_far.raw;
            let top = frustum_top(tan_half_fov, z_near);
            let right = frustum_right(tan_half_fov, aspect_ratio, z_near);
            &&& -magnitude(right) <= 2 * (m[0][0] * right - n * 0x1_0000_0000_0000) <= magnitude(
                right,
            )
            &&& -magnitude(top) <= 2 * (m[1][1] * top - n * 0x1_0000_0000) <= magnitude(top)
            &&& -magnitude(n - f) <= 2 * (m[2][2] * (n - f) - (n + f) * 65536) <= magnitude(n - f)
            &&& -magnitude(n - f) <= 2 * (m[2][3] * (n - f) - (-2 * (n * f))) <= magnitude(n - f)
            &&& m[3][2] == 65536
        }),
{
    let n = -z_near.raw;
    let f = -z_far.raw;
    lemma_nearest_quotient(
        n * 0x1_0000_0000_0000,
        frustum_right(tan_half_fov, aspect_ratio, z_near),
    );
    lemma_nearest_quotient(n * 0x1_0000_0000, frustum_top(tan_half_fov, z_near));
    lemma_nearest_quotient((n + f) * 65536, n - f);
    lemma_nearest_quotient(-2 * (n * f), n - f);
}

/// Whether a matrix has the shape of a projection where depth is concerned: the
/// fourth coordinate of an image is the z of the point, and the z of the image
/// is `p z + q` with `q` not positive.
pub open spec fn orders_depth(m: MatrixModel) -> bool {
    &&& m[2][0] == 0 && m[2][1] == 0 && m[2][3] <= 0
    &&& m[3][0] == 0 && m[3][1] == 0 && m[3][2] == 65536 && m[3][3] == 0
}

/// For planes in front of the eye, the near one nearer, the projection has the
/// shape that depth ordering rests on: the fourth coordinate of an image is the
/// z of the point, and the entry that is divided by z is not positive.
pub proof fn lemma_projection_shape(
    tan_half_fov: Fixed,
    aspect_ratio: Fixed,
    z_near: Fixed,
    z_far: Fixed,
)
    requires
        0 < z_near.raw < z_far.raw,
    ensures
        orders_depth(projection_entries(tan_half_fov, aspect_ratio, z_near, z_far)),
{
    let n = -z_near.raw;
    let f = -z_far.raw;
    let d = n - f;
    let num = -2 * (n * f);
    assert(n * f > 0) by (nonlinear_arith)
        requires
            n < 0,
            f < 0,
    ;
    vstd::arithmetic::div_mod::lemma_div_is_ordered(2 * num + d, 2 * d - 1, 2 * d);
    vstd::arithmetic::div_mod::lemma_basic_div(2 * d - 1, 2 * d);
}

/// A wider field of view gives a wider frustum: the half-width at the near
/// plane grows strictly with the tangent of the half angle, for a near plane
/// away from the eye and an aspect ratio other than zero.
pub proof fn lemma_frustum_widens(
    narrow_tan: Fixed,
    wide_tan: Fixed,
    aspect_ratio: Fixed,
    z_near: Fixed,
)
    requires
        0 <= narrow_tan.raw < wide_tan.raw,
        aspect_ratio.raw != 0,
        z_near.raw != 0,
    ensures
        magnitude(frustum_right(narrow_tan, aspect_ratio, z_near)) < magnitude(
            frustum_right(wide_tan, aspect_ratio, z_near),
        ),
{
    let reach = magnitude(-z_near.raw);
    let low = frustum_top(narrow_tan, z_near);
    let high = frustum_top(wide_tan, z_near);
    assert(0 <= low < high) by (nonlinear_arith)
        requires
            low == narrow_tan.raw * reach,
            high == wide_tan.raw * reach,
            0 <= narrow_tan.raw < wide_tan.raw,
            reach > 0,
    ;
    let a = aspect_ratio.raw as int;
    if a > 0 {
        assert((-high) * a < (-low) * a <= 0) by (nonlinear_arith)
            requires
                0 <= low < high,
                a > 0,
        ;
    } else {
        assert(0 <= (-low) * a < (-high) * a) by (nonlinear_arith)
            requires
                0 <= low < high,
                a < 0,
        ;
    }
}

} // verus!
