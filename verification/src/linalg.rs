//! Points, vectors and 4x4 matrices over [`Fixed`].

use crate::fixed::{fits, floor_div, narrow, narrowed, Fixed, ONE};
use vstd::prelude::*;

verus! {

/// A pixel position: a column and a row.
#[derive(Clone, Copy, Debug, PartialEq, Eq, Structural)]
pub struct Pixel {
    pub x: u32,
    pub y: u32,
}

/// A point of the plane.
#[derive(Clone, Copy, Debug, PartialEq, Eq, Structural)]
pub struct Point2 {
    pub x: Fixed,
    pub y: Fixed,
}

/// A point of space.
#[derive(Clone, Copy, Debug, PartialEq, Eq, Structural)]
pub struct Point3 {
    pub x: Fixed,
    pub y: Fixed,
    pub z: Fixed,
}

/// A direction of space.
#[derive(Clone, Copy, Debug, PartialEq, Eq, Structural)]
pub struct Vector3 {
    pub x: Fixed,
    pub y: Fixed,
    pub z: Fixed,
}

/// A point in homogeneous coordinates.
#[derive(Clone, Copy, Debug, PartialEq, Eq, Structural)]
pub struct Point4 {
    pub x: Fixed,
    pub y: Fixed,
    pub z: Fixed,
    pub w: Fixed,
}

/// A 4x4 matrix, stored by rows.
#[derive(Clone, Copy, Debug, PartialEq, Eq)]
pub struct Matrix4 {
    pub rows: [[Fixed; 4]; 4],
}

/// Raw entries of a 4x4 matrix, by row and column. A model may hold entries
/// that no [`Fixed`] can: see [`model_fits`].
pub type MatrixModel = Seq<Seq<int>>;

impl View for Matrix4 {
    type V = MatrixModel;

    open spec fn view(&self) -> MatrixModel {
        Seq::new(4, |r: int| Seq::new(4, |c: int| self.rows[r][c].raw as int))
    }
}

/// Whether every entry of `m` is the raw value of a [`Fixed`].
pub open spec fn model_fits(m: MatrixModel) -> bool {
    forall|r: int, c: int| 0 <= r < 4 && 0 <= c < 4 ==> fits(#[trigger] m[r][c])
}

/// Row `r` of `a` times column `c` of `b`, on raw values and without rounding.
pub open spec fn row_times_column(a: MatrixModel, b: MatrixModel, r: int, c: int) -> int {
    a[r][0] * b[0][c] + a[r][1] * b[1][c] + a[r][2] * b[2][c] + a[r][3] * b[3][c]
}

/// The fixed-point product of two matrices: each entry is one exact sum of
/// four products, rounded once.
pub open spec fn product_model(a: MatrixModel, b: MatrixModel) -> MatrixModel {
    Seq::new(4, |r: int| Seq::new(4, |c: int| row_times_column(a, b, r, c) / 65536))
}

/// The identity matrix.
pub open spec fn identity_model() -> MatrixModel {
    Seq::new(4, |r: int| Seq::new(4, |c: int| if r == c { 65536int } else { 0int }))
}

/// The matrix whose entries are all zero.
pub open spec fn zero_model() -> MatrixModel {
    Seq::new(4, |r: int| Seq::new(4, |c: int| 0int))
}

/// The model that holds the given wide entries.
pub open spec fn wide_model(wide: [[i128; 4]; 4]) -> MatrixModel {
    Seq::new(4, |r: int| Seq::new(4, |c: int| wide[r][c] as int))
}

/// Row `r` of `m` times the column `(x, y, z, w)` of `v`, on raw values and
/// without rounding.
pub open spec fn row_times_point(m: MatrixModel, v: Point4, r: int) -> int {
    m[r][0] * v.x.raw + m[r][1] * v.y.raw + m[r][2] * v.z.raw + m[r][3] * v.w.raw
}

/// Coordinate `r` of the image of `v` under `m`: one exact sum, rounded once.
pub open spec fn image_coordinate(m: MatrixModel, v: Point4, r: int) -> int {
    row_times_point(m, v, r) / 65536
}

/// The image of `v` under `m`, if its four coordinates are in range.
pub open spec fn transformed(m: MatrixModel, v: Point4) -> Option<Point4> {
    match (
        narrowed(image_coordinate(m, v, 0)),
        narrowed(image_coordinate(m, v, 1)),
        narrowed(image_coordinate(m, v, 2)),
        narrowed(image_coordinate(m, v, 3)),
    ) {
        (Some(x), Some(y), Some(z), Some(w)) => Some(Point4 { x, y, z, w }),
        _ => None,
    }
}

/// Product of two matrices by the `*` of `nalgebra::Matrix4` (its `Mul::mul`),
/// on raw values widened to 128 bits. Claimed of it: entry `(r, c)` of the
/// product is the sum over `k` of `a[r][k] * b[k][c]`, with no rounding. With
/// 32-bit inputs no product or partial sum leaves the 128-bit range.
#[verifier::external_body]
fn raw_product(a: &Matrix4, b: &Matrix4) -> (p: [[i128; 4]; 4])
    ensures
        forall|r: int, c: int|
            0 <= r < 4 && 0 <= c < 4 ==> #[trigger] p[r][c] == row_times_column(a@, b@, r, c),
{
    let x = nalgebra::Matrix4::<i128>::from_fn(|r, c| i128::from(a.rows[r][c].raw));
    let y = nalgebra::Matrix4::<i128>::from_fn(|r, c| i128::from(b.rows[r][c].raw));
    let z = x * y;
    core::array::from_fn(|r| core::array::from_fn(|c| z[(r, c)]))
}

/// Cross product of two vectors by `cross` of `nalgebra::Vector3`, on values
/// widened to 128 bits. Claimed of it: the result is
/// `(u1 v2 - u2 v1, u2 v0 - u0 v2, u0 v1 - u1 v0)`. The bound on the inputs
/// keeps every product and difference within the 128-bit range.
#[verifier::external_body]
pub(crate) fn raw_cross(u: [i64; 3], v: [i64; 3]) -> (c: [i128; 3])
    requires
        forall|i: int| 0 <= i < 3 ==> -0x4000_0000_0000_0000 <= #[trigger] u[i] <= 0x4000_0000_0000_0000,
        forall|i: int| 0 <= i < 3 ==> -0x4000_0000_0000_0000 <= #[trigger] v[i] <= 0x4000_0000_0000_0000,
    ensures
        c[0] == u[1] * v[2] - u[2] * v[1],
        c[1] == u[2] * v[0] - u[0] * v[2],
        c[2] == u[0] * v[1] - u[1] * v[0],
{
    let a = nalgebra::Vector3::<i128>::new(i128::from(u[0]), i128::from(u[1]), i128::from(u[2]));
    let b = nalgebra::Vector3::<i128>::new(i128::from(v[0]), i128::from(v[1]), i128::from(v[2]));
    let c = a.cross(&b);
    [c[0], c[1], c[2]]
}

/// The matrix with the given wide entries, unless one is out of range.
pub fn narrow_matrix(wide: &[[i128; 4]; 4]) -> (r: Option<Matrix4>)
    ensures
        r is Some <==> model_fits(wide_model(*wide)),
        r matches Some(m) ==> m@ == wide_model(*wide),
{
    let zero = Fixed { raw: 0 };
    let mut rows: [[Fixed; 4]; 4] = [[zero; 4]; 4];
    let ghost want = wide_model(*wide);
    for r in 0..4usize
        invariant
            want == wide_model(*wide),
            forall|i: int, j: int|
                0 <= i < r && 0 <= j < 4 ==> (#[trigger] rows[i][j]).raw == want[i][j],
    {
        for c in 0..4usize
            invariant
                0 <= r < 4,
                want == wide_model(*wide),
                forall|i: int, j: int|
                    0 <= i < r && 0 <= j < 4 ==> (#[trigger] rows[i][j]).raw == want[i][j],
                forall|j: int|
                    0 <= j < c ==> (#[trigger] rows[r as int][j]).raw == want[r as int][j],
        {
            match narrow(wide[r][c]) {
                Some(v) => {
                    rows[r][c] = v;
                },
                None => {
                    assert(!fits(want[r as int][c as int]));
                    return None;
                },
            }
        }
    }
    let m = Matrix4 { rows };
    assert(m@ =~~= want);
    Some(m)
}

impl Matrix4 {
    /// The matrix with the given rows.
    pub fn new(rows: [[Fixed; 4]; 4]) -> (m: Matrix4)
        ensures
            m.rows == rows,
            forall|r: int, c: int| 0 <= r < 4 && 0 <= c < 4 ==> #[trigger] m@[r][c] == rows[r][c].raw,
    {
        Matrix4 { rows }
    }

    /// The identity matrix.
    pub fn identity() -> (m: Matrix4)
        ensures
            m@ == identity_model(),
    {
        let o = Fixed { raw: 0 };
        let i = Fixed { raw: ONE };
        let m = Matrix4 { rows: [[i, o, o, o], [o, i, o, o], [o, o, i, o], [o, o, o, i]] };
        assert(m@ =~~= identity_model());
        m
    }

    /// The matrix whose entries are all zero.
    pub fn zero() -> (m: Matrix4)
        ensures
            m@ == zero_model(),
    {
        let o = Fixed { raw: 0 };
        let m = Matrix4 { rows: [[o; 4]; 4] };
        assert(m@ =~~= zero_model());
        m
    }

    /// The entry in row `r` and column `c`.
    pub fn get(&self, r: usize, c: usize) -> (e: Fixed)
        requires
            r < 4,
            c < 4,
        ensures
            e.raw == self@[r as int][c as int],
    {
        self.rows[r][c]
    }

    /// The fixed-point product `self * rhs`, unless an entry is out of range.
    pub fn product(&self, rhs: &Matrix4) -> (r: Option<Matrix4>)
        ensures
            r is Some <==> model_fits(product_model(self@, rhs@)),
            r matches Some(m) ==> m@ == product_model(self@, rhs@),
    {
        let p = raw_product(self, rhs);
        let mut wide: [[i128; 4]; 4] = [[0; 4]; 4];
        let ghost want = product_model(self@, rhs@);
        for r in 0..4usize
            invariant
                want == product_model(self@, rhs@),
                forall|i: int, j: int|
                    0 <= i < 4 && 0 <= j < 4 ==> #[trigger] p[i][j] == row_times_column(
                        self@,
                        rhs@,
                        i,
                        j,
                    ),
                forall|i: int, j: int| 0 <= i < r && 0 <= j < 4 ==> #[trigger] wide[i][j] == want[i][j],
        {
            for c in 0..4usize
                invariant
                    0 <= r < 4,
                    want == product_model(self@, rhs@),
                    forall|i: int, j: int|
                        0 <= i < 4 && 0 <= j < 4 ==> #[trigger] p[i][j] == row_times_column(
                            self@,
                            rhs@,
                            i,
                            j,
                        ),
                    forall|i: int, j: int|
                        0 <= i < r && 0 <= j < 4 ==> #[trigger] wide[i][j] == want[i][j],
                    forall|j: int| 0 <= j < c ==> #[trigger] wide[r as int][j] == want[r as int][j],
            {
                let sum: i128 = p[r][c];
                wide[r][c] = floor_div(sum, 65536);
            }
        }
        assert(wide_model(wide) =~~= want);
        narrow_matrix(&wide)
    }

    /// The rows of the matrix times a point in homogeneous coordinates, exact
    /// and not yet rounded: raw values with 32 fractional bits. The point is
    /// multiplied as the first column of a matrix.
    pub fn raw_image(&self, v: Point4) -> (p: [i128; 4])
        ensures
            forall|r: int| 0 <= r < 4 ==> #[trigger] p[r] == row_times_point(self@, v, r),
    {
        let o = Fixed { raw: 0 };
        let column = Matrix4 { rows: [[v.x, o, o, o], [v.y, o, o, o], [v.z, o, o, o], [v.w, o, o, o]] };
        let p = raw_product(self, &column);
        assert(forall|r: int| 0 <= r < 4 ==> #[trigger] p[r][0] == row_times_point(self@, v, r));
        [p[0][0], p[1][0], p[2][0], p[3][0]]
    }

    /// The matrix applied to a point in homogeneous coordinates, unless a
    /// coordinate of the image is out of range.
    pub fn transform(&self, v: Point4) -> (r: Option<Point4>)
        ensures
            r == transformed(self@, v),
    {
        let p = self.raw_image(v);
        let x = narrow(floor_div(p[0], 65536));
        let y = narrow(floor_div(p[1], 65536));
        let z = narrow(floor_div(p[2], 65536));
        let w = narrow(floor_div(p[3], 65536));
        match (x, y, z, w) {
            (Some(x), Some(y), Some(z), Some(w)) => Some(Point4 { x, y, z, w }),
            _ => None,
        }
    }
}

impl Default for Matrix4 {
    /// The zero matrix.
    fn default() -> (m: Matrix4)
        ensures
            m@ == zero_model(),
    {
        Matrix4::zero()
    }
}

} // verus!
