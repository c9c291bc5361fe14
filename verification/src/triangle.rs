//! Triangles: three homogeneous vertices and one flat colour, with the
//! geometric queries that scan conversion needs.
//!
//! The queries read the corners as screen-space positions and take pixels at
//! whole coordinates. Orientation tests and barycentric weights are exact: they
//! are integers, and the weights are kept as fractions over a common
//! denominator rather than rounded. A [`Triangle`] holds its corners as
//! [`Point4`]; a [`ScreenTriangle`] holds screen positions that may lie far
//! off the screen, in wider integers. Both answer the same queries.

use crate::fixed::{
    fits, floor_quotient, floor_ratio, lemma_floor_quotient_bound, narrow, narrowed, Fixed,
};
use crate::linalg::{raw_cross, Pixel, Point3, Point4};
use vstd::prelude::*;

verus! {

/// A triangle with a flat colour.
#[derive(Clone, Copy, Debug, PartialEq, Eq)]
pub struct Triangle {
    vertex: [Point4; 3],
    color: [u8; 3],
}

/// A corner as the queries read it: its raw coordinates.
pub struct Corner {
    pub x: int,
    pub y: int,
    pub z: int,
    pub w: int,
}

/// The corner that a point stands for.
pub open spec fn corner(p: Point4) -> Corner {
    Corner { x: p.x.raw as int, y: p.y.raw as int, z: p.z.raw as int, w: p.w.raw as int }
}

/// What a triangle holds: its corners in order, and its colour.
pub struct TriangleView {
    pub a: Corner,
    pub b: Corner,
    pub c: Corner,
    pub color: [u8; 3],
}

impl View for Triangle {
    type V = TriangleView;

    closed spec fn view(&self) -> TriangleView {
        TriangleView {
            a: corner(self.vertex[0]),
            b: corner(self.vertex[1]),
            c: corner(self.vertex[2]),
            color: self.color,
        }
    }
}

/// A corner on the screen: x and y with sixteen fractional bits like a
/// [`Fixed`], but 64 bits wide, so that a corner may lie far off the screen; a
/// depth; and the fourth coordinate that the projection gave.
#[derive(Clone, Copy, Debug, PartialEq, Eq, Structural)]
pub struct ScreenPoint {
    pub x: i64,
    pub y: i64,
    pub z: Fixed,
    pub w: Fixed,
}

impl View for ScreenPoint {
    type V = Corner;

    open spec fn view(&self) -> Corner {
        Corner { x: self.x as int, y: self.y as int, z: self.z.raw as int, w: self.w.raw as int }
    }
}

/// The largest screen coordinate, as a raw value, that the queries take: half
/// a billion pixels to either side. It keeps every product of the queries
/// within 128 bits.
pub const REACH: i64 = 0x2000_0000_0000;

/// A triangle on the screen, with a flat colour.
#[derive(Clone, Copy, Debug, PartialEq, Eq)]
pub struct ScreenTriangle {
    pub a: ScreenPoint,
    pub b: ScreenPoint,
    pub c: ScreenPoint,
    pub color: [u8; 3],
}

impl View for ScreenTriangle {
    type V = TriangleView;

    open spec fn view(&self) -> TriangleView {
        TriangleView { a: self.a@, b: self.b@, c: self.c@, color: self.color }
    }
}

/// Whether a corner lies within [`REACH`] and has a depth and a fourth
/// coordinate of 32 bits.
pub open spec fn corner_within_reach(c: Corner) -> bool {
    &&& -0x2000_0000_0000 <= c.x <= 0x2000_0000_0000
    &&& -0x2000_0000_0000 <= c.y <= 0x2000_0000_0000
    &&& fits(c.z)
    &&& fits(c.w)
}

/// Whether the three corners lie within reach.
pub open spec fn within_reach(t: TriangleView) -> bool {
    corner_within_reach(t.a) && corner_within_reach(t.b) && corner_within_reach(t.c)
}

/// Why a geometric query has no answer.
#[derive(Clone, Copy, Debug, PartialEq, Eq, Structural)]
pub enum GeometryError {
    /// The three corners lie on one line, so the triangle has no area.
    DegenerateGeometry,
}

/// Barycentric weights of a point, as the fractions `alpha / total`,
/// `beta / total` and `gamma / total` for the corners in order.
#[derive(Clone, Copy, Debug, PartialEq, Eq, Structural)]
pub struct Barycentric {
    pub alpha: i128,
    pub beta: i128,
    pub gamma: i128,
    pub total: i128,
}

/// The z-component of `(v - u) x (p - u)` for the pixel `p = (px, py)`, on raw
/// values: positive when `p` lies to the left of the edge from `u` to `v`.
pub open spec fn edge(u: Corner, v: Corner, px: int, py: int) -> int {
    (v.x - u.x) * (py * 65536 - u.y) - (v.y - u.y) * (px * 65536 - u.x)
}

/// Twice the signed area of the triangle: the z-component of `(b - a) x (c - a)`.
pub open spec fn doubled_area(t: TriangleView) -> int {
    (t.b.x - t.a.x) * (t.c.y - t.a.y) - (t.b.y - t.a.y) * (t.c.x - t.a.x)
}

/// Whether the pixel lies strictly inside the triangle: on the same strict side
/// of all three edges. A pixel on an edge is outside.
pub open spec fn covers(t: TriangleView, px: int, py: int) -> bool {
    let ab = edge(t.a, t.b, px, py);
    let bc = edge(t.b, t.c, px, py);
    let ca = edge(t.c, t.a, px, py);
    (ab > 0 && bc > 0 && ca > 0) || (ab < 0 && bc < 0 && ca < 0)
}

/// The weights of the pixel: the solution of `alpha + beta + gamma = 1`,
/// `alpha a + beta b + gamma c = p` by Cramer's rule, over the determinant
/// `total`.
pub open spec fn weights(t: TriangleView, px: int, py: int) -> (int, int, int, int) {
    (edge(t.b, t.c, px, py), edge(t.c, t.a, px, py), edge(t.a, t.b, px, py), doubled_area(t))
}

/// One over the fourth coordinate of a corner, with 62 fractional bits on the
/// raw value: `2^62 / w`, rounded down.
pub open spec fn inverse_w(v: Corner) -> int {
    floor_quotient(0x4000_0000_0000_0000, v.w)
}

/// A weight as a fraction of the whole with 30 bits: `part / total`, rounded
/// down.
pub open spec fn share(part: int, total: int) -> int {
    floor_quotient(part * 0x4000_0000, total)
}

/// Whether depth can be interpolated across the triangle: no corner has a zero
/// fourth coordinate.
pub open spec fn interpolable(t: TriangleView) -> bool {
    t.a.w != 0 && t.b.w != 0 && t.c.w != 0
}

/// `alpha z_a / w_a + beta z_b / w_b + gamma z_c / w_c`, with the weights as
/// [`share`]s and one over w as [`inverse_w`]; each `z / w` is the exact product
/// of z and the inverse.
pub open spec fn depth_numerator(t: TriangleView, px: int, py: int) -> int {
    let (alpha, beta, gamma, total) = weights(t, px, py);
    share(alpha, total) * (t.a.z * inverse_w(t.a)) + share(beta, total) * (t.b.z * inverse_w(t.b))
        + share(gamma, total) * (t.c.z * inverse_w(t.c))
}

/// `alpha / w_a + beta / w_b + gamma / w_c`, with the weights as [`share`]s and
/// one over w as [`inverse_w`].
pub open spec fn depth_denominator(t: TriangleView, px: int, py: int) -> int {
    let (alpha, beta, gamma, total) = weights(t, px, py);
    share(alpha, total) * inverse_w(t.a) + share(beta, total) * inverse_w(t.b) + share(
        gamma,
        total,
    ) * inverse_w(t.c)
}

/// The perspective-correct depth of the triangle at a pixel strictly inside it:
/// the quotient of [`depth_numerator`] and [`depth_denominator`], rounded down.
/// There is none where the pixel is not covered, the triangle is not
/// [`interpolable`], the denominator vanishes, or the depth is out of range.
pub open spec fn interpolated_depth(t: TriangleView, px: int, py: int) -> Option<Fixed> {
    if covers(t, px, py) && interpolable(t) && depth_denominator(t, px, py) != 0 {
        narrowed(floor_quotient(depth_numerator(t, px, py), depth_denominator(t, px, py)))
    } else {
        None
    }
}

pub open spec fn min3(x: int, y: int, z: int) -> int {
    if x <= y && x <= z {
        x
    } else if y <= z {
        y
    } else {
        z
    }
}

pub open spec fn max3(x: int, y: int, z: int) -> int {
    if x >= y && x >= z {
        x
    } else if y >= z {
        y
    } else {
        z
    }
}

fn least(x: i64, y: i64, z: i64) -> (m: i64)
    ensures
        m == min3(x as int, y as int, z as int),
{
    if x <= y && x <= z {
        x
    } else if y <= z {
        y
    } else {
        z
    }
}

fn greatest(x: i64, y: i64, z: i64) -> (m: i64)
    ensures
        m == max3(x as int, y as int, z as int),
{
    if x >= y && x >= z {
        x
    } else if y >= z {
        y
    } else {
        z
    }
}

fn widened(p: Point4) -> (s: ScreenPoint)
    ensures
        s@ == corner(p),
        corner_within_reach(s@),
{
    ScreenPoint { x: p.x.raw as i64, y: p.y.raw as i64, z: p.z, w: p.w }
}

impl Triangle {
    /// The white triangle with the given corners. Their fourth coordinate is
    /// zero until a transform sets it.
    pub fn new(a: Point3, b: Point3, c: Point3) -> (t: Triangle)
        ensures
            t@.a == corner(Point4 { x: a.x, y: a.y, z: a.z, w: Fixed { raw: 0 } }),
            t@.b == corner(Point4 { x: b.x, y: b.y, z: b.z, w: Fixed { raw: 0 } }),
            t@.c == corner(Point4 { x: c.x, y: c.y, z: c.z, w: Fixed { raw: 0 } }),
            t@.color@ == seq![255u8, 255u8, 255u8],
    {
        let zero = Fixed { raw: 0 };
        let t = Triangle {
            vertex: [
                Point4 { x: a.x, y: a.y, z: a.z, w: zero },
                Point4 { x: b.x, y: b.y, z: b.z, w: zero },
                Point4 { x: c.x, y: c.y, z: c.z, w: zero },
            ],
            color: [255, 255, 255],
        };
        assert(t@.color@ =~= seq![255u8, 255u8, 255u8]);
        t
    }

    /// Replaces the three corners.
    pub fn set_vertex(&mut self, vertex: [Point4; 3])
        ensures
            final(self)@.a == corner(vertex[0]),
            final(self)@.b == corner(vertex[1]),
            final(self)@.c == corner(vertex[2]),
            final(self)@.color == old(self)@.color,
    {
        self.vertex = vertex;
    }

    /// The three corners, in order.
    pub fn get_vertex(&self) -> (vertex: [Point4; 3])
        ensures
            corner(vertex[0]) == self@.a,
            corner(vertex[1]) == self@.b,
            corner(vertex[2]) == self@.c,
    {
        self.vertex
    }

    /// The first corner.
    pub fn a(&self) -> (p: Point4)
        ensures
            corner(p) == self@.a,
    {
        self.vertex[0]
    }

    /// The second corner.
    pub fn b(&self) -> (p: Point4)
        ensures
            corner(p) == self@.b,
    {
        self.vertex[1]
    }

    /// The third corner.
    pub fn c(&self) -> (p: Point4)
        ensures
            corner(p) == self@.c,
    {
        self.vertex[2]
    }

    /// Replaces the colour.
    pub fn set_color(&mut self, color: [u8; 3])
        ensures
            final(self)@.color == color,
            final(self)@.a == old(self)@.a,
            final(self)@.b == old(self)@.b,
            final(self)@.c == old(self)@.c,
    {
        self.color = color;
    }

    /// The colour.
    pub fn get_color(&self) -> (color: [u8; 3])
        ensures
            color == self@.color,
    {
        self.color
    }

    /// The same triangle as one on the screen.
    pub fn on_screen(&self) -> (s: ScreenTriangle)
        ensures
            s@ == self@,
            s.wf(),
    {
        ScreenTriangle {
            a: widened(self.vertex[0]),
            b: widened(self.vertex[1]),
            c: widened(self.vertex[2]),
            color: self.color,
        }
    }

    /// The axis-aligned box around the corners, as `[left, right, top, bottom]`:
    /// least and greatest x, then greatest and least y.
    pub fn get_bounding(&self) -> (r: [Fixed; 4])
        ensures
            r[0].raw == min3(self@.a.x, self@.b.x, self@.c.x),
            r[1].raw == max3(self@.a.x, self@.b.x, self@.c.x),
            r[2].raw == max3(self@.a.y, self@.b.y, self@.c.y),
            r[3].raw == min3(self@.a.y, self@.b.y, self@.c.y),
    {
        let a = self.vertex[0];
        let b = self.vertex[1];
        let c = self.vertex[2];
        let left = least(a.x.raw as i64, b.x.raw as i64, c.x.raw as i64);
        let right = greatest(a.x.raw as i64, b.x.raw as i64, c.x.raw as i64);
        let top = greatest(a.y.raw as i64, b.y.raw as i64, c.y.raw as i64);
        let bottom = least(a.y.raw as i64, b.y.raw as i64, c.y.raw as i64);
        [
            Fixed { raw: left as i32 },
            Fixed { raw: right as i32 },
            Fixed { raw: top as i32 },
            Fixed { raw: bottom as i32 },
        ]
    }

    /// Whether the pixel lies strictly inside the triangle.
    pub fn include_point(&self, point: Pixel) -> (inside: bool)
        ensures
            inside == covers(self@, point.x as int, point.y as int),
    {
        self.on_screen().include_point(point)
    }

    /// The barycentric weights of the pixel, inside the triangle or not. A
    /// triangle without area has none.
    pub fn get_bary_centric(&self, point: Pixel) -> (r: Result<Barycentric, GeometryError>)
        ensures
            r is Ok <==> doubled_area(self@) != 0,
            r matches Ok(w) ==> (w.alpha as int, w.beta as int, w.gamma as int, w.total as int)
                == weights(self@, point.x as int, point.y as int),
    {
        self.on_screen().get_bary_centric(point)
    }

    /// The perspective-correct depth at a pixel, where the triangle has one.
    pub fn depth_at(&self, point: Pixel) -> (r: Option<Fixed>)
        ensures
            r == interpolated_depth(self@, point.x as int, point.y as int),
    {
        self.on_screen().depth_at(point)
    }
}

/// Whether the x and y of the three corners are 32 bits wide, so that the
/// triangle can be held as a [`Triangle`].
pub open spec fn corners_fit(t: TriangleView) -> bool {
    &&& fits(t.a.x) && fits(t.a.y)
    &&& fits(t.b.x) && fits(t.b.y)
    &&& fits(t.c.x) && fits(t.c.y)
}

fn narrowed_point(p: ScreenPoint) -> (r: Option<Point4>)
    ensures
        r is Some <==> fits(p@.x) && fits(p@.y),
        r matches Some(q) ==> corner(q) == p@,
{
    match (narrow(p.x as i128), narrow(p.y as i128)) {
        (Some(x), Some(y)) => Some(Point4 { x, y, z: p.z, w: p.w }),
        _ => None,
    }
}

impl ScreenTriangle {
    /// Whether the corners lie within [`REACH`].
    pub open spec fn wf(&self) -> bool {
        within_reach(self@)
    }

    /// The same triangle with corners of 32 bits, if they fit.
    pub fn to_triangle(&self) -> (r: Option<Triangle>)
        ensures
            r is Some <==> corners_fit(self@),
            r matches Some(t) ==> t@ == self@,
    {
        match (narrowed_point(self.a), narrowed_point(self.b), narrowed_point(self.c)) {
            (Some(a), Some(b), Some(c)) => Some(Triangle { vertex: [a, b, c], color: self.color }),
            _ => None,
        }
    }

    /// The axis-aligned box around the corners, as `[left, right, top, bottom]`:
    /// least and greatest x, then greatest and least y.
    pub fn get_bounding(&self) -> (r: [i64; 4])
        ensures
            r[0] == min3(self@.a.x, self@.b.x, self@.c.x),
            r[1] == max3(self@.a.x, self@.b.x, self@.c.x),
            r[2] == max3(self@.a.y, self@.b.y, self@.c.y),
            r[3] == min3(self@.a.y, self@.b.y, self@.c.y),
    {
        [
            least(self.a.x, self.b.x, self.c.x),
            greatest(self.a.x, self.b.x, self.c.x),
            greatest(self.a.y, self.b.y, self.c.y),
            least(self.a.y, self.b.y, self.c.y),
        ]
    }

    /// Whether the pixel lies strictly inside the triangle.
    pub fn include_point(&self, point: Pixel) -> (inside: bool)
        requires
            self.wf(),
        ensures
            inside == covers(self@, point.x as int, point.y as int),
    {
        let ab_z = edge_at(self.a, self.b, point);
        let bc_z = edge_at(self.b, self.c, point);
        let ca_z = edge_at(self.c, self.a, point);
        (ab_z > 0 && bc_z > 0 && ca_z > 0) || (ab_z < 0 && bc_z < 0 && ca_z < 0)
    }

    /// The barycentric weights of the pixel, inside the triangle or not. A
    /// triangle without area has none.
    pub fn get_bary_centric(&self, point: Pixel) -> (r: Result<Barycentric, GeometryError>)
        requires
            self.wf(),
        ensures
            r is Ok <==> doubled_area(self@) != 0,
            r matches Ok(w) ==> (w.alpha as int, w.beta as int, w.gamma as int, w.total as int)
                == weights(self@, point.x as int, point.y as int),
    {
        let alpha = edge_at(self.b, self.c, point);
        let beta = edge_at(self.c, self.a, point);
        let gamma = edge_at(self.a, self.b, point);
        proof {
            lemma_weights_sum(self@, point.x as int, point.y as int);
        }
        let total = alpha + beta + gamma;
        if total == 0 {
            Err(GeometryError::DegenerateGeometry)
        } else {
            Ok(Barycentric { alpha, beta, gamma, total })
        }
    }

    /// The perspective-correct depth at a pixel, where the triangle has one.
    pub fn depth_at(&self, point: Pixel) -> (r: Option<Fixed>)
        requires
            self.wf(),
        ensures
            r == interpolated_depth(self@, point.x as int, point.y as int),
    {
        if !self.include_point(point) {
            return None;
        }
        let a = self.a;
        let b = self.b;
        let c = self.c;
        if a.w.raw == 0 || b.w.raw == 0 || c.w.raw == 0 {
            return None;
        }
        proof {
            lemma_weights_inside(self@, point.x as int, point.y as int);
            lemma_area_bound(self@);
            lemma_floor_quotient_bound(0x4000_0000_0000_0000int, a.w.raw as int);
            lemma_floor_quotient_bound(0x4000_0000_0000_0000int, b.w.raw as int);
            lemma_floor_quotient_bound(0x4000_0000_0000_0000int, c.w.raw as int);
        }
        let ra = floor_ratio(0x4000_0000_0000_0000, a.w.raw as i128);
        let rb = floor_ratio(0x4000_0000_0000_0000, b.w.raw as i128);
        let rc = floor_ratio(0x4000_0000_0000_0000, c.w.raw as i128);
        let weights = match self.get_bary_centric(point) {
            Ok(weights) => weights,
            Err(_) => {
                return None;
            },
        };
        let ua = share_of(weights.alpha, weights.total);
        let ub = share_of(weights.beta, weights.total);
        let uc = share_of(weights.gamma, weights.total);
        let num = term(ua, over_w(a.z.raw as i128, ra)) + term(ub, over_w(b.z.raw as i128, rb))
            + term(uc, over_w(c.z.raw as i128, rc));
        let den = term(ua, ra) + term(ub, rb) + term(uc, rc);
        if den == 0 {
            return None;
        }
        narrow(floor_ratio(num, den))
    }
}

/// A weight as a fraction of the whole, for a weight of the whole's sign and of
/// smaller magnitude.
fn share_of(part: i128, total: i128) -> (u: i128)
    requires
        -0x2000_0000_0000_0000_0000_0000 <= total <= 0x2000_0000_0000_0000_0000_0000,
        (0 < part < total) || (total < part < 0),
    ensures
        u == share(part as int, total as int),
        0 <= u <= 0x4000_0000,
{
    proof {
        lemma_share_bound(part as int, total as int);
    }
    floor_ratio(part * 0x4000_0000, total)
}

/// A share of a weight of the whole's sign and of smaller magnitude lies
/// between nothing and all.
pub proof fn lemma_share_bound(part: int, total: int)
    requires
        (0 < part < total) || (total < part < 0),
    ensures
        0 <= share(part, total) <= 0x4000_0000,
{
    let (p, t) = if total > 0 {
        (part, total)
    } else {
        (-part, -total)
    };
    assert(share(part, total) == (p * 0x4000_0000) / t);
    vstd::arithmetic::div_mod::lemma_div_is_ordered(0, p * 0x4000_0000, t);
    vstd::arithmetic::div_mod::lemma_div_is_ordered(p * 0x4000_0000, t * 0x4000_0000, t);
    vstd::arithmetic::div_mod::lemma_div_multiples_vanish(0x4000_0000, t);
    assert(t * 0x4000_0000 == 0x4000_0000 * t);
    assert(0int / t == 0) by {
        vstd::arithmetic::div_mod::lemma_basic_div(0, t);
    }
}

/// The edge function of the pixel, through the cross product of the edge and
/// the vector from its start to the pixel.
fn edge_at(u: ScreenPoint, v: ScreenPoint, point: Pixel) -> (e: i128)
    requires
        corner_within_reach(u@),
        corner_within_reach(v@),
    ensures
        e == edge(u@, v@, point.x as int, point.y as int),
        -0x2_0000_0000_0000_0000_0000_0000 <= e <= 0x2_0000_0000_0000_0000_0000_0000,
{
    let along: [i64; 3] = [v.x - u.x, v.y - u.y, v.z.raw as i64 - u.z.raw as i64];
    let toward: [i64; 3] = [
        (point.x as i64) * 65536 - u.x,
        (point.y as i64) * 65536 - u.y,
        65536 - u.z.raw as i64,
    ];
    let cross = raw_cross(along, toward);
    assert(-0x2_0000_0000_0000_0000_0000_0000 <= along[0] * toward[1] - along[1] * toward[0] <= 0x2_0000_0000_0000_0000_0000_0000) by (nonlinear_arith)
        requires
            -0x4000_0000_0000 <= along[0] <= 0x4000_0000_0000,
            -0x4000_0000_0000 <= along[1] <= 0x4000_0000_0000,
            -0x4_0000_0000_0000 <= toward[0] <= 0x4_0000_0000_0000,
            -0x4_0000_0000_0000 <= toward[1] <= 0x4_0000_0000_0000,
    ;
    cross[2]
}

/// A depth times one over w.
fn over_w(z: i128, inverse: i128) -> (p: i128)
    requires
        -0x8000_0000 <= z <= 0x8000_0000,
        -0x4000_0000_0000_0000 <= inverse <= 0x4000_0000_0000_0000,
    ensures
        p == z * inverse,
        -0x2000_0000_0000_0000_0000_0000 <= p <= 0x2000_0000_0000_0000_0000_0000,
{
    assert(-0x2000_0000_0000_0000_0000_0000 <= z * inverse <= 0x2000_0000_0000_0000_0000_0000)
        by (nonlinear_arith)
        requires
            -0x8000_0000 <= z <= 0x8000_0000,
            -0x4000_0000_0000_0000 <= inverse <= 0x4000_0000_0000_0000,
    ;
    z * inverse
}

/// A share times a per-corner quantity.
fn term(share: i128, value: i128) -> (p: i128)
    requires
        0 <= share <= 0x4000_0000,
        -0x2000_0000_0000_0000_0000_0000 <= value <= 0x2000_0000_0000_0000_0000_0000,
    ensures
        p == share * value,
        -0x800_0000_0000_0000_0000_0000_0000_0000 <= p <= 0x800_0000_0000_0000_0000_0000_0000_0000,
{
    assert(-0x800_0000_0000_0000_0000_0000_0000_0000 <= share * value
        <= 0x800_0000_0000_0000_0000_0000_0000_0000) by (nonlinear_arith)
        requires
            0 <= share <= 0x4000_0000,
            -0x2000_0000_0000_0000_0000_0000 <= value <= 0x2000_0000_0000_0000_0000_0000,
    ;
    share * value
}

/// Where the three corners of a triangle have one depth, every pixel that has
/// a depth has that one: interpolation adds no error to a triangle that faces
/// the eye.
pub proof fn lemma_flat_depth(t: TriangleView, px: int, py: int)
    requires
        t.a.z == t.b.z,
        t.b.z == t.c.z,
        interpolated_depth(t, px, py) is Some || (covers(t, px, py) && interpolable(t)
            && depth_denominator(t, px, py) != 0 && fits(t.a.z)),
    ensures
        interpolated_depth(t, px, py) == narrowed(t.a.z),
        fits(t.a.z) ==> interpolated_depth(t, px, py) is Some,
{
    let z = t.a.z;
    let (alpha, beta, gamma, total) = weights(t, px, py);
    let (ua, ub, uc) = (share(alpha, total), share(beta, total), share(gamma, total));
    let (ra, rb, rc) = (inverse_w(t.a), inverse_w(t.b), inverse_w(t.c));
    let den = depth_denominator(t, px, py);
    let num = depth_numerator(t, px, py);
    assert(ua * (z * ra) == z * (ua * ra)) by (nonlinear_arith);
    assert(ub * (z * rb) == z * (ub * rb)) by (nonlinear_arith);
    assert(uc * (z * rc) == z * (uc * rc)) by (nonlinear_arith);
    assert(z * (ua * ra) + z * (ub * rb) + z * (uc * rc) == z * (ua * ra + ub * rb + uc * rc))
        by (nonlinear_arith);
    assert(num == z * den);
    if den > 0 {
        assert(z * den == den * z) by (nonlinear_arith);
        vstd::arithmetic::div_mod::lemma_div_multiples_vanish(z, den);
    } else {
        assert(-(z * den) == (-den) * z) by (nonlinear_arith);
        vstd::arithmetic::div_mod::lemma_div_multiples_vanish(z, -den);
    }
    assert(floor_quotient(num, den) == z);
}

/// A product of two differences, multiplied out.
proof fn lemma_multiply_out(u: int, v: int, s: int, t: int)
    by (nonlinear_arith)
    ensures
        (u - v) * (s - t) == u * s - u * t - v * s + v * t,
{
}

/// The three weights of any pixel add up to their common denominator.
pub proof fn lemma_weights_sum(t: TriangleView, px: int, py: int)
    ensures
        edge(t.b, t.c, px, py) + edge(t.c, t.a, px, py) + edge(t.a, t.b, px, py) == doubled_area(t),
{
    let (ax, ay) = (t.a.x, t.a.y);
    let (bx, by) = (t.b.x, t.b.y);
    let (cx, cy) = (t.c.x, t.c.y);
    let (x, y) = (px * 65536, py * 65536);
    lemma_multiply_out(cx, bx, y, by);
    lemma_multiply_out(cy, by, x, bx);
    lemma_multiply_out(ax, cx, y, cy);
    lemma_multiply_out(ay, cy, x, cx);
    lemma_multiply_out(bx, ax, y, ay);
    lemma_multiply_out(by, ay, x, ax);
    lemma_multiply_out(bx, ax, cy, ay);
    lemma_multiply_out(by, ay, cx, ax);
}

/// `(p - q) r = p r - q r`.
proof fn lemma_distribute(p: int, q: int, r: int)
    by (nonlinear_arith)
    ensures
        (p - q) * r == p * r - q * r,
        (p + q) * r == p * r + q * r,
        r * (p - q) == r * p - r * q,
        r * (p + q) == r * p + r * q,
{
}

/// `(p q) r` in the orders that the proofs below meet.
proof fn lemma_reorder(p: int, q: int, r: int)
    by (nonlinear_arith)
    ensures
        (p * q) * r == p * (q * r),
        (p * q) * r == (p * r) * q,
        (p * q) * r == (q * r) * p,
{
}

/// With the first corner at the origin, `u` and `v` the other two and `q` the
/// point: `-(v x q) u + (u x q) v = (u x v) q`, for one coordinate.
proof fn lemma_locate_from_origin(ux: int, uy: int, vx: int, vy: int, qx: int, qy: int)
    ensures
        (vy * qx - vx * qy) * ux + (ux * qy - uy * qx) * vx == (ux * vy - uy * vx) * qx,
        (vy * qx - vx * qy) * uy + (ux * qy - uy * qx) * vy == (ux * vy - uy * vx) * qy,
{
    lemma_distribute(vy * qx, vx * qy, ux);
    lemma_distribute(ux * qy, uy * qx, vx);
    lemma_distribute(ux * vy, uy * vx, qx);
    lemma_reorder(vy, qx, ux);
    lemma_reorder(vx, qy, ux);
    lemma_reorder(ux, qy, vx);
    lemma_reorder(uy, qx, vx);
    lemma_reorder(ux, vy, qx);
    lemma_reorder(uy, vx, qx);
    assert((vy * qx) * ux == (ux * vy) * qx) by (nonlinear_arith);
    assert((vx * qy) * ux == (ux * qy) * vx) by (nonlinear_arith);
    assert((uy * qx) * vx == (uy * vx) * qx) by (nonlinear_arith);

    lemma_distribute(vy * qx, vx * qy, uy);
    lemma_distribute(ux * qy, uy * qx, vy);
    lemma_distribute(ux * vy, uy * vx, qy);
    assert((vy * qx) * uy == (uy * qx) * vy) by (nonlinear_arith);
    assert((vx * qy) * uy == (uy * vx) * qy) by (nonlinear_arith);
    assert((ux * qy) * vy == (ux * vy) * qy) by (nonlinear_arith);
}

/// The weights of a pixel express it as a combination of the corners:
/// `alpha a + beta b + gamma c = total p`, coordinate by coordinate.
pub proof fn lemma_weights_locate(t: TriangleView, px: int, py: int)
    ensures
        edge(t.b, t.c, px, py) * t.a.x + edge(t.c, t.a, px, py) * t.b.x + edge(
            t.a,
            t.b,
            px,
            py,
        ) * t.c.x == doubled_area(t) * (px * 65536),
        edge(t.b, t.c, px, py) * t.a.y + edge(t.c, t.a, px, py) * t.b.y + edge(
            t.a,
            t.b,
            px,
            py,
        ) * t.c.y == doubled_area(t) * (py * 65536),
{
    let (ax, ay) = (t.a.x, t.a.y);
    let (bx, by) = (t.b.x, t.b.y);
    let (cx, cy) = (t.c.x, t.c.y);
    let (x, y) = (px * 65536, py * 65536);
    let (ux, uy) = (bx - ax, by - ay);
    let (vx, vy) = (cx - ax, cy - ay);
    let (qx, qy) = (x - ax, y - ay);
    let alpha = edge(t.b, t.c, px, py);
    let beta = edge(t.c, t.a, px, py);
    let gamma = edge(t.a, t.b, px, py);
    let total = doubled_area(t);
    lemma_weights_sum(t, px, py);
    assert(gamma == ux * qy - uy * qx);
    assert(total == ux * vy - uy * vx);
    assert(beta == vy * qx - vx * qy) by {
        lemma_multiply_out(ax, cx, y, cy);
        lemma_multiply_out(ay, cy, x, cx);
        lemma_multiply_out(cy, ay, x, ax);
        lemma_multiply_out(cx, ax, y, ay);
    }
    lemma_locate_from_origin(ux, uy, vx, vy, qx, qy);
    lemma_combine(alpha, beta, gamma, total, ax, ux, vx, qx, bx, cx, x);
    lemma_combine(alpha, beta, gamma, total, ay, uy, vy, qy, by, cy, y);
}

/// Moves a combination of the corners from the first corner back to the
/// origin of the coordinates.
proof fn lemma_combine(
    alpha: int,
    beta: int,
    gamma: int,
    total: int,
    a: int,
    u: int,
    v: int,
    q: int,
    b: int,
    c: int,
    p: int,
)
    requires
        alpha + beta + gamma == total,
        b == a + u,
        c == a + v,
        p == a + q,
        beta * u + gamma * v == total * q,
    ensures
        alpha * a + beta * b + gamma * c == total * p,
{
    assert(beta * b == beta * a + beta * u) by (nonlinear_arith)
        requires
            b == a + u,
    ;
    assert(gamma * c == gamma * a + gamma * v) by (nonlinear_arith)
        requires
            c == a + v,
    ;
    assert(total * p == total * a + total * q) by (nonlinear_arith)
        requires
            p == a + q,
    ;
    assert(total * a == alpha * a + beta * a + gamma * a) by (nonlinear_arith)
        requires
            alpha + beta + gamma == total,
    ;
}

/// For a pixel strictly inside a triangle, the triangle has area, the three
/// weights add up to one, and each lies strictly between zero and one: as
/// fractions over `total`, each numerator has the sign of `total` and is
/// smaller in magnitude.
pub proof fn lemma_weights_inside(t: TriangleView, px: int, py: int)
    requires
        covers(t, px, py),
    ensures
        ({
            let (alpha, beta, gamma, total) = weights(t, px, py);
            &&& total != 0
            &&& alpha + beta + gamma == total
            &&& total > 0 ==> 0 < alpha < total && 0 < beta < total && 0 < gamma < total
            &&& total < 0 ==> total < alpha < 0 && total < beta < 0 && total < gamma < 0
        }),
{
    lemma_weights_sum(t, px, py);
}

/// Twice the area of a triangle within reach fits in 94 bits.
pub proof fn lemma_area_bound(t: TriangleView)
    requires
        within_reach(t),
    ensures
        -0x2000_0000_0000_0000_0000_0000 <= doubled_area(t) <= 0x2000_0000_0000_0000_0000_0000,
{
    let (ux, uy) = (t.b.x - t.a.x, t.b.y - t.a.y);
    let (vx, vy) = (t.c.x - t.a.x, t.c.y - t.a.y);
    assert(-0x2000_0000_0000_0000_0000_0000 <= ux * vy - uy * vx <= 0x2000_0000_0000_0000_0000_0000) by (nonlinear_arith)
        requires
            -0x4000_0000_0000 <= ux <= 0x4000_0000_0000,
            -0x4000_0000_0000 <= uy <= 0x4000_0000_0000,
            -0x4000_0000_0000 <= vx <= 0x4000_0000_0000,
            -0x4000_0000_0000 <= vy <= 0x4000_0000_0000,
    ;
}

/// A pixel strictly inside a triangle lies within its bounding box.
pub proof fn lemma_covered_in_box(t: TriangleView, px: int, py: int)
    requires
        covers(t, px, py),
    ensures
        min3(t.a.x, t.b.x, t.c.x) <= px * 65536 <= max3(
            t.a.x,
            t.b.x,
            t.c.x,
        ),
        min3(t.a.y, t.b.y, t.c.y) <= py * 65536 <= max3(
            t.a.y,
            t.b.y,
            t.c.y,
        ),
{
    lemma_weights_inside(t, px, py);
    lemma_weights_locate(t, px, py);
    let (alpha, beta, gamma, total) = weights(t, px, py);
    lemma_average_between(
        alpha,
        beta,
        gamma,
        total,
        t.a.x,
        t.b.x,
        t.c.x,
        px * 65536,
    );
    lemma_average_between(
        alpha,
        beta,
        gamma,
        total,
        t.a.y,
        t.b.y,
        t.c.y,
        py * 65536,
    );
}

/// A weighted average with weights of one sign lies between the least and the
/// greatest of the values.
proof fn lemma_average_between(
    alpha: int,
    beta: int,
    gamma: int,
    total: int,
    a: int,
    b: int,
    c: int,
    p: int,
)
    requires
        alpha + beta + gamma == total,
        (alpha > 0 && beta > 0 && gamma > 0) || (alpha < 0 && beta < 0 && gamma < 0),
        alpha * a + beta * b + gamma * c == total * p,
    ensures
        min3(a, b, c) <= p <= max3(a, b, c),
{
    let lo = min3(a, b, c);
    let hi = max3(a, b, c);
    if alpha > 0 {
        assert(total * lo <= total * p <= total * hi) by (nonlinear_arith)
            requires
                alpha + beta + gamma == total,
                alpha > 0 && beta > 0 && gamma > 0,
                alpha * a + beta * b + gamma * c == total * p,
                lo <= a <= hi,
                lo <= b <= hi,
                lo <= c <= hi,
        ;
        assert(lo <= p <= hi) by (nonlinear_arith)
            requires
                total > 0,
                total * lo <= total * p <= total * hi,
        ;
    } else {
        assert(total * hi <= total * p <= total * lo) by (nonlinear_arith)
            requires
                alpha + beta + gamma == total,
                alpha < 0 && beta < 0 && gamma < 0,
                alpha * a + beta * b + gamma * c == total * p,
                lo <= a <= hi,
                lo <= b <= hi,
                lo <= c <= hi,
        ;
        assert(lo <= p <= hi) by (nonlinear_arith)
            requires
                total < 0,
                total * hi <= total * p <= total * lo,
        ;
    }
}

} // verus!
