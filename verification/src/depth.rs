//! Depths and the depth test: what filling a triangle does to the buffers,
//! and what a whole draw leaves in them.
//!
//! A depth is nearer when it is smaller. Depths on the screen grow with the
//! distance from the eye (see [`crate::screen::lemma_projection_orders_depth`]),
//! so the triangle that wins a pixel is the one nearest the eye there.

use crate::fixed::Fixed;
use crate::linalg::MatrixModel;
use crate::mvp::orders_depth;
use crate::screen::{
    column_of, lemma_depth_of_distance, lemma_nearer_is_smaller, row_of, screen_triangle,
};
use crate::triangle::{interpolated_depth, lemma_flat_depth, Triangle, TriangleView};
use vstd::prelude::*;

verus! {

/// What the depth buffer holds for a pixel.
#[derive(Clone, Copy, Debug, PartialEq, Eq, Structural)]
pub enum Depth {
    /// The depth of the nearest triangle drawn so far.
    Finite(Fixed),
    /// No triangle has claimed the pixel: farther than every depth.
    Infinite,
}

/// Whether the depth `z` is strictly nearer than what the buffer holds.
pub open spec fn nearer(z: Fixed, held: Depth) -> bool {
    match held {
        Depth::Infinite => true,
        Depth::Finite(e) => z.raw < e.raw,
    }
}

/// The depth with which a triangle claims the pixel at place `i`: the
/// triangle's depth there, if it has one and is strictly nearer than the depth
/// that the buffer holds. On a tie the buffer keeps what it has.
pub open spec fn claim(t: TriangleView, width: int, height: int, depth: Seq<Depth>, i: int) -> Option<
    Fixed,
> {
    match interpolated_depth(t, column_of(width, i), row_of(width, height, i)) {
        Some(z) => if nearer(z, depth[i]) {
            Some(z)
        } else {
            None
        },
        None => None,
    }
}

/// The depth buffer after a triangle in screen space has been filled.
pub open spec fn shaded_depth(depth: Seq<Depth>, width: int, height: int, t: TriangleView) -> Seq<
    Depth,
> {
    Seq::new(
        depth.len(),
        |i: int|
            match claim(t, width, height, depth, i) {
                Some(z) => Depth::Finite(z),
                None => depth[i],
            },
    )
}

/// The frame buffer after a triangle in screen space has been filled, given the
/// depths from before.
pub open spec fn shaded_frame(
    frame: Seq<[u8; 3]>,
    depth: Seq<Depth>,
    width: int,
    height: int,
    t: TriangleView,
) -> Seq<[u8; 3]> {
    Seq::new(
        frame.len(),
        |i: int|
            if claim(t, width, height, depth, i) is Some {
                t.color
            } else {
                frame[i]
            },
    )
}

/// The frame and depth buffers after the first `n` of the triangles have been
/// drawn filled, one after the other. A triangle without a screen triangle
/// leaves the buffers as they are.
pub open spec fn filled(
    frame: Seq<[u8; 3]>,
    depth: Seq<Depth>,
    mvp: MatrixModel,
    triangles: Seq<Triangle>,
    width: int,
    height: int,
    n: int,
) -> (Seq<[u8; 3]>, Seq<Depth>)
    decreases n,
{
    if n <= 0 {
        (frame, depth)
    } else {
        let (f, d) = filled(frame, depth, mvp, triangles, width, height, n - 1);
        match screen_triangle(mvp, triangles[n - 1]@, width, height, false) {
            Some(t) => (shaded_frame(f, d, width, height, t), shaded_depth(d, width, height, t)),
            None => (f, d),
        }
    }
}

/// The depth that a triangle has at place `i` once `mvp` has taken it to a
/// screen of the given size, if it has one.
pub open spec fn depth_on_screen(
    mvp: MatrixModel,
    t: TriangleView,
    width: int,
    height: int,
    i: int,
) -> Option<Fixed> {
    match screen_triangle(mvp, t, width, height, false) {
        Some(s) => interpolated_depth(s, column_of(width, i), row_of(width, height, i)),
        None => None,
    }
}

/// Filling triangles never changes the size of the buffers, whatever the
/// triangles are and wherever their corners lie.
pub proof fn lemma_filled_keeps_size(
    frame: Seq<[u8; 3]>,
    depth: Seq<Depth>,
    mvp: MatrixModel,
    triangles: Seq<Triangle>,
    width: int,
    height: int,
    n: int,
)
    ensures
        filled(frame, depth, mvp, triangles, width, height, n).0.len() == frame.len(),
        filled(frame, depth, mvp, triangles, width, height, n).1.len() == depth.len(),
    decreases n,
{
    if n > 0 {
        lemma_filled_keeps_size(frame, depth, mvp, triangles, width, height, n - 1);
    }
}

/// Whether triangle `k` is the one that place `i` shows after a draw that
/// started from `initial` and ended with `color` and `held`: the triangle has
/// that colour, and its depth there is the one held, strictly nearer than the
/// initial depth and than the depth of every triangle before it.
pub open spec fn shows(
    mvp: MatrixModel,
    triangles: Seq<Triangle>,
    width: int,
    height: int,
    i: int,
    initial: Depth,
    color: [u8; 3],
    held: Depth,
    k: int,
) -> bool {
    &&& depth_on_screen(mvp, triangles[k]@, width, height, i) matches Some(z)
    &&& held == Depth::Finite(z)
    &&& color == triangles[k]@.color
    &&& nearer(z, initial)
    &&& forall|j: int|
        0 <= j < k ==> (#[trigger] depth_on_screen(mvp, triangles[j]@, width, height, i)
            matches Some(other) ==> z.raw < other.raw)
}

/// What a draw leaves at a pixel: nothing that was drawn there is nearer than
/// the depth the pixel ends with; and the pixel either is as it was, or shows
/// the triangle that is the first to be that near.
pub proof fn lemma_filled_keeps_nearest(
    frame: Seq<[u8; 3]>,
    depth: Seq<Depth>,
    mvp: MatrixModel,
    triangles: Seq<Triangle>,
    width: int,
    height: int,
    n: int,
    i: int,
)
    requires
        frame.len() == depth.len(),
        0 <= i < depth.len(),
        0 <= n <= triangles.len(),
    ensures
        ({
            let (f, d) = filled(frame, depth, mvp, triangles, width, height, n);
            &&& forall|k: int|
                0 <= k < n ==> (#[trigger] depth_on_screen(mvp, triangles[k]@, width, height, i)
                    matches Some(z) ==> !nearer(z, d[i]))
            &&& (f[i] == frame[i] && d[i] == depth[i]) || exists|k: int|
                0 <= k < n && #[trigger] shows(
                    mvp,
                    triangles,
                    width,
                    height,
                    i,
                    depth[i],
                    f[i],
                    d[i],
                    k,
                )
        }),
    decreases n,
{
    if n > 0 {
        lemma_filled_keeps_nearest(frame, depth, mvp, triangles, width, height, n - 1, i);
        lemma_filled_keeps_size(frame, depth, mvp, triangles, width, height, n - 1);
        let (f0, d0) = filled(frame, depth, mvp, triangles, width, height, n - 1);
        let (f, d) = filled(frame, depth, mvp, triangles, width, height, n);
        let last = depth_on_screen(mvp, triangles[n - 1]@, width, height, i);
        if last is Some && nearer(last->0, d0[i]) {
            let z = last->0;
            assert(d[i] == Depth::Finite(z));
            assert(f[i] == triangles[n - 1]@.color);
            assert forall|j: int| 0 <= j < n - 1 implies (#[trigger] depth_on_screen(
                mvp,
                triangles[j]@,
                width,
                height,
                i,
            ) matches Some(other) ==> z.raw < other.raw) by {}
            if !(f0[i] == frame[i] && d0[i] == depth[i]) {
                let k = choose|k: int|
                    0 <= k < n - 1 && #[trigger] shows(
                        mvp,
                        triangles,
                        width,
                        height,
                        i,
                        depth[i],
                        f0[i],
                        d0[i],
                        k,
                    );
                assert(nearer(z, depth[i]));
            }
            assert(shows(mvp, triangles, width, height, i, depth[i], f[i], d[i], n - 1));
        } else {
            assert(d[i] == d0[i] && f[i] == f0[i]);
            if !(f0[i] == frame[i] && d0[i] == depth[i]) {
                let k = choose|k: int|
                    0 <= k < n - 1 && #[trigger] shows(
                        mvp,
                        triangles,
                        width,
                        height,
                        i,
                        depth[i],
                        f0[i],
                        d0[i],
                        k,
                    );
                assert(shows(mvp, triangles, width, height, i, depth[i], f[i], d[i], k));
            }
        }
    }
}

/// Of two triangles that face the eye, each with its corners at one distance
/// in front of it, the one nearer the eye has the smaller depth at a pixel
/// that both cover, or the same: under a matrix of the shape of a projection,
/// the depth test prefers what is nearer the eye.
pub proof fn lemma_nearer_to_the_eye_is_nearer(
    mvp: MatrixModel,
    near: TriangleView,
    far: TriangleView,
    width: int,
    height: int,
    i: int,
)
    requires
        orders_depth(mvp),
        near.a.z == near.b.z && near.b.z == near.c.z,
        far.a.z == far.b.z && far.b.z == far.c.z,
        far.a.z < near.a.z < 0,
        depth_on_screen(mvp, near, width, height, i) is Some,
        depth_on_screen(mvp, far, width, height, i) is Some,
    ensures
        depth_on_screen(mvp, near, width, height, i)->0.raw <= depth_on_screen(
            mvp,
            far,
            width,
            height,
            i,
        )->0.raw,
{
    let (px, py) = (column_of(width, i), row_of(width, height, i));
    let sn = screen_triangle(mvp, near, width, height, false)->0;
    let sf = screen_triangle(mvp, far, width, height, false)->0;
    lemma_depth_of_distance(mvp, near.a, width, height, false);
    lemma_depth_of_distance(mvp, near.b, width, height, false);
    lemma_depth_of_distance(mvp, near.c, width, height, false);
    lemma_depth_of_distance(mvp, far.a, width, height, false);
    lemma_depth_of_distance(mvp, far.b, width, height, false);
    lemma_depth_of_distance(mvp, far.c, width, height, false);
    lemma_flat_depth(sn, px, py);
    lemma_flat_depth(sf, px, py);
    lemma_nearer_is_smaller(mvp, near.a, far.a, width, height, false);
}

/// Where two triangles cover a pixel at different depths, the pixel ends the
/// same whichever of them is drawn first: with the nearer one's colour and
/// depth if that is nearer than what the buffers held, and unchanged if not.
pub proof fn lemma_nearer_triangle_shows(
    frame: Seq<[u8; 3]>,
    depth: Seq<Depth>,
    mvp: MatrixModel,
    width: int,
    height: int,
    near: Triangle,
    far: Triangle,
    i: int,
)
    requires
        frame.len() == depth.len(),
        0 <= i < depth.len(),
        depth_on_screen(mvp, near@, width, height, i) is Some,
        depth_on_screen(mvp, far@, width, height, i) is Some,
        depth_on_screen(mvp, near@, width, height, i)->0.raw < depth_on_screen(
            mvp,
            far@,
            width,
            height,
            i,
        )->0.raw,
    ensures
        ({
            let z = depth_on_screen(mvp, near@, width, height, i)->0;
            let near_first = filled(frame, depth, mvp, seq![near, far], width, height, 2);
            let far_first = filled(frame, depth, mvp, seq![far, near], width, height, 2);
            &&& near_first.0[i] == far_first.0[i]
            &&& near_first.1[i] == far_first.1[i]
            &&& nearer(z, depth[i]) ==> near_first.0[i] == near@.color && near_first.1[i]
                == Depth::Finite(z)
            &&& !nearer(z, depth[i]) ==> near_first.0[i] == frame[i] && near_first.1[i] == depth[i]
        }),
{
    reveal_with_fuel(filled, 3);
    let near_first = seq![near, far];
    let far_first = seq![far, near];
    assert(near_first[0] == near && near_first[1] == far);
    assert(far_first[0] == far && far_first[1] == near);
}

/// Where two triangles cover a pixel at the same depth, the second changes
/// nothing there: the pixel is as the first alone leaves it, with the first
/// one's colour if that depth is nearer than what the buffers held.
pub proof fn lemma_tie_keeps_first(
    frame: Seq<[u8; 3]>,
    depth: Seq<Depth>,
    mvp: MatrixModel,
    width: int,
    height: int,
    first: Triangle,
    second: Triangle,
    i: int,
)
    requires
        frame.len() == depth.len(),
        0 <= i < depth.len(),
        depth_on_screen(mvp, first@, width, height, i) is Some,
        depth_on_screen(mvp, first@, width, height, i) == depth_on_screen(
            mvp,
            second@,
            width,
            height,
            i,
        ),
    ensures
        ({
            let z = depth_on_screen(mvp, first@, width, height, i)->0;
            let both = filled(frame, depth, mvp, seq![first, second], width, height, 2);
            let alone = filled(frame, depth, mvp, seq![first], width, height, 1);
            &&& both.0[i] == alone.0[i]
            &&& both.1[i] == alone.1[i]
            &&& nearer(z, depth[i]) ==> both.0[i] == first@.color && both.1[i] == Depth::Finite(z)
        }),
{
    reveal_with_fuel(filled, 3);
    let both = seq![first, second];
    let alone = seq![first];
    assert(both[0] == first && both[1] == second);
    assert(alone[0] == first);
}

/// A triangle never takes a pixel whose depth it only equals: filling leaves
/// the pixel's colour and depth as they were.
pub proof fn lemma_equal_depth_stays(
    frame: Seq<[u8; 3]>,
    depth: Seq<Depth>,
    width: int,
    height: int,
    t: TriangleView,
    i: int,
)
    requires
        frame.len() == depth.len(),
        0 <= i < depth.len(),
        interpolated_depth(t, column_of(width, i), row_of(width, height, i)) matches Some(z)
            && depth[i] == Depth::Finite(z),
    ensures
        shaded_frame(frame, depth, width, height, t)[i] == frame[i],
        shaded_depth(depth, width, height, t)[i] == depth[i],
{
}

} // verus!
