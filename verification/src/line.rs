//! Lines of pixels: the path that stepping along a segment takes, and the
//! frame that drawing it leaves.

use crate::fixed::{magnitude, whole_part, Fixed};
use crate::linalg::Point2;
use crate::screen::{on_screen, pixel_index};
use crate::triangle::{Corner, TriangleView};
use vstd::prelude::*;

verus! {

/// A line to step along: from `(x0, y0)` to `(x1, y1)` by unit steps of the
/// first coordinate. With `flip` the first coordinate is the row and the second
/// the column; without it the first is the column.
pub struct LinePath {
    pub x0: int,
    pub y0: int,
    pub x1: int,
    pub y1: int,
    pub flip: bool,
}

/// How many unit steps of the second coordinate a line with the given run and
/// rise has taken when it has advanced `k` steps of the first: after each
/// advance one more, if the ideal line is by then more than half a step ahead.
pub open spec fn line_steps(run: int, rise: int, k: int) -> int
    decreases k,
{
    if k <= 0 {
        0
    } else {
        let taken = line_steps(run, rise, k - 1);
        if 2 * rise * k - run - 2 * run * taken > 0 {
            taken + 1
        } else {
            taken
        }
    }
}

impl LinePath {
    /// Pixel `k` of the line, as its first and second coordinate.
    pub open spec fn point(self, k: int) -> (int, int) {
        let taken = line_steps(self.x1 - self.x0, magnitude(self.y1 - self.y0), k);
        (
            self.x0 + k,
            if self.y1 < self.y0 {
                self.y0 - taken
            } else {
                self.y0 + taken
            },
        )
    }

    /// Whether pixel `k` of the line is on the screen, at place `i`.
    pub open spec fn hits(self, width: int, height: int, k: int, i: int) -> bool {
        let (first, second) = self.point(k);
        let (x, y) = if self.flip {
            (second, first)
        } else {
            (first, second)
        };
        on_screen(width, height, x, y) && pixel_index(width, height, x, y) == i
    }

    /// Whether one of the first `limit` pixels of the line is at place `i`.
    pub open spec fn reaches(self, width: int, height: int, limit: int, i: int) -> bool {
        exists|k: int| 0 <= k < limit && #[trigger] self.hits(width, height, k, i)
    }

    /// The number of pixels of the line: none if it runs backwards.
    pub open spec fn len(self) -> int {
        if self.x1 >= self.x0 {
            self.x1 - self.x0 + 1
        } else {
            0
        }
    }

    /// The frame with the line drawn into it: the places that the line reaches
    /// have its colour, and the others keep theirs.
    pub open spec fn drawn(self, frame: Seq<[u8; 3]>, width: int, height: int, color: [u8; 3]) -> Seq<
        [u8; 3],
    > {
        Seq::new(
            frame.len(),
            |i: int|
                if self.reaches(width, height, self.len(), i) {
                    color
                } else {
                    frame[i]
                },
        )
    }
}

/// The line between the pixels that hold two points, as it is stepped: the
/// points are cut to whole pixels toward zero.
pub open spec fn path_between(begin: Point2, end: Point2, flip: bool) -> LinePath {
    LinePath {
        x0: whole_part(begin.x.raw as int),
        y0: whole_part(begin.y.raw as int),
        x1: whole_part(end.x.raw as int),
        y1: whole_part(end.y.raw as int),
        flip,
    }
}

/// A point with its coordinates exchanged.
pub open spec fn exchanged(p: Point2) -> Point2 {
    Point2 { x: p.y, y: p.x }
}

/// The way a segment is stepped: along x if it is flatter than it is steep, along
/// y otherwise, and from the end with the smaller coordinate on that axis.
pub open spec fn path_of_segment(begin: Point2, end: Point2) -> LinePath {
    let run = magnitude(end.x.raw - begin.x.raw);
    let rise = magnitude(end.y.raw - begin.y.raw);
    if rise < run {
        if begin.x.raw < end.x.raw {
            path_between(begin, end, false)
        } else {
            path_between(end, begin, false)
        }
    } else {
        if begin.y.raw < end.y.raw {
            path_between(exchanged(begin), exchanged(end), true)
        } else {
            path_between(exchanged(end), exchanged(begin), true)
        }
    }
}

/// A corner of a triangle as a point of the screen, for a corner whose x and
/// y are 32 bits wide.
pub open spec fn on_plane(p: Corner) -> Point2 {
    Point2 { x: Fixed { raw: p.x as i32 }, y: Fixed { raw: p.y as i32 } }
}

/// The frame with the outline of a triangle drawn into it, edge after edge.
pub open spec fn outlined(frame: Seq<[u8; 3]>, width: int, height: int, t: TriangleView) -> Seq<
    [u8; 3],
> {
    let first = path_of_segment(on_plane(t.a), on_plane(t.b)).drawn(frame, width, height, t.color);
    let second = path_of_segment(on_plane(t.b), on_plane(t.c)).drawn(
        first,
        width,
        height,
        t.color,
    );
    path_of_segment(on_plane(t.c), on_plane(t.a)).drawn(second, width, height, t.color)
}

/// A line never takes more steps of the second coordinate than of the first.
pub proof fn lemma_line_steps_bound(run: int, rise: int, k: int)
    requires
        0 <= k,
    ensures
        0 <= line_steps(run, rise, k) <= k,
    decreases k,
{
    if k > 0 {
        lemma_line_steps_bound(run, rise, k - 1);
    }
}

/// For a line that is no steeper than the diagonal, the second coordinate
/// follows the ideal line rounded to the nearest pixel, a tie going to the side
/// of the start: after `k` advances it has taken
/// `floor((2 rise k + run - 1) / (2 run))` steps.
pub proof fn lemma_line_steps_nearest(run: int, rise: int, k: int)
    requires
        0 <= rise <= run,
        run > 0,
        0 <= k,
    ensures
        line_steps(run, rise, k) == (2 * rise * k + run - 1) / (2 * run),
    decreases k,
{
    if k == 0 {
        vstd::arithmetic::div_mod::lemma_fundamental_div_mod_converse(run - 1, 2 * run, 0, run - 1);
        assert(2 * rise * 0 == 0) by (nonlinear_arith);
    } else {
        let j = k - 1;
        lemma_line_steps_nearest(run, rise, j);
        let before = 2 * rise * j + run - 1;
        let now = 2 * rise * k + run - 1;
        let taken = before / (2 * run);
        let left = before % (2 * run);
        vstd::arithmetic::div_mod::lemma_fundamental_div_mod(before, 2 * run);
        vstd::arithmetic::div_mod::lemma_mod_bound(before, 2 * run);
        assert(now == before + 2 * rise) by (nonlinear_arith)
            requires
                before == 2 * rise * j + run - 1,
                now == 2 * rise * k + run - 1,
                k == j + 1,
        ;
        assert(2 * run * taken == (2 * run) * taken) by (nonlinear_arith);
        if left + 2 * rise >= 2 * run {
            assert(now == (2 * run) * (taken + 1) + (left + 2 * rise - 2 * run))
                by (nonlinear_arith)
                requires
                    now == before + 2 * rise,
                    before == (2 * run) * taken + left,
            ;
            vstd::arithmetic::div_mod::lemma_fundamental_div_mod_converse(
                now,
                2 * run,
                taken + 1,
                left + 2 * rise - 2 * run,
            );
        } else {
            vstd::arithmetic::div_mod::lemma_fundamental_div_mod_converse(
                now,
                2 * run,
                taken,
                left + 2 * rise,
            );
        }
    }
}

} // verus!
