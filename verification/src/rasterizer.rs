//! The renderer: a frame buffer and a depth buffer of one size, the three
//! transforms, and the two ways of drawing triangles into the buffers.

use crate::depth::{claim, filled, shaded_depth, shaded_frame, Depth};
use crate::fixed::magnitude;
use crate::line::{lemma_line_steps_bound, line_steps, outlined, path_between, path_of_segment};
use crate::linalg::{zero_model, Matrix4, MatrixModel, Pixel, Point2};
use crate::screen::{
    column_of, composed, lemma_pixel_index, lemma_place_pixel, on_screen, pixel_index, row_of,
    screen_triangle, screen_vertex,
};
use crate::triangle::{
    corners_fit, covers, lemma_covered_in_box, max3, min3, ScreenTriangle, Triangle, TriangleView,
};
use vstd::prelude::*;

verus! {

/// A software renderer for a `width` by `height` image.
pub struct Rasterizer {
    width: usize,
    height: usize,
    model_m: Matrix4,
    view_m: Matrix4,
    projection_m: Matrix4,
    frame_buf: Vec<[u8; 3]>,
    depth_buf: Vec<Depth>,
}

/// The state of a renderer.
pub struct RasterizerView {
    pub width: int,
    pub height: int,
    pub model: MatrixModel,
    pub view: MatrixModel,
    pub projection: MatrixModel,
    pub frame: Seq<[u8; 3]>,
    pub depth: Seq<Depth>,
}

impl View for Rasterizer {
    type V = RasterizerView;

    closed spec fn view(&self) -> RasterizerView {
        RasterizerView {
            width: self.width as int,
            height: self.height as int,
            model: self.model_m@,
            view: self.view_m@,
            projection: self.projection_m@,
            frame: self.frame_buf@,
            depth: self.depth_buf@,
        }
    }
}

impl RasterizerView {
    /// Both buffers hold one entry for each pixel, and the sides fit the signed
    /// 32-bit coordinates of a pixel.
    pub open spec fn well_formed(self) -> bool {
        &&& 0 <= self.width <= i32::MAX
        &&& 0 <= self.height <= i32::MAX
        &&& self.frame.len() == self.width * self.height
        &&& self.depth.len() == self.width * self.height
    }
}

/// The black colour.
pub open spec fn is_black(color: [u8; 3]) -> bool {
    color[0] == 0 && color[1] == 0 && color[2] == 0
}

/// Whether pixel `(cx, cy)` comes before `(x, y)` in a scan of the columns from
/// `x_lo` on, each from row `y_lo` up to row `y_hi`.
spec fn scanned(x_lo: int, y_lo: int, y_hi: int, x: int, y: int, cx: int, cy: int) -> bool {
    x_lo <= cx && y_lo <= cy <= y_hi && (cx < x || (cx == x && cy < y))
}

/// The frame buffer after the outlines of the first `n` of the triangles have
/// been drawn, one after the other. A triangle without a screen triangle, or
/// with a corner beyond the 32 bits of a line's ends, leaves the frame as it
/// is.
pub open spec fn outlines(
    frame: Seq<[u8; 3]>,
    mvp: MatrixModel,
    triangles: Seq<Triangle>,
    width: int,
    height: int,
    n: int,
) -> Seq<[u8; 3]>
    decreases n,
{
    if n <= 0 {
        frame
    } else {
        let f = outlines(frame, mvp, triangles, width, height, n - 1);
        match screen_triangle(mvp, triangles[n - 1]@, width, height, true) {
            Some(t) => if corners_fit(t) {
                outlined(f, width, height, t)
            } else {
                f
            },
            None => f,
        }
    }
}

/// One pixel as a word `0x00RRGGBB`.
pub open spec fn packed(color: [u8; 3]) -> int {
    color[0] * 65536 + color[1] * 256 + color[2]
}

/// A triangle claims only pixels of the screen that lie in its bounding box.
proof fn lemma_claim_is_in_box(t: TriangleView, width: int, height: int, depth: Seq<Depth>, i: int)
    requires
        0 <= width,
        0 <= height,
        0 <= i < width * height,
    ensures
        claim(t, width, height, depth, i) is Some ==> {
            let (cx, cy) = (column_of(width, i), row_of(width, height, i));
            &&& on_screen(width, height, cx, cy)
            &&& min3(t.a.x, t.b.x, t.c.x) <= cx * 65536 <= max3(t.a.x, t.b.x, t.c.x)
            &&& min3(t.a.y, t.b.y, t.c.y) <= cy * 65536 <= max3(t.a.y, t.b.y, t.c.y)
        },
{
    lemma_place_pixel(width, height, i);
    let (cx, cy) = (column_of(width, i), row_of(width, height, i));
    if covers(t, cx, cy) {
        lemma_covered_in_box(t, cx, cy);
    }
}

/// The matrices are kept apart until a draw composes them, so the order in
/// which they are set does not matter: any order leaves the same state, and
/// with it the same composed matrix.
pub proof fn lemma_setters_commute(
    state: RasterizerView,
    model: MatrixModel,
    view: MatrixModel,
    projection: MatrixModel,
)
    ensures
        ({
            let mvp = RasterizerView {
                projection,
                ..(RasterizerView { view, ..(RasterizerView { model, ..state }) })
            };
            let pvm = RasterizerView {
                model,
                ..(RasterizerView { view, ..(RasterizerView { projection, ..state }) })
            };
            let vpm = RasterizerView {
                model,
                ..(RasterizerView { projection, ..(RasterizerView { view, ..state }) })
            };
            &&& mvp == pvm
            &&& mvp == vpm
            &&& composed(mvp.projection, mvp.view, mvp.model) == composed(projection, view, model)
        }),
{
}

impl Rasterizer {
    /// Whether the renderer's buffers match its size.
    pub open spec fn wf(&self) -> bool {
        self@.well_formed()
    }

    /// A renderer with black pixels, no depths and zero matrices.
    pub fn new(width: usize, height: usize) -> (r: Rasterizer)
        requires
            width <= i32::MAX,
            height <= i32::MAX,
            width * height <= usize::MAX,
        ensures
            r.wf(),
            r@.width == width,
            r@.height == height,
            r@.model == zero_model(),
            r@.view == zero_model(),
            r@.projection == zero_model(),
            forall|i: int| 0 <= i < width * height ==> is_black(#[trigger] r@.frame[i]),
            forall|i: int| 0 <= i < width * height ==> #[trigger] r@.depth[i] == Depth::Infinite,
    {
        let length = width * height;
        let frame_buf = vec![[0u8, 0u8, 0u8]; length];
        let depth_buf = vec![Depth::Infinite; length];
        Rasterizer {
            width,
            height,
            model_m: Matrix4::zero(),
            view_m: Matrix4::zero(),
            projection_m: Matrix4::zero(),
            frame_buf,
            depth_buf,
        }
    }

    /// The number of columns.
    pub fn width(&self) -> (w: usize)
        ensures
            w == self@.width,
    {
        self.width
    }

    /// The number of rows.
    pub fn height(&self) -> (h: usize)
        ensures
            h == self@.height,
    {
        self.height
    }

    /// The colours of the pixels, by rows from the top.
    pub fn frame_buf(&self) -> (frame: &Vec<[u8; 3]>)
        ensures
            frame@ == self@.frame,
    {
        &self.frame_buf
    }

    /// The depths of the pixels, by rows from the top.
    pub fn depth_buf(&self) -> (depth: &Vec<Depth>)
        ensures
            depth@ == self@.depth,
    {
        &self.depth_buf
    }

    /// The frame as one word `0x00RRGGBB` for each pixel, by rows from the top.
    pub fn packed_frame(&self) -> (words: Vec<u32>)
        ensures
            words@.len() == self@.frame.len(),
            forall|i: int| 0 <= i < words@.len() ==> #[trigger] words@[i] == packed(self@.frame[i]),
    {
        let mut words: Vec<u32> = Vec::new();
        let mut i: usize = 0;
        while i < self.frame_buf.len()
            invariant
                i <= self.frame_buf@.len(),
                words@.len() == i,
                forall|j: int| 0 <= j < i ==> #[trigger] words@[j] == packed(self.frame_buf@[j]),
            decreases self.frame_buf@.len() - i,
        {
            let color = self.frame_buf[i];
            let r = color[0] as u32;
            let g = color[1] as u32;
            let b = color[2] as u32;
            assert(((r << 16) | (g << 8) | b) == r * 65536 + g * 256 + b) by (bit_vector)
                requires
                    r < 256,
                    g < 256,
                    b < 256,
            ;
            words.push((r << 16) | (g << 8) | b);
            i = i + 1;
        }
        words
    }

    /// The frame as bytes: red, green and blue of each pixel in turn, by rows
    /// from the top.
    pub fn rgb_bytes(&self) -> (bytes: Vec<u8>)
        ensures
            bytes@.len() == 3 * self@.frame.len(),
            forall|i: int, k: int|
                0 <= i < self@.frame.len() && 0 <= k < 3 ==> bytes@[3 * i + k]
                    == #[trigger] self@.frame[i][k],
    {
        let mut bytes: Vec<u8> = Vec::new();
        let mut i: usize = 0;
        while i < self.frame_buf.len()
            invariant
                i <= self.frame_buf@.len(),
                bytes@.len() == 3 * i,
                forall|j: int, k: int|
                    0 <= j < i && 0 <= k < 3 ==> bytes@[3 * j + k]
                        == #[trigger] self.frame_buf@[j][k],
            decreases self.frame_buf@.len() - i,
        {
            let color = self.frame_buf[i];
            bytes.push(color[0]);
            bytes.push(color[1]);
            bytes.push(color[2]);
            i = i + 1;
        }
        bytes
    }

    /// Makes every pixel black and every depth infinite. The size and the
    /// matrices stay.
    pub fn clear(&mut self)
        requires
            old(self).wf(),
        ensures
            final(self).wf(),
            final(self)@.width == old(self)@.width,
            final(self)@.height == old(self)@.height,
            final(self)@.model == old(self)@.model,
            final(self)@.view == old(self)@.view,
            final(self)@.projection == old(self)@.projection,
            forall|i: int|
                0 <= i < old(self)@.width * old(self)@.height ==> is_black(
                    #[trigger] final(self)@.frame[i],
                ),
            forall|i: int|
                0 <= i < old(self)@.width * old(self)@.height ==> #[trigger] final(self)@.depth[i]
                    == Depth::Infinite,
    {
        let length = self.frame_buf.len();
        self.frame_buf = vec![[0u8, 0u8, 0u8]; length];
        self.depth_buf = vec![Depth::Infinite; length];
    }

    /// Sets the model matrix. Nothing is composed until a draw.
    pub fn set_model_matrix(&mut self, model_matrix: Matrix4)
        ensures
            final(self)@ == (RasterizerView { model: model_matrix@, ..old(self)@ }),
    {
        self.model_m = model_matrix;
    }

    /// Sets the view matrix. Nothing is composed until a draw.
    pub fn set_view_matrix(&mut self, view_matrix: Matrix4)
        ensures
            final(self)@ == (RasterizerView { view: view_matrix@, ..old(self)@ }),
    {
        self.view_m = view_matrix;
    }

    /// Sets the projection matrix. Nothing is composed until a draw.
    pub fn set_projection_matrix(&mut self, projection_matrix: Matrix4)
        ensures
            final(self)@ == (RasterizerView { projection: projection_matrix@, ..old(self)@ }),
    {
        self.projection_m = projection_matrix;
    }

    /// The place of pixel `(x, y)` in the buffers.
    pub fn get_index(&self, x: i32, y: i32) -> (index: usize)
        requires
            self.wf(),
            on_screen(self@.width, self@.height, x as int, y as int),
        ensures
            index == pixel_index(self@.width, self@.height, x as int, y as int),
            index < self@.width * self@.height,
    {
        let rows_above: usize = self.height - 1 - (y as usize);
        proof {
            lemma_pixel_index(self@.width, self@.height, x as int, y as int);
            assert(0 <= rows_above * self.width <= (self.height - 1) * self.width)
                by (nonlinear_arith)
                requires
                    0 <= rows_above < self.height,
                    0 <= self.width,
            ;
            assert((self.height - 1) * self.width + self.width == self.width * self.height)
                by (nonlinear_arith);
            assert(self.width * self.height == self.frame_buf.len());
        }
        rows_above * self.width + (x as usize)
    }

    /// Colours pixel `(x, y)`, if there is such a pixel; otherwise does nothing.
    pub fn set_pixel(&mut self, x: i32, y: i32, color: [u8; 3])
        requires
            old(self).wf(),
        ensures
            final(self).wf(),
            final(self)@ == (RasterizerView {
                frame: if on_screen(old(self)@.width, old(self)@.height, x as int, y as int) {
                    old(self)@.frame.update(
                        pixel_index(old(self)@.width, old(self)@.height, x as int, y as int),
                        color,
                    )
                } else {
                    old(self)@.frame
                },
                ..old(self)@
            }),
    {
        if x < 0 || y < 0 || x as usize >= self.width || y as usize >= self.height {
            return ;
        }
        let index = self.get_index(x, y);
        self.frame_buf[index] = color;
    }

    /// Steps along the line between the pixels that hold `begin` and `end`, one
    /// pixel for each unit of the first coordinate, and colours those that are on
    /// the screen. With `is_flip` the first coordinate of the points is the row.
    /// Nothing is drawn if `end` lies before `begin`.
    pub fn draw_line_helper(&mut self, begin: Point2, end: Point2, color: [u8; 3], is_flip: bool)
        requires
            old(self).wf(),
        ensures
            final(self).wf(),
            final(self)@ == (RasterizerView {
                frame: path_between(begin, end, is_flip).drawn(
                    old(self)@.frame,
                    old(self)@.width,
                    old(self)@.height,
                    color,
                ),
                ..old(self)@
            }),
    {
        let x0: i32 = begin.x.to_whole();
        let y0: i32 = begin.y.to_whole();
        let x1: i32 = end.x.to_whole();
        let y1: i32 = end.y.to_whole();
        let dx: i64 = x1 as i64 - x0 as i64;
        let mut dy: i64 = y1 as i64 - y0 as i64;
        let mut yi: i32 = 1;
        if dy < 0 {
            yi = -1;
            dy = -dy;
        }
        let mut d: i64 = 2 * dy - dx;
        let mut y: i32 = y0;
        let mut x: i32 = x0;
        let ghost path = path_between(begin, end, is_flip);
        let ghost before = self@;
        let ghost mut k: int = 0;
        assert(self@.frame =~= Seq::new(
            before.frame.len(),
            |i: int|
                if path.reaches(before.width, before.height, 0, i) {
                    color
                } else {
                    before.frame[i]
                },
        ));
        proof {
            assert(2 * dy * (0 + 1) - dx - 2 * dx * 0 == 2 * dy - dx) by (nonlinear_arith);
            assert(yi * 0 == 0) by (nonlinear_arith);
        }
        while x <= x1
            invariant
                self.wf(),
                before.well_formed(),
                path == path_between(begin, end, is_flip),
                x0 == path.x0 && y0 == path.y0 && x1 == path.x1 && y1 == path.y1,
                -32768 <= x0 <= 32767 && -32768 <= y0 <= 32767,
                -32768 <= x1 <= 32767 && -32768 <= y1 <= 32767,
                dx == x1 - x0,
                dy == magnitude(y1 - y0),
                yi == (if y1 < y0 {
                    -1int
                } else {
                    1int
                }),
                0 <= k,
                x == x0 + k,
                x <= x1 + 1 || k == 0,
                x <= x1 ==> (x as int, y as int) == path.point(k),
                x <= x1 ==> d == 2 * dy * (k + 1) - dx - 2 * dx * line_steps(dx as int, dy as int, k),
                x <= x1 ==> y == y0 + yi * line_steps(dx as int, dy as int, k),
                self@ == (RasterizerView {
                    frame: Seq::new(
                        before.frame.len(),
                        |i: int|
                            if path.reaches(before.width, before.height, k, i) {
                                color
                            } else {
                                before.frame[i]
                            },
                    ),
                    ..before
                }),
            decreases x1 + 1 - x,
        {
            let ghost taken = line_steps(dx as int, dy as int, k);
            let ghost earlier = self@.frame;
            proof {
                lemma_line_steps_bound(dx as int, dy as int, k);
                lemma_line_steps_bound(dx as int, dy as int, k + 1);
                assert(0 <= 2 * dy * (k + 1) <= 2 * 65535 * 65536) by (nonlinear_arith)
                    requires
                        0 <= dy <= 65535,
                        0 <= k <= 65535,
                ;
                assert(0 <= 2 * dx * taken <= 2 * 65535 * 65535) by (nonlinear_arith)
                    requires
                        0 <= dx <= 65535,
                        0 <= taken <= 65535,
                ;
                assert(2 * dy * (k + 2) == 2 * dy * (k + 1) + 2 * dy) by (nonlinear_arith);
                assert(2 * dx * (taken + 1) == 2 * dx * taken + 2 * dx) by (nonlinear_arith);
            }
            if is_flip {
                self.set_pixel(y, x, color);
            } else {
                self.set_pixel(x, y, color);
            }
            proof {
                let grown = Seq::new(
                    before.frame.len(),
                    |i: int|
                        if path.reaches(before.width, before.height, k + 1, i) {
                            color
                        } else {
                            before.frame[i]
                        },
                );
                let (px, py) = if is_flip {
                    (y as int, x as int)
                } else {
                    (x as int, y as int)
                };
                let place = pixel_index(before.width, before.height, px, py);
                assert(path.point(k) == (x as int, y as int));
                assert(self@.frame == if on_screen(before.width, before.height, px, py) {
                    earlier.update(place, color)
                } else {
                    earlier
                });
                if on_screen(before.width, before.height, px, py) {
                    lemma_pixel_index(before.width, before.height, px, py);
                }
                assert forall|i: int| 0 <= i < before.frame.len() implies self@.frame[i]
                    == grown[i] by {
                    assert(path.hits(before.width, before.height, k, i) <==> (on_screen(
                        before.width,
                        before.height,
                        px,
                        py,
                    ) && place == i));
                    assert(earlier[i] == if path.reaches(before.width, before.height, k, i) {
                        color
                    } else {
                        before.frame[i]
                    });
                    if path.hits(before.width, before.height, k, i) {
                        assert(path.reaches(before.width, before.height, k + 1, i));
                    } else if path.reaches(before.width, before.height, k, i) {
                        let j = choose|j: int|
                            0 <= j < k && #[trigger] path.hits(before.width, before.height, j, i);
                        assert(path.hits(before.width, before.height, j, i));
                        assert(path.reaches(before.width, before.height, k + 1, i));
                    } else {
                        if path.reaches(before.width, before.height, k + 1, i) {
                            let j = choose|j: int|
                                0 <= j < k + 1 && #[trigger] path.hits(
                                    before.width,
                                    before.height,
                                    j,
                                    i,
                                );
                            if j < k {
                                assert(path.reaches(before.width, before.height, k, i));
                            }
                            assert(false);
                        }
                    }
                }
                assert(self@.frame =~= grown);
            }
            if d > 0 {
                y = y + yi;
                d = d - 2 * dx;
            }
            d = d + 2 * dy;
            x = x + 1;
            proof {
                k = k + 1;
            }
        }
        proof {
            assert(k == path.len());
            assert(self@.frame =~= path.drawn(before.frame, before.width, before.height, color));
        }
    }

    /// Draws the segment from `begin` to `end` by stepping along the axis on
    /// which it is longer, from the end that comes first on that axis.
    pub fn draw_line(&mut self, begin: Point2, end: Point2, color: [u8; 3])
        requires
            old(self).wf(),
        ensures
            final(self).wf(),
            final(self)@ == (RasterizerView {
                frame: path_of_segment(begin, end).drawn(
                    old(self)@.frame,
                    old(self)@.width,
                    old(self)@.height,
                    color,
                ),
                ..old(self)@
            }),
    {
        let x0: i64 = begin.x.raw as i64;
        let y0: i64 = begin.y.raw as i64;
        let x1: i64 = end.x.raw as i64;
        let y1: i64 = end.y.raw as i64;
        let dx: i64 = if x1 >= x0 {
            x1 - x0
        } else {
            x0 - x1
        };
        let dy: i64 = if y1 >= y0 {
            y1 - y0
        } else {
            y0 - y1
        };
        if dy < dx {
            if x0 < x1 {
                self.draw_line_helper(begin, end, color, false);
            } else {
                self.draw_line_helper(end, begin, color, false);
            }
        } else {
            let begin_yx = Point2 { x: begin.y, y: begin.x };
            let end_yx = Point2 { x: end.y, y: end.x };
            if y0 < y1 {
                self.draw_line_helper(begin_yx, end_yx, color, true);
            } else {
                self.draw_line_helper(end_yx, begin_yx, color, true);
            }
        }
    }

    /// Draws the outline of a triangle given in screen space: its three edges,
    /// from the first corner round to the first again, in the triangle's colour.
    pub fn draw_triangle(&mut self, tri: &Triangle)
        requires
            old(self).wf(),
        ensures
            final(self).wf(),
            final(self)@ == (RasterizerView {
                frame: outlined(old(self)@.frame, old(self)@.width, old(self)@.height, tri@),
                ..old(self)@
            }),
    {
        let a = tri.a();
        let b = tri.b();
        let c = tri.c();
        let a = Point2 { x: a.x, y: a.y };
        let b = Point2 { x: b.x, y: b.y };
        let c = Point2 { x: c.x, y: c.y };
        self.draw_line(a, b, tri.get_color());
        self.draw_line(b, c, tri.get_color());
        self.draw_line(c, a, tri.get_color());
    }

    /// Fills a triangle given in screen space, with corners of 32 bits: see
    /// [`Rasterizer::shade`].
    pub fn shading_triangle(&mut self, tri: &Triangle)
        requires
            old(self).wf(),
        ensures
            final(self).wf(),
            final(self)@ == (RasterizerView {
                frame: shaded_frame(
                    old(self)@.frame,
                    old(self)@.depth,
                    old(self)@.width,
                    old(self)@.height,
                    tri@,
                ),
                depth: shaded_depth(
                    old(self)@.depth,
                    old(self)@.width,
                    old(self)@.height,
                    tri@,
                ),
                ..old(self)@
            }),
    {
        self.shade(&tri.on_screen());
    }

    /// Fills a triangle on the screen, whose corners may lie far off it. Every
    /// pixel of the screen that lies strictly inside the triangle and has a
    /// depth there is tested against the depth buffer: where the triangle is
    /// strictly nearer, the pixel takes its depth and colour; elsewhere nothing
    /// changes.
    pub fn shade(&mut self, tri: &ScreenTriangle)
        requires
            old(self).wf(),
            tri.wf(),
        ensures
            final(self).wf(),
            final(self)@ == (RasterizerView {
                frame: shaded_frame(
                    old(self)@.frame,
                    old(self)@.depth,
                    old(self)@.width,
                    old(self)@.height,
                    tri@,
                ),
                depth: shaded_depth(
                    old(self)@.depth,
                    old(self)@.width,
                    old(self)@.height,
                    tri@,
                ),
                ..old(self)@
            }),
    {
        let ghost before = self@;
        let ghost t = tri@;
        let bounds = tri.get_bounding();
        let left = bounds[0];
        let right = bounds[1];
        let top = bounds[2];
        let bottom = bounds[3];
        if self.width == 0 || self.height == 0 || right < 0 || top < 0 {
            proof {
                assert forall|i: int| 0 <= i < before.depth.len() implies claim(
                    t,
                    before.width,
                    before.height,
                    before.depth,
                    i,
                ) is None by {
                    lemma_claim_is_in_box(t, before.width, before.height, before.depth, i);
                }
                assert(self@.frame =~= shaded_frame(
                    before.frame,
                    before.depth,
                    before.width,
                    before.height,
                    t,
                ));
                assert(self@.depth =~= shaded_depth(before.depth, before.width, before.height, t));
            }
            return ;
        }
        let x_lo: u32 = if left <= 0 {
            0
        } else {
            (left / 65536) as u32
        };
        let y_lo: u32 = if bottom <= 0 {
            0
        } else {
            (bottom / 65536) as u32
        };
        let x_hi: u32 = if ((right / 65536) as usize) < self.width {
            (right / 65536) as u32
        } else {
            (self.width - 1) as u32
        };
        let y_hi: u32 = if ((top / 65536) as usize) < self.height {
            (top / 65536) as u32
        } else {
            (self.height - 1) as u32
        };
        let color = tri.color;
        let mut x: u32 = x_lo;
        while x <= x_hi
            invariant
                self.wf(),
                before.well_formed(),
                t == tri@,
                tri.wf(),
                color == t.color,
                x_lo <= x,
                x <= x_hi + 1 || x == x_lo,
                x_hi < before.width,
                y_hi < before.height,
                self@ == (RasterizerView { frame: self@.frame, depth: self@.depth, ..before }),
                forall|i: int|
                    0 <= i < before.depth.len() ==> #[trigger] self@.depth[i] == (if scanned(
                        x_lo as int,
                        y_lo as int,
                        y_hi as int,
                        x as int,
                        y_lo as int,
                        column_of(before.width, i),
                        row_of(before.width, before.height, i),
                    ) {
                        shaded_depth(before.depth, before.width, before.height, t)[i]
                    } else {
                        before.depth[i]
                    }),
                forall|i: int|
                    0 <= i < before.frame.len() ==> #[trigger] self@.frame[i] == (if scanned(
                        x_lo as int,
                        y_lo as int,
                        y_hi as int,
                        x as int,
                        y_lo as int,
                        column_of(before.width, i),
                        row_of(before.width, before.height, i),
                    ) {
                        shaded_frame(before.frame, before.depth, before.width, before.height, t)[i]
                    } else {
                        before.frame[i]
                    }),
            decreases x_hi + 1 - x,
        {
            let mut y: u32 = y_lo;
            while y <= y_hi
                invariant
                    self.wf(),
                    before.well_formed(),
                    t == tri@,
                tri.wf(),
                    color == t.color,
                    x_lo <= x <= x_hi,
                    y_lo <= y,
                    y <= y_hi + 1 || y == y_lo,
                    x_hi < before.width,
                    y_hi < before.height,
                    self@ == (RasterizerView { frame: self@.frame, depth: self@.depth, ..before }),
                    forall|i: int|
                        0 <= i < before.depth.len() ==> #[trigger] self@.depth[i] == (if scanned(
                            x_lo as int,
                            y_lo as int,
                            y_hi as int,
                            x as int,
                            y as int,
                            column_of(before.width, i),
                            row_of(before.width, before.height, i),
                        ) {
                            shaded_depth(before.depth, before.width, before.height, t)[i]
                        } else {
                            before.depth[i]
                        }),
                    forall|i: int|
                        0 <= i < before.frame.len() ==> #[trigger] self@.frame[i] == (if scanned(
                            x_lo as int,
                            y_lo as int,
                            y_hi as int,
                            x as int,
                            y as int,
                            column_of(before.width, i),
                            row_of(before.width, before.height, i),
                        ) {
                            shaded_frame(
                                before.frame,
                                before.depth,
                                before.width,
                                before.height,
                                t,
                            )[i]
                        } else {
                            before.frame[i]
                        }),
                decreases y_hi + 1 - y,
            {
                let index = self.get_index(x as i32, y as i32);
                proof {
                    lemma_pixel_index(before.width, before.height, x as int, y as int);
                    assert forall|i: int| 0 <= i < before.depth.len() && i != index implies !(
                    column_of(before.width, i) == x && row_of(before.width, before.height, i)
                        == y) by {
                        lemma_place_pixel(before.width, before.height, i);
                    }
                }
                match tri.depth_at(Pixel { x, y }) {
                    Some(z) => {
                        let wins = match self.depth_buf[index] {
                            Depth::Infinite => true,
                            Depth::Finite(held) => z.raw < held.raw,
                        };
                        if wins {
                            self.depth_buf[index] = Depth::Finite(z);
                            self.set_pixel(x as i32, y as i32, color);
                        }
                    },
                    None => {},
                }
                y = y + 1;
            }
            x = x + 1;
        }
        proof {
            assert forall|i: int| 0 <= i < before.depth.len() && !scanned(
                x_lo as int,
                y_lo as int,
                y_hi as int,
                x as int,
                y_lo as int,
                column_of(before.width, i),
                row_of(before.width, before.height, i),
            ) implies claim(t, before.width, before.height, before.depth, i) is None by {
                lemma_claim_is_in_box(t, before.width, before.height, before.depth, i);
            }
            assert(self@.frame =~= shaded_frame(
                before.frame,
                before.depth,
                before.width,
                before.height,
                t,
            ));
            assert(self@.depth =~= shaded_depth(before.depth, before.width, before.height, t));
        }
    }

    /// The product `projection * view * model` of the matrices as they are now,
    /// unless an entry of it or of `projection * view` is out of range.
    pub fn compose(&self) -> (r: Option<Matrix4>)
        ensures
            r is Some <==> composed(self@.projection, self@.view, self@.model) is Some,
            r matches Some(m) ==> composed(self@.projection, self@.view, self@.model) == Some(m@),
    {
        match self.projection_m.product(&self.view_m) {
            Some(pv) => pv.product(&self.model_m),
            None => None,
        }
    }

    /// The triangle that `tri` is on a screen of this renderer's size: each
    /// corner taken to screen space by `mvp`. `None` where a corner has no screen
    /// point.
    pub fn to_screen(&self, mvp: &Matrix4, tri: &Triangle, flip: bool) -> (r: Option<
        ScreenTriangle,
    >)
        requires
            self.wf(),
        ensures
            r is Some <==> screen_triangle(mvp@, tri@, self@.width, self@.height, flip) is Some,
            r matches Some(t) ==> screen_triangle(mvp@, tri@, self@.width, self@.height, flip)
                == Some(t@) && t.wf(),
    {
        let a = screen_vertex(mvp, tri.a(), self.width, self.height, flip);
        let b = screen_vertex(mvp, tri.b(), self.width, self.height, flip);
        let c = screen_vertex(mvp, tri.c(), self.width, self.height, flip);
        match (a, b, c) {
            (Some(a), Some(b), Some(c)) => Some(ScreenTriangle { a, b, c, color: tri.get_color() }),
            _ => None,
        }
    }

    /// Draws the triangles, filled and depth-tested, in the order given.
    ///
    /// The matrices are composed once. Each triangle is copied, its copy taken
    /// to screen space and filled; a triangle with a corner that has no screen
    /// point is skipped, and so are all if the matrices have no product. The
    /// triangles may lie anywhere: what falls off the screen is dropped, and
    /// the buffers keep their size. A pixel ends with the colour of the nearest
    /// triangle that covers it, and of the earliest among equally near ones.
    pub fn draw(&mut self, triangle_list: &[Triangle])
        requires
            old(self).wf(),
        ensures
            final(self).wf(),
            final(self)@.width == old(self)@.width,
            final(self)@.height == old(self)@.height,
            final(self)@.frame.len() == old(self)@.frame.len(),
            final(self)@.depth.len() == old(self)@.depth.len(),
            final(self)@ == (match composed(
                old(self)@.projection,
                old(self)@.view,
                old(self)@.model,
            ) {
                Some(mvp) => {
                    let (frame, depth) = filled(
                        old(self)@.frame,
                        old(self)@.depth,
                        mvp,
                        triangle_list@,
                        old(self)@.width,
                        old(self)@.height,
                        triangle_list@.len() as int,
                    );
                    RasterizerView { frame, depth, ..old(self)@ }
                },
                None => old(self)@,
            }),
    {
        let mvp = match self.compose() {
            Some(m) => m,
            None => {
                return ;
            },
        };
        let ghost before = self@;
        let mut n: usize = 0;
        while n < triangle_list.len()
            invariant
                self.wf(),
                n <= triangle_list@.len(),
                composed(before.projection, before.view, before.model) == Some(mvp@),
                self@ == (RasterizerView {
                    frame: filled(
                        before.frame,
                        before.depth,
                        mvp@,
                        triangle_list@,
                        before.width,
                        before.height,
                        n as int,
                    ).0,
                    depth: filled(
                        before.frame,
                        before.depth,
                        mvp@,
                        triangle_list@,
                        before.width,
                        before.height,
                        n as int,
                    ).1,
                    ..before
                }),
            decreases triangle_list@.len() - n,
        {
            match self.to_screen(&mvp, &triangle_list[n], false) {
                Some(triangle) => {
                    self.shade(&triangle);
                },
                None => {},
            }
            n = n + 1;
        }
    }

    /// Draws the outlines of the triangles, in the order given, with the y axis
    /// of the screen flipped. Depths are neither tested nor changed. A triangle
    /// with a corner beyond 32768 pixels, the reach of a line's end, is skipped.
    pub fn draw_wireframe(&mut self, triangle_list: &[Triangle])
        requires
            old(self).wf(),
        ensures
            final(self).wf(),
            final(self)@.width == old(self)@.width,
            final(self)@.height == old(self)@.height,
            final(self)@.frame.len() == old(self)@.frame.len(),
            final(self)@.depth == old(self)@.depth,
            final(self)@ == (match composed(
                old(self)@.projection,
                old(self)@.view,
                old(self)@.model,
            ) {
                Some(mvp) => RasterizerView {
                    frame: outlines(
                        old(self)@.frame,
                        mvp,
                        triangle_list@,
                        old(self)@.width,
                        old(self)@.height,
                        triangle_list@.len() as int,
                    ),
                    ..old(self)@
                },
                None => old(self)@,
            }),
    {
        let mvp = match self.compose() {
            Some(m) => m,
            None => {
                return ;
            },
        };
        let ghost before = self@;
        let mut n: usize = 0;
        while n < triangle_list.len()
            invariant
                self.wf(),
                n <= triangle_list@.len(),
                composed(before.projection, before.view, before.model) == Some(mvp@),
                self@ == (RasterizerView {
                    frame: outlines(
                        before.frame,
                        mvp@,
                        triangle_list@,
                        before.width,
                        before.height,
                        n as int,
                    ),
                    ..before
                }),
            decreases triangle_list@.len() - n,
        {
            match self.to_screen(&mvp, &triangle_list[n], true) {
                Some(on_screen) => {
                    match on_screen.to_triangle() {
                        Some(triangle) => {
                            self.draw_triangle(&triangle);
                        },
                        None => {},
                    }
                },
                None => {},
            }
            n = n + 1;
        }
    }
}

} // verus!
