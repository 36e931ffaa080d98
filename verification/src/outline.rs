//! Outlines drawn pixel by pixel, without anti-aliasing.

use crate::base::RenderingBase;
use crate::cell::coord_ok;
use crate::color::{Color, Rgba8};
use crate::line::lemma_trunc_rem_bounds;
use crate::paths::{PathCommand, Vertex};
use crate::pixel::{covered, same_pixels, Canvas, Pixel};
use crate::rend::{lemma_same_pixels_chain, BresehamInterpolator};
use crate::util::{pixel_floor, pixel_of};
use vstd::prelude::*;

verus! {

/// A coordinate in sub-pixel units.
#[derive(Debug, Copy, Clone, PartialEq, Default)]
pub struct Subpixel(pub i64);

impl Subpixel {
    /// Returns the coordinate in sub-pixel units.
    pub fn value(self) -> (r: i64)
        ensures
            r == self.0,
    {
        self.0
    }
}

impl From<i64> for Subpixel {
    fn from(v: i64) -> (r: Self) {
        Subpixel(v)
    }
}

impl vstd::std_specs::convert::FromSpecImpl<i64> for Subpixel {
    open spec fn obeys_from_spec() -> bool {
        true
    }

    open spec fn from_spec(v: i64) -> Self {
        Subpixel(v)
    }
}

impl From<Subpixel> for i64 {
    fn from(v: Subpixel) -> (r: Self) {
        pixel_floor(v.0)
    }
}

impl vstd::std_specs::convert::FromSpecImpl<Subpixel> for i64 {
    open spec fn obeys_from_spec() -> bool {
        true
    }

    /// The pixel that holds the coordinate.
    open spec fn from_spec(v: Subpixel) -> Self {
        pixel_of(v.0 as int) as i64
    }
}

/// The image after the pixel `at` has been painted in the color with the
/// channels `c`, fully covered.
pub open spec fn dot_painted<T: Pixel>(cv: Canvas, at: (int, int), c: (u8, u8, u8, u8)) -> Canvas {
    Canvas {
        at: |px: int, py: int|
            if px == at.0 && py == at.1 {
                covered((cv.at)(px, py), c.3, 255, T::encoded(c), T::blended((cv.at)(px, py), c, 255))
            } else {
                (cv.at)(px, py)
            },
        ..cv
    }
}

/// The image after the first `k` pixels of a line have been painted, one after
/// the other: those on which the interpolator `li` stands before each of its
/// first `k` steps.
pub open spec fn dots_painted<T: Pixel>(
    cv: Canvas,
    li: BresehamInterpolator,
    k: int,
    c: (u8, u8, u8, u8),
) -> Canvas
    decreases k,
{
    if k <= 0 {
        cv
    } else {
        dot_painted::<T>(dots_painted::<T>(cv, li, k - 1, c), li.after(k - 1).dot(), c)
    }
}

/// The image after the line from `(x1, y1)` to `(x2, y2)`, in sub-pixel units,
/// has been painted: one pixel for each step of the interpolator, so that the
/// pixel of the end point is left out.
pub open spec fn line_painted<T: Pixel>(
    cv: Canvas,
    x1: i64,
    y1: i64,
    x2: i64,
    y2: i64,
    c: (u8, u8, u8, u8),
) -> Canvas {
    dots_painted::<T>(
        cv,
        BresehamInterpolator::start(x1, y1, x2, y2),
        BresehamInterpolator::steps(x1, y1, x2, y2),
        c,
    )
}

/// Painting a pixel keeps the size of the image, and on images with the same
/// pixels it gives images with the same pixels.
pub proof fn lemma_dots_painted<T: Pixel>(
    a: Canvas,
    b: Canvas,
    li: BresehamInterpolator,
    k: int,
    c: (u8, u8, u8, u8),
)
    requires
        same_pixels(a, b),
    ensures
        same_pixels(dots_painted::<T>(a, li, k, c), dots_painted::<T>(b, li, k, c)),
        dots_painted::<T>(a, li, k, c).width == a.width,
        dots_painted::<T>(a, li, k, c).height == a.height,
    decreases k,
{
    if k > 0 {
        lemma_dots_painted::<T>(a, b, li, k - 1, c);
        let pa = dots_painted::<T>(a, li, k - 1, c);
        let pb = dots_painted::<T>(b, li, k - 1, c);
        let qa = dots_painted::<T>(a, li, k, c);
        let qb = dots_painted::<T>(b, li, k, c);
        assert forall|x: int, y: int| qa.holds(x, y) implies #[trigger] (qa.at)(x, y) == (qb.at)(
            x,
            y,
        ) by {
            assert(pa.holds(x, y));
            assert((pa.at)(x, y) == (pb.at)(x, y));
        }
    }
}

/// A line painted onto images with the same pixels gives images with the same
/// pixels, of the same size.
pub proof fn lemma_line_painted<T: Pixel>(
    a: Canvas,
    b: Canvas,
    x1: i64,
    y1: i64,
    x2: i64,
    y2: i64,
    c: (u8, u8, u8, u8),
)
    requires
        same_pixels(a, b),
    ensures
        same_pixels(line_painted::<T>(a, x1, y1, x2, y2, c), line_painted::<T>(b, x1, y1, x2, y2, c)),
        line_painted::<T>(a, x1, y1, x2, y2, c).width == a.width,
        line_painted::<T>(a, x1, y1, x2, y2, c).height == a.height,
{
    lemma_dots_painted::<T>(
        a,
        b,
        BresehamInterpolator::start(x1, y1, x2, y2),
        BresehamInterpolator::steps(x1, y1, x2, y2),
        c,
    );
}

/// Whether the interpolator that started as `first` is, `k` steps on, where the
/// line is: `k` pixels along the longer axis, with values far from the ends of
/// `i64`, and able to step on if it has not made all its steps.
pub open spec fn on_line(first: BresehamInterpolator, k: int) -> bool {
    let li = first.after(k);
    &&& li.ver == first.ver
    &&& li.len == first.len
    &&& li.inc == first.inc
    &&& li.inc == 1 || li.inc == -1
    &&& li.func.left == first.func.left
    &&& li.func.rem == first.func.rem
    &&& li.func.count == first.func.count
    &&& li.ver ==> li.y1 == first.y1 + k * first.inc && li.x1 == first.x1
    &&& !li.ver ==> li.x1 == first.x1 + k * first.inc && li.y2 == pixel_of(li.func.y as int)
    &&& li.ver ==> li.x2 == pixel_of(li.func.y as int)
    &&& first.len >= 1 ==> -first.len < li.func.xmod <= 0
    &&& -0x8000_0000 - k * 0x2_0000_0001 <= li.func.y <= 0x8000_0000 + k * 0x2_0000_0001
    &&& k < first.len ==> li.can_step(if li.ver {
        li.y1
    } else {
        li.x1
    })
}

/// Along a line between points of the coordinate range every step of the
/// interpolator can be made: after `k` steps it has moved `k` pixels along the
/// longer axis, and its values are far from the ends of `i64`.
pub proof fn lemma_line_steps(x1: i64, y1: i64, x2: i64, y2: i64, k: int)
    requires
        coord_ok(x1 as int),
        coord_ok(y1 as int),
        coord_ok(x2 as int),
        coord_ok(y2 as int),
        0 <= k <= BresehamInterpolator::steps(x1, y1, x2, y2),
    ensures
        on_line(BresehamInterpolator::start(x1, y1, x2, y2), k),
    decreases k,
{
    let first = BresehamInterpolator::start(x1, y1, x2, y2);
    let len = BresehamInterpolator::steps(x1, y1, x2, y2);
    let d = BresehamInterpolator::across(x1, y1, x2, y2);
    let cnt = if len > 1 {
        len
    } else {
        1
    };
    lemma_trunc_rem_bounds(d, cnt);
    assert(0 <= len <= 0x100_0000);
    assert(-0x1_0000_0000 <= d <= 0x1_0000_0000);
    if k > 0 {
        lemma_line_steps(x1, y1, x2, y2, k - 1);
        let before = first.after(k - 1);
        let li = first.after(k);
        assert(li == before.stepped());
        assert((k - 1) * 0x2_0000_0001 + 0x2_0000_0001 == k * 0x2_0000_0001) by (nonlinear_arith);
        assert((k - 1) * first.inc + first.inc == k * first.inc) by (nonlinear_arith);
        assert(0 <= (k - 1) * 0x2_0000_0001 <= 0x100_0000 * 0x2_0000_0001) by (nonlinear_arith)
            requires
                1 <= k <= 0x100_0000,
        ;
    }
    assert(0 <= k * 0x2_0000_0001 <= 0x100_0000 * 0x2_0000_0001) by (nonlinear_arith)
        requires
            0 <= k <= 0x100_0000,
    ;
    assert(-0x100_0000 <= k * first.inc <= 0x100_0000) by (nonlinear_arith)
        requires
            0 <= k <= 0x100_0000,
            first.inc == 1 || first.inc == -1,
    ;
}

/// Draws lines pixel by pixel onto a rendering base.
#[derive(Debug)]
pub struct RendererOutline<'a, T: 'a> {
    /// The rendering base that is drawn onto.
    pub base: &'a mut RenderingBase<T>,
    /// The color of filled shapes.
    pub fill_color: Rgba8,
    /// The color of lines.
    pub line_color: Rgba8,
    /// The current column, in sub-pixel units.
    pub x: Subpixel,
    /// The current row, in sub-pixel units.
    pub y: Subpixel,
}

/// The other name of the renderer of lines.
pub type RendererPrimitives<'a, T> = RendererOutline<'a, T>;

impl<'a, T: Pixel> RendererOutline<'a, T> {
    /// The image that is drawn onto.
    pub open spec fn target(&self) -> Canvas {
        self.base.pixf.canvas()
    }

    /// The bytes of the image, row after row.
    pub open spec fn target_bytes(&self) -> Seq<u8> {
        self.base.pixf.bytes()
    }

    /// Whether the renderer can draw: its image is well formed, its position lies
    /// in the coordinate range, and the pixel format can set a pixel if the line
    /// color is opaque.
    pub open spec fn wf(&self) -> bool {
        &&& self.base.wf()
        &&& coord_ok(self.x.0 as int)
        &&& coord_ok(self.y.0 as int)
        &&& self.line_color.a == 255 ==> T::can_setn(1)
    }

    /// Creates a renderer that draws onto `base` in black, at the position
    /// `(0, 0)`.
    pub fn with_base(base: &'a mut RenderingBase<T>) -> (r: Self)
        ensures
            *r.base == *old(base),
            r.fill_color == (Rgba8 { r: 0, g: 0, b: 0, a: 255 }),
            r.line_color == (Rgba8 { r: 0, g: 0, b: 0, a: 255 }),
            r.x == Subpixel(0),
            r.y == Subpixel(0),
    {
        let fill_color = Rgba8::black();
        let line_color = Rgba8::black();
        Self { base, fill_color, line_color, x: Subpixel(0), y: Subpixel(0) }
    }

    /// Returns the bytes of the image, row after row.
    pub fn as_bytes(&self) -> (r: &[u8])
        ensures
            r@ == self.target_bytes(),
    {
        self.base.as_bytes()
    }

    /// Sets the color of lines.
    pub fn line_color<C: Color>(&mut self, line_color: C)
        ensures
            final(self).line_color == (Rgba8 {
                r: line_color.channels().0,
                g: line_color.channels().1,
                b: line_color.channels().2,
                a: line_color.channels().3,
            }),
            final(self).fill_color == old(self).fill_color,
            final(self).x == old(self).x,
            final(self).y == old(self).y,
            *final(self).base == *old(self).base,
    {
        self.line_color = Rgba8::from_trait(line_color);
    }

    /// Sets the color of filled shapes.
    pub fn fill_color<C: Color>(&mut self, fill_color: C)
        ensures
            final(self).fill_color == (Rgba8 {
                r: fill_color.channels().0,
                g: fill_color.channels().1,
                b: fill_color.channels().2,
                a: fill_color.channels().3,
            }),
            final(self).line_color == old(self).line_color,
            final(self).x == old(self).x,
            final(self).y == old(self).y,
            *final(self).base == *old(self).base,
    {
        self.fill_color = Rgba8::from_trait(fill_color);
    }

    /// Makes `(x, y)` the current position.
    pub fn move_to_sp(&mut self, x: Subpixel, y: Subpixel)
        ensures
            final(self).x == x,
            final(self).y == y,
            final(self).line_color == old(self).line_color,
            final(self).fill_color == old(self).fill_color,
            *final(self).base == *old(self).base,
    {
        self.x = x;
        self.y = y;
    }

    /// Draws the line from the current position to `(x, y)` in the line color and
    /// makes `(x, y)` the current position.
    pub fn line_to_sp(&mut self, x: Subpixel, y: Subpixel)
        requires
            old(self).wf(),
            coord_ok(x.0 as int),
            coord_ok(y.0 as int),
        ensures
            final(self).wf(),
            final(self).x == x,
            final(self).y == y,
            final(self).line_color == old(self).line_color,
            final(self).fill_color == old(self).fill_color,
            same_pixels(
                final(self).target(),
                line_painted::<T>(
                    old(self).target(),
                    old(self).x.0,
                    old(self).y.0,
                    x.0,
                    y.0,
                    old(self).line_color.channels(),
                ),
            ),
    {
        let (x1, y1) = (self.x, self.y);
        self.line_sp(x1, y1, x, y);
        self.x = x;
        self.y = y;
    }

    /// Draws the line from `(x1, y1)` to `(x2, y2)` in the line color: one pixel
    /// for each step along the longer axis.
    pub fn line_sp(&mut self, x1: Subpixel, y1: Subpixel, x2: Subpixel, y2: Subpixel)
        requires
            old(self).wf(),
            coord_ok(x1.0 as int),
            coord_ok(y1.0 as int),
            coord_ok(x2.0 as int),
            coord_ok(y2.0 as int),
        ensures
            final(self).wf(),
            final(self).x == old(self).x,
            final(self).y == old(self).y,
            final(self).line_color == old(self).line_color,
            final(self).fill_color == old(self).fill_color,
            same_pixels(
                final(self).target(),
                line_painted::<T>(
                    old(self).target(),
                    x1.0,
                    y1.0,
                    x2.0,
                    y2.0,
                    old(self).line_color.channels(),
                ),
            ),
    {
        proof {
            lemma_line_steps(x1.0, y1.0, x2.0, y2.0, 0);
            lemma_trunc_rem_bounds(
                BresehamInterpolator::across(x1.0, y1.0, x2.0, y2.0),
                if BresehamInterpolator::steps(x1.0, y1.0, x2.0, y2.0) > 1 {
                    BresehamInterpolator::steps(x1.0, y1.0, x2.0, y2.0)
                } else {
                    1
                },
            );
        }
        let mut li = BresehamInterpolator::new(x1, y1, x2, y2);
        if li.len == 0 {
            return ;
        }
        let mask = T::cover_mask();
        let color = self.line_color;
        let ghost first = li;
        let ghost start = self.target();
        let ghost c = color.channels();
        let n = li.len;
        let mut i: i64 = 0;
        while i < n
            invariant
                0 <= i <= n,
                n == first.len,
                n == BresehamInterpolator::steps(x1.0, y1.0, x2.0, y2.0),
                first == BresehamInterpolator::start(x1.0, y1.0, x2.0, y2.0),
                coord_ok(x1.0 as int),
                coord_ok(y1.0 as int),
                coord_ok(x2.0 as int),
                coord_ok(y2.0 as int),
                li == first.after(i as int),
                mask == 255,
                color == self.line_color,
                c == color.channels(),
                start == old(self).target(),
                self.wf(),
                self.x == old(self).x,
                self.y == old(self).y,
                self.line_color == old(self).line_color,
                self.fill_color == old(self).fill_color,
                same_pixels(self.target(), dots_painted::<T>(start, first, i as int, c)),
            decreases n - i,
        {
            proof {
                lemma_line_steps(x1.0, y1.0, x2.0, y2.0, i as int);
                lemma_dots_painted::<T>(start, start, first, i as int, c);
            }
            let ghost before = self.target();
            let ghost painted = dots_painted::<T>(start, first, i as int, c);
            if li.ver {
                self.base.blend_hline(li.x2, li.y1, li.x2, color, mask);
                li.vstep();
            } else {
                self.base.blend_hline(li.x1, li.y2, li.x1, color, mask);
                li.hstep();
            }
            proof {
                let after = self.target();
                let expected = dot_painted::<T>(painted, first.after(i as int).dot(), c);
                assert forall|px: int, py: int| after.holds(px, py) implies #[trigger] (after.at)(
                    px,
                    py,
                ) == (expected.at)(px, py) by {
                    assert((before.at)(px, py) == (painted.at)(px, py));
                }
            }
            i = i + 1;
        }
    }
}

/// A drawing in progress: the image, the position of the pen, the start of the
/// current sub-path and the number of its vertices so far.
pub ghost struct Sketch {
    /// The image.
    pub canvas: Canvas,
    /// The column of the pen, in sub-pixel units.
    pub x: i64,
    /// The row of the pen, in sub-pixel units.
    pub y: i64,
    /// The column at which the current sub-path started.
    pub start_x: i64,
    /// The row at which the current sub-path started.
    pub start_y: i64,
    /// The number of vertices of the current sub-path.
    pub vertices: nat,
}

impl Sketch {
    /// The drawing after a sub-path has been started at `(x, y)`.
    pub open spec fn with_move_to(self, x: i64, y: i64) -> Sketch {
        Sketch { x, y, start_x: x, start_y: y, vertices: 1, ..self }
    }

    /// The drawing after a line has been drawn from the pen to `(x, y)` in the
    /// color with the channels `c`.
    pub open spec fn with_line_to<T: Pixel>(self, x: i64, y: i64, c: (u8, u8, u8, u8)) -> Sketch {
        Sketch {
            canvas: line_painted::<T>(self.canvas, self.x, self.y, x, y, c),
            x,
            y,
            vertices: self.vertices + 1,
            ..self
        }
    }

    /// The drawing after the current sub-path has been closed: with more than
    /// two vertices a line is drawn back to its start. After that it counts no
    /// vertex.
    pub open spec fn closed<T: Pixel>(self, c: (u8, u8, u8, u8)) -> Sketch {
        if self.vertices > 2 {
            Sketch { vertices: 0, ..self.with_line_to::<T>(self.start_x, self.start_y, c) }
        } else {
            Sketch { vertices: 0, ..self }
        }
    }

    /// The drawing after the vertex `v` has been added.
    pub open spec fn with_vertex<T: Pixel>(self, v: Vertex<i64>, c: (u8, u8, u8, u8)) -> Sketch {
        match v.cmd {
            PathCommand::MoveTo => self.with_move_to(v.x, v.y),
            PathCommand::LineTo => self.with_line_to::<T>(v.x, v.y, c),
            PathCommand::Close => self.closed::<T>(c),
            PathCommand::Stop => self,
        }
    }

    /// The drawing after the vertices of a path have been added in turn.
    pub open spec fn with_vertices<T: Pixel>(self, path: Seq<Vertex<i64>>, c: (u8, u8, u8, u8)) -> Sketch
        decreases path.len(),
    {
        if path.len() == 0 {
            self
        } else {
            self.with_vertices::<T>(path.drop_last(), c).with_vertex::<T>(path.last(), c)
        }
    }

    /// Whether two drawings agree in everything and their images in every pixel.
    pub open spec fn same(self, other: Sketch) -> bool {
        &&& same_pixels(self.canvas, other.canvas)
        &&& self.x == other.x
        &&& self.y == other.y
        &&& self.start_x == other.start_x
        &&& self.start_y == other.start_y
        &&& self.vertices == other.vertices
    }
}

/// Draws the outline of a path as soon as its vertices arrive.
#[derive(Debug)]
pub struct RasterizerOutline<'a, T: Pixel> {
    /// The renderer that draws the lines.
    pub ren: &'a mut RendererOutline<'a, T>,
    /// The column at which the current sub-path started.
    pub start_x: Subpixel,
    /// The row at which the current sub-path started.
    pub start_y: Subpixel,
    /// The number of vertices of the current sub-path.
    pub vertices: usize,
}

impl<'a, T: Pixel> RasterizerOutline<'a, T> {
    /// The drawing as it stands.
    pub open spec fn sketch(&self) -> Sketch {
        Sketch {
            canvas: self.ren.target(),
            x: self.ren.x.0,
            y: self.ren.y.0,
            start_x: self.start_x.0,
            start_y: self.start_y.0,
            vertices: self.vertices as nat,
        }
    }

    /// The channels of the color that lines are drawn in.
    pub open spec fn ink(&self) -> (u8, u8, u8, u8) {
        self.ren.line_color.channels()
    }

    /// Whether the rasterizer can draw: its renderer can, and the start of the
    /// sub-path lies in the coordinate range.
    pub open spec fn wf(&self) -> bool {
        &&& self.ren.wf()
        &&& coord_ok(self.start_x.0 as int)
        &&& coord_ok(self.start_y.0 as int)
    }

    /// Creates a rasterizer that draws with the renderer `ren`.
    pub fn with_primitive(ren: &'a mut RendererOutline<'a, T>) -> (r: Self)
        ensures
            r.ren.target() == old(ren).target(),
            r.ren.x == old(ren).x,
            r.ren.y == old(ren).y,
            r.ren.line_color == old(ren).line_color,
            r.ren.fill_color == old(ren).fill_color,
            r.ren.wf() == old(ren).wf(),
            r.start_x == Subpixel(0),
            r.start_y == Subpixel(0),
            r.vertices == 0,
    {
        Self { start_x: Subpixel(0), start_y: Subpixel(0), vertices: 0, ren }
    }

    /// Draws a path, given as vertices in sub-pixel units.
    pub fn add_path(&mut self, path: &Vec<Vertex<i64>>)
        requires
            old(self).wf(),
            old(self).vertices + path@.len() <= usize::MAX,
            forall|i: int|
                0 <= i < path@.len() ==> coord_ok((#[trigger] path@[i]).x as int) && coord_ok(
                    path@[i].y as int,
                ) && path@[i].cmd != PathCommand::Stop,
        ensures
            final(self).wf(),
            final(self).ink() == old(self).ink(),
            final(self).sketch().same(old(self).sketch().with_vertices::<T>(path@, old(self).ink())),
    {
        let ghost first = self.sketch();
        let ghost c = self.ink();
        let n = path.len();
        let mut i: usize = 0;
        while i < n
            invariant
                n == path@.len(),
                i <= n,
                self.wf(),
                self.ink() == c,
                first == old(self).sketch(),
                first.vertices + n <= usize::MAX,
                self.vertices <= first.vertices + i,
                self.sketch().same(first.with_vertices::<T>(path@.take(i as int), c)),
                forall|k: int|
                    0 <= k < path@.len() ==> coord_ok((#[trigger] path@[k]).x as int) && coord_ok(
                        path@[k].y as int,
                    ) && path@[k].cmd != PathCommand::Stop,
            decreases n - i,
        {
            let v = path[i];
            let ghost model = first.with_vertices::<T>(path@.take(i as int), c);
            let ghost before = self.sketch();
            proof {
                assert(path@.take(i + 1).drop_last() =~= path@.take(i as int));
                assert(path@.take(i + 1).last() == v);
                lemma_line_painted::<T>(before.canvas, model.canvas, before.x, before.y, v.x, v.y, c);
                lemma_line_painted::<T>(
                    before.canvas,
                    model.canvas,
                    before.x,
                    before.y,
                    before.start_x,
                    before.start_y,
                    c,
                );
            }
            match v.cmd {
                PathCommand::MoveTo => self.move_to_sp(Subpixel(v.x), Subpixel(v.y)),
                PathCommand::LineTo => self.line_to_sp(Subpixel(v.x), Subpixel(v.y)),
                PathCommand::Close => self.close(),
                PathCommand::Stop => {},
            }
            proof {
                lemma_same_pixels_chain(
                    self.sketch().canvas,
                    before.with_vertex::<T>(v, c).canvas,
                    model.with_vertex::<T>(v, c).canvas,
                );
            }
            i = i + 1;
        }
        proof {
            assert(path@.take(n as int) =~= path@);
        }
    }

    /// Closes the current sub-path: with more than two vertices a line is drawn
    /// back to its start.
    pub fn close(&mut self)
        requires
            old(self).wf(),
            old(self).vertices < usize::MAX,
        ensures
            final(self).wf(),
            final(self).ink() == old(self).ink(),
            final(self).sketch().same(old(self).sketch().closed::<T>(old(self).ink())),
    {
        if self.vertices > 2 {
            let (x, y) = (self.start_x, self.start_y);
            self.line_to_sp(x, y);
        }
        self.vertices = 0;
    }

    /// Starts a sub-path at `(x, y)`.
    pub fn move_to_sp(&mut self, x: Subpixel, y: Subpixel)
        requires
            old(self).wf(),
            coord_ok(x.0 as int),
            coord_ok(y.0 as int),
        ensures
            final(self).wf(),
            final(self).ink() == old(self).ink(),
            final(self).sketch() == old(self).sketch().with_move_to(x.0, y.0),
    {
        self.vertices = 1;
        self.start_x = x;
        self.start_y = y;
        self.ren.move_to_sp(x, y);
    }

    /// Draws a line from the pen to `(x, y)`.
    pub fn line_to_sp(&mut self, x: Subpixel, y: Subpixel)
        requires
            old(self).wf(),
            old(self).vertices < usize::MAX,
            coord_ok(x.0 as int),
            coord_ok(y.0 as int),
        ensures
            final(self).wf(),
            final(self).ink() == old(self).ink(),
            final(self).sketch().same(old(self).sketch().with_line_to::<T>(x.0, y.0, old(self).ink())),
    {
        self.vertices += 1;
        self.ren.line_to_sp(x, y);
    }
}

} // verus!
