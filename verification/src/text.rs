//! Text: glyphs that a font library has rendered to coverage values are put
//! onto an image.

use crate::base::RenderingBase;
use crate::clip::{div_round, round_div, round_div_clamped};
use crate::color::{Color, Rgba8};
use crate::pixel::{covered, same_pixels, Canvas, Pixel};
use crate::rend::lemma_same_pixels_chain;
use vstd::prelude::*;

verus! {

/// Horizontal alignment of text.
#[derive(Debug, Copy, Clone, PartialEq, Eq)]
pub enum XAlign {
    /// The text starts at the position.
    Left,
    /// The text is centred on the position.
    Center,
    /// The text ends at the position.
    Right,
}

/// Vertical alignment of text.
#[derive(Debug, Copy, Clone, PartialEq, Eq)]
pub enum YAlign {
    /// The top of the text is at the position.
    Top,
    /// The text is centred on the position.
    Center,
    /// The bottom of the text is at the position.
    Bottom,
}

/// The largest magnitude that the advance of a glyph and the height of a line
/// may have, in 64ths of a pixel.
pub const ADVANCE_MAX: i64 = 0x100_0000_0000;

/// The largest magnitude of a pen position from which text can be drawn.
pub const PEN_MAX: i64 = 0x1000_0000_0000_0000;

/// The largest number of glyphs of a text.
pub const GLYPHS_MAX: usize = 0x10_0000;

/// A glyph rendered to coverage values, and where it lies relative to the pen.
#[derive(Clone, Debug, PartialEq, Eq)]
pub struct GlyphBitmap {
    /// The distance from the pen to the left edge of the bitmap, in pixels.
    pub left: i64,
    /// The distance from the pen up to the top edge of the bitmap, in pixels.
    pub top: i64,
    /// The number of rows of the bitmap.
    pub rows: i64,
    /// The number of pixels in a row.
    pub width: i64,
    /// The number of values from the start of one row to the start of the next.
    pub pitch: usize,
    /// The coverage values, row after row.
    pub buffer: Vec<u64>,
    /// How far the pen moves to the right behind the glyph, in 64ths of a pixel.
    pub advance_x: i64,
    /// How far the pen moves down behind the glyph, in 64ths of a pixel.
    pub advance_y: i64,
}

impl GlyphBitmap {
    /// Whether the buffer holds every row, and the measures are no larger than a
    /// font library gives them.
    pub open spec fn wf(self) -> bool {
        &&& 0 <= self.rows <= i32::MAX
        &&& 0 <= self.width <= i32::MAX
        &&& i32::MIN <= self.left <= i32::MAX
        &&& i32::MIN <= self.top <= i32::MAX
        &&& self.pitch <= i32::MAX
        &&& self.rows > 0 ==> self.pitch * (self.rows - 1) + self.width <= self.buffer@.len()
        &&& -ADVANCE_MAX <= self.advance_x <= ADVANCE_MAX
        &&& -ADVANCE_MAX <= self.advance_y <= ADVANCE_MAX
    }

    /// The coverage of the pixel in column `i` of row `j` of the bitmap.
    pub open spec fn cover_at(self, i: int, j: int) -> u64 {
        self.buffer@[self.pitch * j + i]
    }

    /// Whether the pixel `(px, py)` lies in row `j` of the bitmap when the pen
    /// is at `(x, y)`.
    pub open spec fn holds(self, x: int, y: int, j: int, px: int, py: int) -> bool {
        py == y - self.top + j && x + self.left <= px < x + self.left + self.width
    }
}

/// The image after the first `n` rows of a glyph have been painted with the pen
/// at `(x, y)`, in the color with the channels `c`, each pixel with its
/// coverage.
pub open spec fn glyph_rows_painted<T: Pixel>(
    cv: Canvas,
    g: GlyphBitmap,
    x: int,
    y: int,
    n: int,
    c: (u8, u8, u8, u8),
) -> Canvas
    decreases n,
{
    if n <= 0 {
        cv
    } else {
        let before = glyph_rows_painted::<T>(cv, g, x, y, n - 1, c);
        Canvas {
            at: |px: int, py: int|
                if g.holds(x, y, n - 1, px, py) {
                    covered(
                        (before.at)(px, py),
                        c.3,
                        g.cover_at(px - x - g.left, n - 1),
                        T::encoded(c),
                        T::blended((before.at)(px, py), c, g.cover_at(px - x - g.left, n - 1)),
                    )
                } else {
                    (before.at)(px, py)
                },
            ..before
        }
    }
}

/// The image after a glyph has been painted with the pen at `(x, y)`.
pub open spec fn glyph_painted<T: Pixel>(
    cv: Canvas,
    g: GlyphBitmap,
    x: int,
    y: int,
    c: (u8, u8, u8, u8),
) -> Canvas {
    glyph_rows_painted::<T>(cv, g, x, y, g.rows as int, c)
}

/// A glyph painted onto images with the same pixels gives images with the same
/// pixels, of the same size.
pub proof fn lemma_glyph_rows_painted<T: Pixel>(
    a: Canvas,
    b: Canvas,
    g: GlyphBitmap,
    x: int,
    y: int,
    n: int,
    c: (u8, u8, u8, u8),
)
    requires
        same_pixels(a, b),
    ensures
        same_pixels(
            glyph_rows_painted::<T>(a, g, x, y, n, c),
            glyph_rows_painted::<T>(b, g, x, y, n, c),
        ),
        glyph_rows_painted::<T>(a, g, x, y, n, c).width == a.width,
        glyph_rows_painted::<T>(a, g, x, y, n, c).height == a.height,
    decreases n,
{
    if n > 0 {
        lemma_glyph_rows_painted::<T>(a, b, g, x, y, n - 1, c);
        let pa = glyph_rows_painted::<T>(a, g, x, y, n - 1, c);
        let pb = glyph_rows_painted::<T>(b, g, x, y, n - 1, c);
        let qa = glyph_rows_painted::<T>(a, g, x, y, n, c);
        let qb = glyph_rows_painted::<T>(b, g, x, y, n, c);
        assert forall|px: int, py: int| qa.holds(px, py) implies #[trigger] (qa.at)(px, py) == (
        qb.at)(px, py) by {
            assert(pa.holds(px, py));
            assert((pa.at)(px, py) == (pb.at)(px, py));
        }
    }
}

/// The position of the pen behind the first `k` glyphs of a text that started
/// at `(x, y)`: each glyph moves it by its advance, rounded to whole pixels.
pub open spec fn pen_after(glyphs: Seq<GlyphBitmap>, x: int, y: int, k: int) -> (int, int)
    decreases k,
{
    if k <= 0 {
        (x, y)
    } else {
        let p = pen_after(glyphs, x, y, k - 1);
        (
            p.0 + round_div(glyphs[k - 1].advance_x as int, 64),
            p.1 + round_div(glyphs[k - 1].advance_y as int, 64),
        )
    }
}

/// The sum of the horizontal advances of the first `k` glyphs, in 64ths of a
/// pixel.
pub open spec fn advance_sum(glyphs: Seq<GlyphBitmap>, k: int) -> int
    decreases k,
{
    if k <= 0 {
        0
    } else {
        advance_sum(glyphs, k - 1) + glyphs[k - 1].advance_x
    }
}

/// The image after the first `k` glyphs of a text have been painted, the first
/// with the pen at `(x, y)`.
pub open spec fn glyphs_painted<T: Pixel>(
    cv: Canvas,
    glyphs: Seq<GlyphBitmap>,
    x: int,
    y: int,
    k: int,
    c: (u8, u8, u8, u8),
) -> Canvas
    decreases k,
{
    if k <= 0 {
        cv
    } else {
        let p = pen_after(glyphs, x, y, k - 1);
        glyph_painted::<T>(glyphs_painted::<T>(cv, glyphs, x, y, k - 1, c), glyphs[k - 1], p.0, p.1, c)
    }
}

/// Whether a text can be drawn: it is not too long and every glyph is well
/// formed.
pub open spec fn text_ok(glyphs: Seq<GlyphBitmap>) -> bool {
    &&& glyphs.len() <= GLYPHS_MAX
    &&& forall|i: int| 0 <= i < glyphs.len() ==> (#[trigger] glyphs[i]).wf()
}

/// A quotient by 64 or 128, rounded, is smaller in magnitude than the dividend.
pub proof fn lemma_round_small(n: int, d: int)
    requires
        d == 64 || d == 128,
    ensures
        n >= 0 ==> 0 <= round_div(n, d) <= n / 64 + 1,
        n <= 0 ==> -((-n) / 64) - 1 <= round_div(n, d) <= 0,
        round_div(n, d) == round_div_clamped(n, d) || n < -0x4000_0000_0000_0000 || n
            > 0x4000_0000_0000_0000,
{
    if d == 64 {
        assert(round_div(n, 64) == (if n >= 0 {
            (2 * n + 64) / 128
        } else {
            -((2 * (-n) + 64) / 128)
        }));
    } else {
        assert(round_div(n, 128) == (if n >= 0 {
            (2 * n + 128) / 256
        } else {
            -((2 * (-n) + 128) / 256)
        }));
    }
}

/// The pen stays near its start, and the advances add up to no more than their
/// number allows.
pub proof fn lemma_pen_after(glyphs: Seq<GlyphBitmap>, x: int, y: int, k: int)
    requires
        forall|i: int| 0 <= i < glyphs.len() ==> (#[trigger] glyphs[i]).wf(),
        0 <= k <= glyphs.len(),
    ensures
        x - k * 0x4_0000_0001 <= pen_after(glyphs, x, y, k).0 <= x + k * 0x4_0000_0001,
        y - k * 0x4_0000_0001 <= pen_after(glyphs, x, y, k).1 <= y + k * 0x4_0000_0001,
        -k * ADVANCE_MAX <= advance_sum(glyphs, k) <= k * ADVANCE_MAX,
    decreases k,
{
    if k > 0 {
        lemma_pen_after(glyphs, x, y, k - 1);
        let g = glyphs[k - 1];
        assert(g.wf());
        lemma_round_small(g.advance_x as int, 64);
        lemma_round_small(g.advance_y as int, 64);
        assert((k - 1) * 0x4_0000_0001 + 0x4_0000_0001 == k * 0x4_0000_0001) by (nonlinear_arith);
        assert((k - 1) * ADVANCE_MAX + ADVANCE_MAX == k * ADVANCE_MAX) by (nonlinear_arith);
    }
}

/// Returns the width of a text, in 64ths of a pixel: the sum of the horizontal
/// advances of its glyphs.
pub fn string_width(glyphs: &Vec<GlyphBitmap>) -> (w: i64)
    requires
        text_ok(glyphs@),
    ensures
        w == advance_sum(glyphs@, glyphs@.len() as int),
{
    let n = glyphs.len();
    let mut w: i64 = 0;
    let mut i: usize = 0;
    while i < n
        invariant
            i <= n,
            n == glyphs@.len(),
            text_ok(glyphs@),
            w == advance_sum(glyphs@, i as int),
        decreases n - i,
    {
        proof {
            lemma_pen_after(glyphs@, 0, 0, i as int);
            lemma_pen_after(glyphs@, 0, 0, i + 1);
            assert(0 <= (i + 1) * ADVANCE_MAX <= GLYPHS_MAX * ADVANCE_MAX) by (nonlinear_arith)
                requires
                    0 <= i + 1 <= GLYPHS_MAX,
            ;
        }
        w = w + glyphs[i].advance_x;
        i = i + 1;
    }
    w
}

/// Paints a glyph with the pen at `(x, y)`: each row of its bitmap is blended
/// onto the image in the color `color`, each pixel with its coverage.
pub fn draw_glyph<T: Pixel>(
    g: &GlyphBitmap,
    x: i64,
    y: i64,
    color: Rgba8,
    ren_base: &mut RenderingBase<T>,
)
    requires
        old(ren_base).wf(),
        g.wf(),
        -2 * PEN_MAX <= x <= 2 * PEN_MAX,
        -2 * PEN_MAX <= y <= 2 * PEN_MAX,
        color.a == 255 ==> T::can_setn(1),
    ensures
        final(ren_base).wf(),
        same_pixels(
            final(ren_base).pixf.canvas(),
            glyph_painted::<T>(old(ren_base).pixf.canvas(), *g, x as int, y as int, color.channels()),
        ),
{
    let ghost start = ren_base.pixf.canvas();
    let ghost c = color.channels();
    let n = g.buffer.len();
    let mut i: i64 = 0;
    proof {
        lemma_same_pixels_chain(start, start, start);
    }
    while i < g.rows
        invariant
            0 <= i <= g.rows,
            g.wf(),
            n == g.buffer@.len(),
            -2 * PEN_MAX <= x <= 2 * PEN_MAX,
            -2 * PEN_MAX <= y <= 2 * PEN_MAX,
            color.a == 255 ==> T::can_setn(1),
            c == color.channels(),
            start == old(ren_base).pixf.canvas(),
            ren_base.wf(),
            same_pixels(
                ren_base.pixf.canvas(),
                glyph_rows_painted::<T>(start, *g, x as int, y as int, i as int, c),
            ),
        decreases g.rows - i,
    {
        proof {
            assert(0 <= g.pitch * i <= g.pitch * (g.rows - 1)) by (nonlinear_arith)
                requires
                    0 <= i <= g.rows - 1,
                    0 <= g.pitch,
            ;
            lemma_glyph_rows_painted::<T>(start, start, *g, x as int, y as int, i as int, c);
        }
        let from = g.pitch * (i as usize);
        let covers = vstd::slice::slice_subrange(g.buffer.as_slice(), from, n);
        let ghost before = ren_base.pixf.canvas();
        let ghost painted = glyph_rows_painted::<T>(start, *g, x as int, y as int, i as int, c);
        ren_base.blend_solid_hspan(x + g.left, y - g.top + i, g.width, color, covers);
        proof {
            let after = ren_base.pixf.canvas();
            let expected = glyph_rows_painted::<T>(start, *g, x as int, y as int, i + 1, c);
            assert forall|px: int, py: int| after.holds(px, py) implies #[trigger] (after.at)(
                px,
                py,
            ) == (expected.at)(px, py) by {
                assert((before.at)(px, py) == (painted.at)(px, py));
                if g.holds(x as int, y as int, i as int, px, py) {
                    assert(covers@[px - (x + g.left)] == g.cover_at(px - x - g.left, i as int));
                }
            }
        }
        i = i + 1;
    }
}

/// Where the pen starts for a text that is centred on `(x, y)`: half the width
/// of the text to the left and half the height of a line further down, both
/// rounded to whole pixels.
pub open spec fn text_start(glyphs: Seq<GlyphBitmap>, line_height: i64, x: i64, y: i64) -> (
    int,
    int,
) {
    (
        x - round_div(advance_sum(glyphs, glyphs.len() as int), 128),
        y + round_div(line_height as int, 128),
    )
}

/// Draws a text, given as the glyphs of its characters, centred on `(x, y)`.
///
/// `line_height` is the height of a line in 64ths of a pixel. The glyphs are
/// painted one after the other, and each moves the pen by its advance.
pub fn draw_text<T: Pixel>(
    glyphs: &Vec<GlyphBitmap>,
    line_height: i64,
    x: i64,
    y: i64,
    color: Rgba8,
    ren_base: &mut RenderingBase<T>,
)
    requires
        old(ren_base).wf(),
        text_ok(glyphs@),
        -ADVANCE_MAX <= line_height <= ADVANCE_MAX,
        -PEN_MAX <= x <= PEN_MAX,
        -PEN_MAX <= y <= PEN_MAX,
        color.a == 255 ==> T::can_setn(1),
    ensures
        final(ren_base).wf(),
        same_pixels(
            final(ren_base).pixf.canvas(),
            glyphs_painted::<T>(
                old(ren_base).pixf.canvas(),
                glyphs@,
                text_start(glyphs@, line_height, x, y).0,
                text_start(glyphs@, line_height, x, y).1,
                glyphs@.len() as int,
                color.channels(),
            ),
        ),
{
    let width = string_width(glyphs);
    let n = glyphs.len();
    proof {
        lemma_pen_after(glyphs@, 0, 0, n as int);
        assert(0 <= n * ADVANCE_MAX <= GLYPHS_MAX * ADVANCE_MAX) by (nonlinear_arith)
            requires
                0 <= n <= GLYPHS_MAX,
        ;
        lemma_round_small(width as int, 128);
        lemma_round_small(line_height as int, 128);
    }
    let dx = div_round(width as i128, 128);
    let dy = div_round(line_height as i128, 128);
    let x0 = x - dx;
    let y0 = y + dy;
    let ghost start = ren_base.pixf.canvas();
    let ghost c = color.channels();
    let mut px = x0;
    let mut py = y0;
    let mut i: usize = 0;
    proof {
        lemma_same_pixels_chain(start, start, start);
    }
    while i < n
        invariant
            i <= n,
            n == glyphs@.len(),
            text_ok(glyphs@),
            -PEN_MAX - 0x80_0000_0000_0000 <= x0 <= PEN_MAX + 0x80_0000_0000_0000,
            -PEN_MAX - 0x80_0000_0000_0000 <= y0 <= PEN_MAX + 0x80_0000_0000_0000,
            (x0 as int, y0 as int) == text_start(glyphs@, line_height, x, y),
            (px as int, py as int) == pen_after(glyphs@, x0 as int, y0 as int, i as int),
            color.a == 255 ==> T::can_setn(1),
            c == color.channels(),
            start == old(ren_base).pixf.canvas(),
            ren_base.wf(),
            same_pixels(
                ren_base.pixf.canvas(),
                glyphs_painted::<T>(start, glyphs@, x0 as int, y0 as int, i as int, c),
            ),
        decreases n - i,
    {
        let g = &glyphs[i];
        let ghost before = ren_base.pixf.canvas();
        let ghost painted = glyphs_painted::<T>(start, glyphs@, x0 as int, y0 as int, i as int, c);
        proof {
            lemma_pen_after(glyphs@, x0 as int, y0 as int, i as int);
            lemma_pen_after(glyphs@, x0 as int, y0 as int, i + 1);
            assert(0 <= i * 0x4_0000_0001 && (i + 1) * 0x4_0000_0001 <= GLYPHS_MAX * 0x4_0000_0001)
                by (nonlinear_arith)
                requires
                    0 <= i < GLYPHS_MAX,
            ;
            lemma_round_small(g.advance_x as int, 64);
            lemma_round_small(g.advance_y as int, 64);
            lemma_glyph_rows_painted::<T>(before, painted, *g, px as int, py as int, g.rows as int, c);
        }
        draw_glyph(g, px, py, color, ren_base);
        proof {
            lemma_same_pixels_chain(
                ren_base.pixf.canvas(),
                glyph_painted::<T>(before, *g, px as int, py as int, c),
                glyph_painted::<T>(painted, *g, px as int, py as int, c),
            );
        }
        px = px + div_round(g.advance_x as i128, 64);
        py = py + div_round(g.advance_y as i128, 64);
        i = i + 1;
    }
}

/// `freetype::error::Error`, the error of the font library, declared so that it
/// can be carried in a font error. Nothing is claimed of it: it is a value
/// whose contents are not looked at here.
#[verifier::external_type_specification]
#[verifier::external_body]
pub struct ExFreetypeError(freetype::error::Error);

/// A font error.
#[derive(Debug)]
pub enum AggFontError {
    /// An error of the font library.
    Ft(freetype::error::Error),
    /// A font could not be read.
    Io(String),
}

impl From<freetype::error::Error> for AggFontError {
    fn from(err: freetype::error::Error) -> (r: Self) {
        AggFontError::Ft(err)
    }
}

impl vstd::std_specs::convert::FromSpecImpl<freetype::error::Error> for AggFontError {
    open spec fn obeys_from_spec() -> bool {
        true
    }

    open spec fn from_spec(err: freetype::error::Error) -> Self {
        AggFontError::Ft(err)
    }
}

impl From<String> for AggFontError {
    fn from(err: String) -> (r: Self) {
        AggFontError::Io(err)
    }
}

impl vstd::std_specs::convert::FromSpecImpl<String> for AggFontError {
    open spec fn obeys_from_spec() -> bool {
        true
    }

    open spec fn from_spec(err: String) -> Self {
        AggFontError::Io(err)
    }
}

} // verus!
