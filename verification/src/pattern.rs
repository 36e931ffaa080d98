//! Image patterns for lines, and the filter that reads them between pixels.

use crate::color::{Color, Rgba8};
use crate::pixel::{changed, Canvas, Pixel, PixelSource};
use crate::pixfmt::Pixfmt;
use crate::rend::PatternFilterBilinear;
use crate::util::{frac_of, pixel_floor, pixel_frac, pixel_of};
use vstd::prelude::*;

verus! {

/// A channel between four pixels: the channels `a` and `b` of the upper pixels
/// and `c` and `d` of the lower ones, each weighted by how near the point at the
/// offsets `fx` and `fy`, in 256ths of a pixel, lies to it.
pub open spec fn between(a: u8, b: u8, c: u8, d: u8, fx: int, fy: int) -> int {
    ((256 - fx) * (256 - fy) * a + fx * (256 - fy) * b + (256 - fx) * fy * c + fx * fy * d) / 65536
}

/// The color between four pixels, channel by channel.
pub open spec fn color_between(p: Rgba8, q: Rgba8, r: Rgba8, s: Rgba8, fx: int, fy: int) -> Rgba8 {
    Rgba8 {
        r: between(p.r, q.r, r.r, s.r, fx, fy) as u8,
        g: between(p.g, q.g, r.g, s.g, fx, fy) as u8,
        b: between(p.b, q.b, r.b, s.b, fx, fy) as u8,
        a: between(p.a, q.a, r.a, s.a, fx, fy) as u8,
    }
}

/// The color of the pixel `(x, y)` of the pixels of an image with four bytes
/// for a pixel.
pub open spec fn canvas_color(cv: Canvas, x: int, y: int) -> Rgba8 {
    Pixfmt::<Rgba8>::decoded((cv.at)(x, y))
}

/// The color of the pixel `(x, y)` of an image with four bytes for a pixel.
pub open spec fn color_of(pix: &Pixfmt<Rgba8>, x: int, y: int) -> Rgba8 {
    canvas_color(pix.canvas(), x, y)
}

/// A pixel that was set to a color has that color.
pub proof fn lemma_set_color(c: Rgba8)
    ensures
        Pixfmt::<Rgba8>::decoded(Pixfmt::<Rgba8>::encoded(c.channels())) == c,
{
}

/// Returns a channel between four pixels.
fn mix(a: u8, b: u8, c: u8, d: u8, fx: i64, fy: i64) -> (r: u8)
    requires
        0 <= fx <= 255,
        0 <= fy <= 255,
    ensures
        r == between(a, b, c, d, fx as int, fy as int),
{
    assert(0 <= (256 - fx) * (256 - fy) <= 65536 && 0 <= fx * (256 - fy) <= 65536 && 0 <= (256
        - fx) * fy <= 65536 && 0 <= fx * fy <= 65536) by (nonlinear_arith)
        requires
            0 <= fx <= 255,
            0 <= fy <= 255,
    ;
    let w00 = (256 - fx) * (256 - fy);
    let w10 = fx * (256 - fy);
    let w01 = (256 - fx) * fy;
    let w11 = fx * fy;
    assert(0 <= w00 && 0 <= w10 && 0 <= w01 && 0 <= w11 && w00 + w10 + w01 + w11 == 65536)
        by (nonlinear_arith)
        requires
            0 <= fx <= 255,
            0 <= fy <= 255,
            w00 == (256 - fx) * (256 - fy),
            w10 == fx * (256 - fy),
            w01 == (256 - fx) * fy,
            w11 == fx * fy,
    ;
    assert(0 <= w00 * a <= w00 * 255 && 0 <= w10 * b <= w10 * 255 && 0 <= w01 * c <= w01 * 255 && 0
        <= w11 * d <= w11 * 255) by (nonlinear_arith)
        requires
            0 <= w00,
            0 <= w10,
            0 <= w01,
            0 <= w11,
            0 <= a <= 255,
            0 <= b <= 255,
            0 <= c <= 255,
            0 <= d <= 255,
    ;
    let mut sum: i64 = 0;
    sum += w00 * (a as i64);
    sum += w10 * (b as i64);
    sum += w01 * (c as i64);
    sum += w11 * (d as i64);
    assert(0 <= sum <= 65536 * 255);
    assert(sum >> 16 == sum / 65536) by (bit_vector)
        requires
            0 <= sum <= 65536 * 255,
    ;
    (sum >> 16) as u8
}

impl PatternFilterBilinear {
    /// Returns the color of the pixel `(x, y)`.
    pub fn pixel_low_res(&self, pix: &Pixfmt<Rgba8>, x: i64, y: i64) -> (r: Rgba8)
        requires
            pix.wf(),
            pix.canvas().holds(x as int, y as int),
        ensures
            r == color_of(pix, x as int, y as int),
    {
        pix.get((x as usize, y as usize))
    }

    /// Returns the color at the point `(x, y)`, given in sub-pixel units: the
    /// colors of the pixel that holds the point and of its neighbours to the
    /// right and below, weighted by how near the point lies to each.
    pub fn pixel_high_res(&self, pix: &Pixfmt<Rgba8>, x: i64, y: i64) -> (r: Rgba8)
        requires
            pix.wf(),
            0 <= x,
            0 <= y,
            pixel_of(x as int) + 1 < pix.canvas().width,
            pixel_of(y as int) + 1 < pix.canvas().height,
        ensures
            r == color_between(
                color_of(pix, pixel_of(x as int), pixel_of(y as int)),
                color_of(pix, pixel_of(x as int) + 1, pixel_of(y as int)),
                color_of(pix, pixel_of(x as int), pixel_of(y as int) + 1),
                color_of(pix, pixel_of(x as int) + 1, pixel_of(y as int) + 1),
                frac_of(x as int),
                frac_of(y as int),
            ),
    {
        let w = pix.width();
        let h = pix.height();
        let x_lr = pixel_floor(x) as usize;
        let y_lr = pixel_floor(y) as usize;
        let fx = pixel_frac(x);
        let fy = pixel_frac(y);
        let p = pix.get((x_lr, y_lr));
        let q = pix.get((x_lr + 1, y_lr));
        let r = pix.get((x_lr, y_lr + 1));
        let s = pix.get((x_lr + 1, y_lr + 1));
        Rgba8::new(
            mix(p.r, q.r, r.r, s.r, fx, fy),
            mix(p.g, q.g, r.g, s.g, fx, fy),
            mix(p.b, q.b, r.b, s.b, fx, fy),
            mix(p.a, q.a, r.a, s.a, fx, fy),
        )
    }
}

/// The color without any channel: nothing of it is seen.
pub open spec fn no_color() -> Rgba8 {
    Rgba8 { r: 0, g: 0, b: 0, a: 0 }
}

/// The color at the pixel `(x, y)` of the pattern made of an image: the image
/// lies `dil` pixels from the edges, repeats itself to the left and to the
/// right, and has nothing above and below it.
pub open spec fn pattern_color<T: PixelSource>(src: Canvas, dil: int, x: int, y: int) -> Rgba8 {
    if dil <= y < dil + src.height {
        T::decoded((src.at)((x - dil) % (src.width as int), y - dil))
    } else {
        no_color()
    }
}

/// The color at the pixel `(x, y)` of a pattern before it repeats itself: the
/// image lies `dil` pixels from the edges, with nothing around it.
pub open spec fn framed_color<T: PixelSource>(src: Canvas, dil: int, x: int, y: int) -> Rgba8 {
    if dil <= y < dil + src.height && dil <= x < dil + src.width {
        T::decoded((src.at)(x - dil, y - dil))
    } else {
        no_color()
    }
}

/// Columns next to an image of width `w` fall onto columns of the image when
/// they are counted round it.
pub proof fn lemma_wrap(w: int)
    requires
        w >= 1,
    ensures
        forall|c: int| 0 <= c < w ==> #[trigger] (c % w) == c,
        w % w == 0,
        (-1int) % w == w - 1,
        w >= 2 ==> (w + 1) % w == 1 && (-2int) % w == w - 2,
        w == 1 ==> (w + 1) % w == 0 && (-2int) % w == 0,
{
    assert forall|c: int| 0 <= c < w implies #[trigger] (c % w) == c by {
        vstd::arithmetic::div_mod::lemma_small_mod(c as nat, w as nat);
    }
    vstd::arithmetic::div_mod::lemma_fundamental_div_mod_converse(w, w, 1, 0);
    vstd::arithmetic::div_mod::lemma_fundamental_div_mod_converse(-1, w, -1, w - 1);
    if w >= 2 {
        vstd::arithmetic::div_mod::lemma_fundamental_div_mod_converse(w + 1, w, 1, 1);
        vstd::arithmetic::div_mod::lemma_fundamental_div_mod_converse(-2, w, -1, w - 2);
    } else {
        vstd::arithmetic::div_mod::lemma_fundamental_div_mod_converse(w + 1, w, 2, 0);
        vstd::arithmetic::div_mod::lemma_fundamental_div_mod_converse(-2, w, -2, 0);
    }
}

/// The largest width and height of an image that a pattern is made of.
pub const PATTERN_MAX: usize = 0x1000_0000;

/// An image laid out as a pattern for lines.
#[derive(Debug)]
pub struct LineImagePattern {
    /// The pattern: the image with a frame around it.
    pub pix: Pixfmt<Rgba8>,
    /// The filter that reads the pattern.
    pub filter: PatternFilterBilinear,
    /// The width of the frame, in pixels.
    pub dilation: u64,
    /// The width of the frame, in sub-pixel units.
    pub dilation_hr: i64,
    /// The width of the image.
    pub width: u64,
    /// The height of the image.
    pub height: u64,
    /// The width of the image, in sub-pixel units.
    pub width_hr: i64,
    /// Half the height of the image and half a pixel more, in sub-pixel units.
    pub half_height_hr: i64,
    /// The row of the pattern on which the middle of a line falls, in sub-pixel
    /// units.
    pub offset_y_hr: i64,
}

impl LineImagePattern {
    /// Whether the frame is two pixels wide and the pattern holds its pixels.
    pub open spec fn wf(&self) -> bool {
        &&& self.dilation == 2
        &&& self.dilation_hr == 512
        &&& self.pix.wf()
    }

    /// Whether the pattern is that of the image `src`, and as wide.
    pub open spec fn made_of<T: PixelSource>(&self, src: Canvas) -> bool {
        &&& self.holds_image::<T>(src)
        &&& self.width_hr == src.width * 256
    }

    /// Whether the pattern holds the image `src` in its frame.
    pub open spec fn holds_image<T: PixelSource>(&self, src: Canvas) -> bool {
        &&& self.wf()
        &&& self.width == src.width
        &&& self.height == src.height
        &&& self.half_height_hr == (src.height * 256) / 2 + 128
        &&& self.offset_y_hr == 512 + (src.height * 256) / 2 - 128
        &&& self.pix.canvas().width == src.width + 4
        &&& self.pix.canvas().height == src.height + 4
        &&& forall|x: int, y: int|
            self.pix.canvas().holds(x, y) ==> #[trigger] color_of(&self.pix, x, y)
                == pattern_color::<T>(src, 2, x, y)
    }

    /// Creates a pattern without an image.
    pub fn new(filter: PatternFilterBilinear) -> (r: Self)
        ensures
            r.wf(),
            r.width == 0,
            r.height == 0,
            r.width_hr == 0,
            r.half_height_hr == 0,
            r.offset_y_hr == 0,
            r.pix.canvas().width == 1,
            r.pix.canvas().height == 1,
    {
        let dilation = filter.dilation() + 1;
        let dilation_hr: i64 = 512;
        Self {
            filter,
            dilation,
            dilation_hr,
            width: 0,
            height: 0,
            width_hr: 0,
            half_height_hr: 0,
            offset_y_hr: 0,
            pix: Pixfmt::new(1, 1),
        }
    }

    /// Makes the pattern of the image `src`: the image gets a frame of two
    /// pixels, empty above and below it, and to the left and to the right the
    /// columns that continue the image when it is repeated.
    pub fn create<T: PixelSource>(&mut self, src: &T)
        requires
            old(self).wf(),
            src.wf(),
            0 < src.canvas().width <= PATTERN_MAX,
            0 < src.canvas().height <= PATTERN_MAX,
            (src.canvas().width + 4) * (src.canvas().height + 4) * 4 <= usize::MAX,
        ensures
            final(self).made_of::<T>(src.canvas()),
    {
        let w = src.width();
        let h = src.height();
        self.height = h as u64;
        self.width = w as u64;
        self.width_hr = w as i64 * 256;
        self.half_height_hr = h as i64 * 256 / 2;
        self.offset_y_hr = self.dilation_hr + self.half_height_hr - 128;
        self.half_height_hr += 128;
        let mut pix = Pixfmt::<Rgba8>::new(w + 4, h + 4);
        copy_image(&mut pix, src);
        let ghost copied = pix.canvas();
        clear_rows(&mut pix, src);
        proof {
            let cleared = pix.canvas();
            lemma_set_color(Rgba8 { r: 0, g: 0, b: 0, a: 0 });
            assert forall|px: int, py: int| cleared.holds(px, py) implies #[trigger] canvas_color(
                cleared,
                px,
                py,
            ) == framed_color::<T>(src.canvas(), 2, px, py) by {
                assert(copied.holds(px, py));
                assert(canvas_color(copied, px, py) == framed_color::<T>(src.canvas(), 2, px, py));
                if !beside_rows(w as int, h as int, px, py) {
                    assert((cleared.at)(px, py) == (copied.at)(px, py));
                }
            }
        }
        repeat_columns(&mut pix, src);
        self.pix = pix;
    }

    /// Returns the width of the pattern, in sub-pixel units.
    pub fn pattern_width(&self) -> (r: i64)
        ensures
            r == self.width_hr,
    {
        self.width_hr
    }

    /// Returns half the width of a line drawn with the pattern, in sub-pixel
    /// units.
    pub fn line_width(&self) -> (r: i64)
        ensures
            r == self.half_height_hr,
    {
        self.half_height_hr
    }

    /// Returns the width of a line drawn with the pattern, in pixels: the height
    /// of the image.
    pub fn width(&self) -> (r: u64)
        ensures
            r == self.height,
    {
        self.height
    }
}

/// The smallest number of the form 1, 3, 7, 15, ... from `m` on that is no
/// smaller than `w`; `m` itself is of that form.
pub open spec fn ones_up_to(m: int, w: int) -> int
    decreases
            (if w > m {
                w - m
            } else {
                0
            }),
{
    if m >= w || m < 1 {
        m
    } else {
        ones_up_to(2 * m + 1, w)
    }
}

/// The numbers 1, 3, 7, 15, ... grow to no more than twice what they have to
/// reach, and stay odd.
pub proof fn lemma_ones_up_to(m: int, w: int)
    requires
        1 <= m,
        m % 2 == 1,
        m <= 2 * w - 1 || m == 1,
    ensures
        ones_up_to(m, w) % 2 == 1,
        1 <= ones_up_to(m, w),
        ones_up_to(m, w) >= w,
        ones_up_to(m, w) <= 2 * w - 1 || ones_up_to(m, w) == 1,
    decreases
            (if w > m {
                w - m
            } else {
                0
            }),
{
    if m < w {
        lemma_ones_up_to(2 * m + 1, w);
    }
}

/// An image laid out as a pattern for lines that repeats after a power of two
/// of sub-pixel units.
#[derive(Debug)]
pub struct LineImagePatternPow2 {
    /// The pattern.
    pub base: LineImagePattern,
    /// The bits of a position that count along the pattern.
    pub mask: u64,
}

impl LineImagePatternPow2 {
    /// Whether the pattern is that of the image `src`, with a period that is the
    /// power of two next to the width of the image.
    pub open spec fn made_of<T: PixelSource>(&self, src: Canvas) -> bool {
        &&& self.base.holds_image::<T>(src)
        &&& self.mask == 128 * ones_up_to(1, src.width as int) + 127
        &&& self.base.width_hr == self.mask + 1
    }

    /// Whether the pattern can be read: every position along a line falls
    /// inside it, with the column to its right.
    pub open spec fn ready(&self) -> bool {
        &&& self.base.wf()
        &&& self.mask <= 0x7FFF_FFFF_FFFF
        &&& pixel_of(self.mask + 512) + 1 < self.base.pix.canvas().width
        &&& self.base.pix.canvas().height <= PATTERN_MAX + 4
    }

    /// Creates a pattern without an image.
    pub fn new(filter: PatternFilterBilinear) -> (r: Self)
        ensures
            r.base.wf(),
            r.base.width == 0,
            r.base.height == 0,
            r.mask == 255,
    {
        let base = LineImagePattern::new(filter);
        Self { base, mask: 255 }
    }

    /// Makes the pattern of the image `src`.
    pub fn create<T: PixelSource>(&mut self, src: &T)
        requires
            old(self).base.wf(),
            src.wf(),
            0 < src.canvas().width <= PATTERN_MAX,
            0 < src.canvas().height <= PATTERN_MAX,
            (src.canvas().width + 4) * (src.canvas().height + 4) * 4 <= usize::MAX,
        ensures
            final(self).made_of::<T>(src.canvas()),
            final(self).ready(),
    {
        self.base.create(src);
        let width = self.base.width;
        let mut mask: u64 = 1;
        proof {
            lemma_ones_up_to(1, width as int);
        }
        while mask < width
            invariant
                1 <= mask,
                mask % 2 == 1,
                mask <= 2 * width - 1 || mask == 1,
                width <= PATTERN_MAX,
                ones_up_to(mask as int, width as int) == ones_up_to(1, width as int),
            decreases
                    (if width > mask {
                        width - mask
                    } else {
                        0
                    }),
        {
            assert(((mask << 1) | 1) == 2 * mask + 1) by (bit_vector)
                requires
                    mask <= 0x2000_0000,
            ;
            mask <<= 1;
            mask |= 1;
        }
        assert(((mask << 7) | 255) == 128 * mask + 127) by (bit_vector)
            requires
                mask <= 0x2000_0000,
                mask % 2 == 1,
        ;
        mask <<= 7;
        mask |= 255;
        self.mask = mask;
        self.base.width_hr = (mask + 1) as i64;
    }

    /// Returns the width of the pattern, in sub-pixel units.
    pub fn pattern_width(&self) -> (r: i64)
        ensures
            r == self.base.width_hr,
    {
        self.base.width_hr
    }

    /// Returns half the width of a line drawn with the pattern, in sub-pixel
    /// units.
    pub fn line_width(&self) -> (r: i64)
        ensures
            r == self.base.half_height_hr,
    {
        self.base.half_height_hr
    }

    /// Returns the width of a line drawn with the pattern, in pixels: the height
    /// of the image.
    pub fn width(&self) -> (r: u64)
        ensures
            r == self.base.height,
    {
        self.base.height
    }

    /// Where the position `(x, y)` of a line falls in the pattern, in sub-pixel
    /// units: `x` is counted round the pattern and `y` from the middle of the
    /// line.
    pub open spec fn place(&self, x: i64, y: i64) -> (int, int) {
        ((x & (self.mask as i64)) + self.base.dilation_hr, y + self.base.offset_y_hr)
    }

    /// Whether the row `y` of a line, counted from its middle, falls inside the
    /// pattern with the row below it.
    pub open spec fn holds_row(&self, y: i64) -> bool {
        &&& 0 <= y + self.base.offset_y_hr
        &&& pixel_of(y + self.base.offset_y_hr) + 1 < self.base.pix.canvas().height
    }

    /// The color of the pattern at the position `(x, y)` of a line: the color
    /// between the four pixels round the place where the position falls in the
    /// pattern.
    pub open spec fn color_at(&self, x: i64, y: i64) -> Rgba8 {
        color_between(
            color_of(&self.base.pix, pixel_of(self.place(x, y).0), pixel_of(self.place(x, y).1)),
            color_of(&self.base.pix, pixel_of(self.place(x, y).0) + 1, pixel_of(self.place(x, y).1)),
            color_of(&self.base.pix, pixel_of(self.place(x, y).0), pixel_of(self.place(x, y).1) + 1),
            color_of(
                &self.base.pix,
                pixel_of(self.place(x, y).0) + 1,
                pixel_of(self.place(x, y).1) + 1,
            ),
            frac_of(self.place(x, y).0),
            frac_of(self.place(x, y).1),
        )
    }

    /// Returns the color of the pattern at the position `(x, y)` of a line, `x`
    /// along the line and `y` across it from its middle, both in sub-pixel
    /// units.
    pub fn pixel(&self, x: i64, y: i64) -> (r: Rgba8)
        requires
            self.ready(),
            self.holds_row(y),
        ensures
            r == self.color_at(x, y),
    {
        let m = self.mask as i64;
        assert(0 <= (x & m) <= m) by (bit_vector)
            requires
                0 <= m,
        ;
        self.base.filter.pixel_high_res(
            &self.base.pix,
            (x & m) + self.base.dilation_hr,
            y + self.base.offset_y_hr,
        )
    }
}

/// Copies the image `src` into the pattern `pix`, two pixels from its edges.
fn copy_image<T: PixelSource>(pix: &mut Pixfmt<Rgba8>, src: &T)
    requires
        src.wf(),
        old(pix).wf(),
        old(pix).canvas().width == src.canvas().width + 4,
        old(pix).canvas().height == src.canvas().height + 4,
        old(pix).rbuf.data@ == Seq::new(old(pix).rbuf.data@.len(), |i: int| 0u8),
    ensures
        final(pix).wf(),
        final(pix).canvas().width == old(pix).canvas().width,
        final(pix).canvas().height == old(pix).canvas().height,
        forall|px: int, py: int|
            final(pix).canvas().holds(px, py) ==> #[trigger] canvas_color(final(pix).canvas(), px, py)
                == framed_color::<T>(src.canvas(), 2, px, py),
{
    let w = src.width();
    let h = src.height();
    let ghost cv = src.canvas();
    proof {
        let start = pix.canvas();
        assert forall|x: int, y: int| start.holds(x, y) implies #[trigger] canvas_color(
            start,
            x,
            y,
        ) == no_color() by {
            lemma_new_is_blank(pix, x, y);
        }
    }
    let mut y: usize = 0;
    while y < h
        invariant
            y <= h,
            w == cv.width,
            h == cv.height,
            cv == src.canvas(),
            src.wf(),
            pix.wf(),
            pix.canvas().width == w + 4,
            pix.canvas().height == h + 4,
            forall|px: int, py: int|
                pix.canvas().holds(px, py) ==> #[trigger] canvas_color(pix.canvas(), px, py) == (
                if py - 2 < y {
                    framed_color::<T>(cv, 2, px, py)
                } else {
                    no_color()
                }),
        decreases h - y,
    {
        let mut x: usize = 0;
        while x < w
            invariant
                y < h,
                x <= w,
                w == cv.width,
                h == cv.height,
                cv == src.canvas(),
                src.wf(),
                pix.wf(),
                pix.canvas().width == w + 4,
                pix.canvas().height == h + 4,
                forall|px: int, py: int|
                    pix.canvas().holds(px, py) ==> #[trigger] canvas_color(pix.canvas(), px, py)
                        == (if py - 2 < y || (py - 2 == y && px - 2 < x) {
                        framed_color::<T>(cv, 2, px, py)
                    } else {
                        no_color()
                    }),
            decreases w - x,
        {
            let c = src.get((x, y));
            let ghost before = pix.canvas();
            pix.set((2 + x, 2 + y), c);
            proof {
                let after = pix.canvas();
                lemma_set_color(c);
                assert forall|px: int, py: int| after.holds(px, py) implies (#[trigger] canvas_color(
                    after,
                    px,
                    py,
                )) == (if py - 2 < y || (py - 2 == y && px - 2 < x + 1) {
                    framed_color::<T>(cv, 2, px, py)
                } else {
                    no_color()
                }) by {
                    assert(before.holds(px, py));
                    let was = canvas_color(before, px, py);
                    if px == 2 + x && py == 2 + y {
                        assert((after.at)(px, py) == Pixfmt::<Rgba8>::encoded(c.channels()));
                    } else {
                        assert((after.at)(px, py) == (before.at)(px, py));
                    }
                }
            }
            x = x + 1;
        }
        y = y + 1;
    }
}

/// Whether the pixel `(px, py)` of a pattern lies above or below an image of
/// `w` columns and `h` rows, in one of its columns and in one of the two rows
/// next to it on either side.
pub open spec fn beside_rows(w: int, h: int, px: int, py: int) -> bool {
    2 <= px < 2 + w && (0 <= py < 2 || 2 + h <= py < 4 + h)
}

/// Sets the pixels of the two rows above and of the two rows below the image in
/// the pattern, in the columns of the image, to no color.
fn clear_rows<T: PixelSource>(pix: &mut Pixfmt<Rgba8>, src: &T)
    requires
        src.wf(),
        old(pix).wf(),
        old(pix).canvas().width == src.canvas().width + 4,
        old(pix).canvas().height == src.canvas().height + 4,
    ensures
        final(pix).wf(),
        changed(
            old(pix).canvas(),
            final(pix).canvas(),
            |px: int, py: int|
                beside_rows(src.canvas().width as int, src.canvas().height as int, px, py),
            |px: int, py: int, p: Seq<u8>| Pixfmt::<Rgba8>::encoded((0u8, 0u8, 0u8, 0u8)),
        ),
{
    let w = src.width();
    let h = src.height();
    let ghost start = pix.canvas();
    let none = Rgba8::new(0, 0, 0, 0);
    let dill: usize = 2;
    let mut y: usize = 0;
    while y < dill
        invariant
            y <= dill,
            dill == 2,
            none.channels() == (0u8, 0u8, 0u8, 0u8),
            w == src.canvas().width,
            h == src.canvas().height,
            start == old(pix).canvas(),
            start.width == w + 4,
            start.height == h + 4,
            pix.wf(),
            changed(
                start,
                pix.canvas(),
                |px: int, py: int| 2 <= px < 2 + w && (2 - y <= py < 2 || 2 + h <= py < 2 + h + y),
                |px: int, py: int, p: Seq<u8>| Pixfmt::<Rgba8>::encoded((0u8, 0u8, 0u8, 0u8)),
            ),
        decreases dill - y,
    {
        let (x1, y1) = (dill, dill + y + h);
        let (x2, y2) = (dill, dill - y - 1);
        let mut x: usize = 0;
        while x < w
            invariant
                x <= w,
                y < dill,
                dill == 2,
                x1 == 2,
                x2 == 2,
                y1 == 2 + y + h,
                y2 == 1 - y,
                none.channels() == (0u8, 0u8, 0u8, 0u8),
                w == src.canvas().width,
                h == src.canvas().height,
                start == old(pix).canvas(),
                start.width == w + 4,
                start.height == h + 4,
                pix.wf(),
                changed(
                    start,
                    pix.canvas(),
                    |px: int, py: int|
                        2 <= px < 2 + w && ((2 - y <= py < 2 || 2 + h <= py < 2 + h + y) || ((py
                            == 2 + h + y || py == 1 - y) && px < 2 + x)),
                    |px: int, py: int, p: Seq<u8>| Pixfmt::<Rgba8>::encoded((0u8, 0u8, 0u8, 0u8)),
                ),
            decreases w - x,
        {
            let ghost before = pix.canvas();
            pix.set((x1 + x, y1), none);
            let ghost between = pix.canvas();
            pix.set((x2 + x, y2), none);
            proof {
                let after = pix.canvas();
                assert forall|px: int, py: int| start.holds(px, py) implies #[trigger] (after.at)(
                    px,
                    py,
                ) == (if 2 <= px < 2 + w && ((2 - y <= py < 2 || 2 + h <= py < 2 + h + y) || ((py
                    == 2 + h + y || py == 1 - y) && px < 2 + (x + 1))) {
                    Pixfmt::<Rgba8>::encoded((0u8, 0u8, 0u8, 0u8))
                } else {
                    (start.at)(px, py)
                }) by {
                    assert(before.holds(px, py));
                    assert(between.holds(px, py));
                    if px == x2 + x && py == y2 {
                        assert((after.at)(px, py) == Pixfmt::<Rgba8>::encoded(none.channels()));
                    } else if px == x1 + x && py == y1 {
                        assert((after.at)(px, py) == (between.at)(px, py));
                        assert((between.at)(px, py) == Pixfmt::<Rgba8>::encoded(none.channels()));
                    } else {
                        assert((after.at)(px, py) == (between.at)(px, py));
                        assert((between.at)(px, py) == (before.at)(px, py));
                    }
                }
            }
            x = x + 1;
        }
        y = y + 1;
    }
}

/// Fills the two columns to the right of the image in the pattern with its
/// first columns and the two columns to the left of it with its last ones, so
/// that the image continues round its sides.
fn repeat_columns<T: PixelSource>(pix: &mut Pixfmt<Rgba8>, src: &T)
    requires
        src.wf(),
        src.canvas().width > 0,
        old(pix).wf(),
        old(pix).canvas().width == src.canvas().width + 4,
        old(pix).canvas().height == src.canvas().height + 4,
        forall|px: int, py: int|
            old(pix).canvas().holds(px, py) ==> #[trigger] canvas_color(old(pix).canvas(), px, py)
                == framed_color::<T>(src.canvas(), 2, px, py),
    ensures
        final(pix).wf(),
        final(pix).canvas().width == old(pix).canvas().width,
        final(pix).canvas().height == old(pix).canvas().height,
        forall|px: int, py: int|
            final(pix).canvas().holds(px, py) ==> #[trigger] canvas_color(final(pix).canvas(), px, py)
                == pattern_color::<T>(src.canvas(), 2, px, py),
{
    let w = src.width();
    let h = src.height();
    let ghost cv = src.canvas();
    let rows = pix.height();
    let mut y: usize = 0;
    while y < rows
        invariant
            y <= rows,
            rows == h + 4,
            w == cv.width,
            h == cv.height,
            w > 0,
            pix.wf(),
            pix.canvas().width == w + 4,
            pix.canvas().height == h + 4,
            forall|px: int, py: int|
                pix.canvas().holds(px, py) ==> #[trigger] canvas_color(pix.canvas(), px, py) == (
                if py < y {
                    pattern_color::<T>(cv, 2, px, py)
                } else {
                    framed_color::<T>(cv, 2, px, py)
                }),
        decreases rows - y,
    {
        let sx1: usize = 2;
        let sx2: usize = 2 + w;
        let dx1 = sx2;
        let dx2 = sx1;
        let mut x: usize = 0;
        proof {
            lemma_wrap(w as int);
            let now = pix.canvas();
            assert forall|px: int| 2 <= px < 2 + w implies framed_color::<T>(cv, 2, px, y as int)
                == pattern_color::<T>(cv, 2, px, y as int) by {
                assert((px - 2) % (w as int) == px - 2);
            }
        }
        while x < 2
            invariant
                x <= 2,
                y < rows,
                rows == h + 4,
                sx1 == 2,
                sx2 == 2 + w,
                dx1 == sx2,
                dx2 == sx1,
                w == cv.width,
                h == cv.height,
                w > 0,
                pix.wf(),
                pix.canvas().width == w + 4,
                pix.canvas().height == h + 4,
                forall|px: int, py: int|
                    pix.canvas().holds(px, py) ==> #[trigger] canvas_color(pix.canvas(), px, py)
                        == (if py < y || (py == y && (2 <= px < 2 + w || 2 + w <= px < 2 + w + x || 2
                        - x <= px < 2)) {
                        pattern_color::<T>(cv, 2, px, py)
                    } else {
                        framed_color::<T>(cv, 2, px, py)
                    }),
            decreases 2 - x,
        {
            let ghost before = pix.canvas();
            proof {
                lemma_wrap(w as int);
                lemma_turns::<T>(cv, w as int, x as int, y as int, before);
            }
            let c1 = pix.get((sx1 + x, y));
            assert(c1 == canvas_color(before, 2 + x, y as int));
            pix.set((dx1 + x, y), c1);
            let ghost between = pix.canvas();
            let c2 = pix.get((sx2 - x - 1, y));
            proof {
                assert((between.at)(1 + w - x, y as int) == (before.at)(1 + w - x, y as int));
                assert(c2 == canvas_color(before, 1 + w - x, y as int));
            }
            pix.set((dx2 - x - 1, y), c2);
            proof {
                let after = pix.canvas();
                lemma_set_color(c1);
                lemma_set_color(c2);
                assert forall|px: int, py: int| after.holds(px, py) implies (#[trigger] canvas_color(
                    after,
                    px,
                    py,
                )) == (if py < y || (py == y && (2 <= px < 2 + w || 2 + w <= px < 2 + w + x + 1 || 2
                    - (x + 1) <= px < 2)) {
                    pattern_color::<T>(cv, 2, px, py)
                } else {
                    framed_color::<T>(cv, 2, px, py)
                }) by {
                    assert(before.holds(px, py));
                    assert(between.holds(px, py));
                    let was = canvas_color(before, px, py);
                    if px == 1 - x && py == y {
                        assert((after.at)(px, py) == Pixfmt::<Rgba8>::encoded(c2.channels()));
                    } else if px == 2 + w + x && py == y {
                        assert((after.at)(px, py) == (between.at)(px, py));
                        assert((between.at)(px, py) == Pixfmt::<Rgba8>::encoded(c1.channels()));
                    } else {
                        assert((after.at)(px, py) == (between.at)(px, py));
                        assert((between.at)(px, py) == (before.at)(px, py));
                    }
                }
            }
            x = x + 1;
        }
        y = y + 1;
    }
}

/// What the columns next to the image are filled from holds what they are to
/// hold: while the columns of row `y` are being repeated, with `x` of them done
/// on each side, the column `x` of the image and the column `x` from its end
/// are those that continue the image on the other side.
proof fn lemma_turns<T: PixelSource>(cv: Canvas, w: int, x: int, y: int, now: Canvas)
    requires
        w == cv.width,
        w >= 1,
        0 <= x < 2,
        now.width == w + 4,
        0 <= y < now.height,
        forall|px: int, py: int|
            now.holds(px, py) ==> #[trigger] canvas_color(now, px, py) == (if py < y || (py == y && (2
                <= px < 2 + w || 2 + w <= px < 2 + w + x || 2 - x <= px < 2)) {
                pattern_color::<T>(cv, 2, px, py)
            } else {
                framed_color::<T>(cv, 2, px, py)
            }),
    ensures
        canvas_color(now, 2 + x, y) == pattern_color::<T>(cv, 2, 2 + w + x, y),
        canvas_color(now, 1 + w - x, y) == pattern_color::<T>(cv, 2, 1 - x, y),
{
    lemma_wrap(w);
    assert(now.holds(2 + x, y));
    assert(now.holds(1 + w - x, y));
    let a = canvas_color(now, 2 + x, y);
    let b = canvas_color(now, 1 + w - x, y);
    assert((w + x) % w == x % w) by {
        vstd::arithmetic::div_mod::lemma_mod_add_multiples_vanish(x, w);
    }
    assert((-1 - x) % w == (w - 1 - x) % w) by {
        vstd::arithmetic::div_mod::lemma_mod_add_multiples_vanish(-1 - x, w);
    }
    if x < w {
        assert(x % w == x);
    }
    if w - 1 - x >= 0 {
        assert((w - 1 - x) % w == w - 1 - x);
    }
}

/// Every pixel of a new image is without color.
pub proof fn lemma_new_is_blank(pix: &Pixfmt<Rgba8>, x: int, y: int)
    requires
        pix.wf(),
        pix.canvas().holds(x, y),
        pix.rbuf.data@ == Seq::new(pix.rbuf.data@.len(), |i: int| 0u8),
    ensures
        color_of(pix, x, y) == no_color(),
{
    pix.lemma_bytes(x, y, 0);
    pix.lemma_bytes(x, y, 1);
    pix.lemma_bytes(x, y, 2);
    pix.lemma_bytes(x, y, 3);
}

} // verus!
