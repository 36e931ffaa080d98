//! The rendering base: an image together with the clipping of what is drawn
//! onto it.

use crate::color::Color;
use crate::pixel::{changed, color_put, covered, span_cover, Pixel, PixelSource};
use vstd::prelude::*;

verus! {

/// An image that clips what is drawn onto it.
#[derive(Clone, Debug)]
pub struct RenderingBase<T> {
    /// The image.
    pub pixf: T,
}

/// The smaller of two integers.
pub open spec fn min2(a: int, b: int) -> int {
    if a <= b {
        a
    } else {
        b
    }
}

/// The larger of two integers.
pub open spec fn max2(a: int, b: int) -> int {
    if a >= b {
        a
    } else {
        b
    }
}

/// The number of pixels of the row from column `x1` to column `x2` that lie
/// inside an image `width` pixels wide.
pub open spec fn clipped_len(x1: int, x2: int, width: int) -> int {
    min2(max2(x1, x2), width - 1) - max2(min2(x1, x2), 0) + 1
}

impl<T: Pixel> RenderingBase<T> {
    /// Whether the image is well formed and its size is a value of type `i64`.
    pub open spec fn wf(&self) -> bool {
        &&& self.pixf.wf()
        &&& self.pixf.canvas().width <= i64::MAX
        &&& self.pixf.canvas().height <= i64::MAX
    }

    /// Creates a rendering base for an image.
    pub fn new(pixf: T) -> (r: RenderingBase<T>)
        ensures
            r.pixf == pixf,
    {
        RenderingBase { pixf }
    }

    /// Returns the bytes of the image, row after row.
    pub fn as_bytes(&self) -> (r: &[u8])
        ensures
            r@ == self.pixf.bytes(),
    {
        self.pixf.as_bytes()
    }

    /// Sets every pixel to a color.
    pub fn clear<C: Color>(&mut self, color: C)
        requires
            old(self).pixf.wf(),
        ensures
            final(self).pixf.wf(),
            changed(
                old(self).pixf.canvas(),
                final(self).pixf.canvas(),
                |x: int, y: int| true,
                |x: int, y: int, p: Seq<u8>| T::encoded(color.channels()),
            ),
    {
        self.pixf.fill(color);
    }

    /// Returns the smallest and largest column and the smallest and largest row
    /// of the image.
    pub fn limits(&self) -> (r: (i64, i64, i64, i64))
        requires
            self.wf(),
        ensures
            r.0 == 0,
            r.1 == self.pixf.canvas().width - 1,
            r.2 == 0,
            r.3 == self.pixf.canvas().height - 1,
    {
        let w = self.pixf.width() as i64;
        let h = self.pixf.height() as i64;
        (0, w - 1, 0, h - 1)
    }

    /// Puts a color with the coverage `cover` on the pixels of row `y` from
    /// column `x1` to column `x2`, as far as they lie inside the image.
    pub fn blend_hline<C: Color>(&mut self, x1: i64, y: i64, x2: i64, c: C, cover: u64)
        requires
            old(self).wf(),
            c.channels().3 == 255 && cover == 255 && 0 <= y < old(self).pixf.canvas().height
                && min2(x1 as int, x2 as int) < old(self).pixf.canvas().width && max2(
                x1 as int,
                x2 as int,
            ) >= 0 ==> old(self).pixf.canvas().width > 0 && T::can_setn(
                clipped_len(x1 as int, x2 as int, old(self).pixf.canvas().width as int),
            ),
        ensures
            final(self).wf(),
            changed(
                old(self).pixf.canvas(),
                final(self).pixf.canvas(),
                |px: int, py: int| min2(x1 as int, x2 as int) <= px <= max2(x1 as int, x2 as int) && py == y,
                |px: int, py: int, p: Seq<u8>|
                    covered(
                        p,
                        c.channels().3,
                        cover,
                        T::encoded(c.channels()),
                        T::blended(p, c.channels(), cover),
                    ),
            ),
    {
        let ghost n = clipped_len(x1 as int, x2 as int, self.pixf.canvas().width as int);
        let (xmin, xmax, ymin, ymax) = self.limits();
        let (x1, x2) = if x2 > x1 {
            (x1, x2)
        } else {
            (x2, x1)
        };
        if y > ymax || y < ymin || x1 > xmax || x2 < xmin {
            return ;
        }
        let x1 = if x1 > xmin {
            x1
        } else {
            xmin
        };
        let x2 = if x2 < xmax {
            x2
        } else {
            xmax
        };
        assert(n == x2 - x1 + 1);
        assert(c.channels().3 == 255 && cover == 255 ==> x1 < self.pixf.canvas().width);
        assert(c.channels().3 == 255 && cover == 255 ==> T::can_setn((x2 - x1 + 1) as int));
        self.pixf.blend_hline(x1, y, x2 - x1 + 1, c, cover);
    }

    /// Puts a color on the pixels of row `y` from column `x` on, each with its
    /// own coverage, as far as they lie inside the image.
    pub fn blend_solid_hspan<C: Color>(&mut self, x: i64, y: i64, len: i64, c: C, covers: &[u64])
        requires
            old(self).wf(),
            0 <= len <= covers@.len(),
            i64::MIN < x,
            x + len <= i64::MAX,
            c.channels().3 == 255 ==> T::can_setn(1),
        ensures
            final(self).wf(),
            changed(
                old(self).pixf.canvas(),
                final(self).pixf.canvas(),
                |px: int, py: int| x <= px < x + len && py == y,
                |px: int, py: int, p: Seq<u8>|
                    covered(
                        p,
                        c.channels().3,
                        covers@[px - x],
                        T::encoded(c.channels()),
                        T::blended(p, c.channels(), covers@[px - x]),
                    ),
            ),
    {
        let (xmin, xmax, ymin, ymax) = self.limits();
        let _n = covers.len();
        if y > ymax || y < ymin {
            return ;
        }
        let (mut x, mut len, mut off): (i64, i64, i64) = (x, len, 0);
        if x < xmin {
            len = len - (xmin - x);
            if len <= 0 {
                return ;
            }
            off = off + xmin - x;
            x = xmin;
        }
        if x + len > xmax {
            len = xmax - x + 1;
            if len <= 0 {
                return ;
            }
        }
        let covers_win = vstd::slice::slice_subrange(covers, off as usize, (off + len) as usize);
        self.pixf.blend_solid_hspan(x, y, len, c, covers_win);
    }

    /// Puts a color on the pixels of column `x` from row `y` on, each with its
    /// own coverage, as far as they lie inside the image.
    pub fn blend_solid_vspan<C: Color>(&mut self, x: i64, y: i64, len: i64, c: C, covers: &[u64])
        requires
            old(self).wf(),
            0 <= len <= covers@.len(),
            i64::MIN < y,
            y + len <= i64::MAX,
        ensures
            final(self).wf(),
            changed(
                old(self).pixf.canvas(),
                final(self).pixf.canvas(),
                |px: int, py: int| y <= py < y + len && px == x,
                |px: int, py: int, p: Seq<u8>|
                    covered(
                        p,
                        c.channels().3,
                        covers@[py - y],
                        T::encoded(c.channels()),
                        T::blended(p, c.channels(), covers@[py - y]),
                    ),
            ),
    {
        let (xmin, xmax, ymin, ymax) = self.limits();
        let _n = covers.len();
        if x > xmax || x < xmin {
            return ;
        }
        let (mut y, mut len, mut off): (i64, i64, i64) = (y, len, 0);
        if y < ymin {
            len = len - (ymin - y);
            if len <= 0 {
                return ;
            }
            off = off + ymin - y;
            y = ymin;
        }
        if y + len > ymax {
            len = ymax - y + 1;
            if len <= 0 {
                return ;
            }
        }
        let covers_win = vstd::slice::slice_subrange(covers, off as usize, (off + len) as usize);
        self.pixf.blend_solid_vspan(x, y, len, c, covers_win);
    }

    /// Puts a color of its own on each pixel of column `x` from row `y` on, as
    /// far as they lie inside the image. The coverage of a pixel is its entry in
    /// `covers`, or `cover` if `covers` is empty.
    pub fn blend_color_vspan<C: Color>(
        &mut self,
        x: i64,
        y: i64,
        len: i64,
        colors: &[C],
        covers: &[u64],
        cover: u64,
    )
        requires
            old(self).wf(),
            0 <= len <= colors@.len(),
            covers@.len() == 0 || len <= covers@.len(),
            i64::MIN < y,
            y + len <= i64::MAX,
        ensures
            final(self).wf(),
            changed(
                old(self).pixf.canvas(),
                final(self).pixf.canvas(),
                |px: int, py: int| y <= py < y + len && px == x,
                |px: int, py: int, p: Seq<u8>|
                    color_put(
                        p,
                        colors@[py - y].channels().3,
                        span_cover(covers@, cover, py - y),
                        covers@.len() == 0 && cover == 255,
                        T::encoded(colors@[py - y].channels()),
                        T::blended(p, colors@[py - y].channels(), span_cover(covers@, cover, py - y)),
                    ),
            ),
    {
        let (xmin, xmax, ymin, ymax) = self.limits();
        let _n = covers.len();
        if x > xmax || x < xmin {
            return ;
        }
        let (mut y, mut len, mut off): (i64, i64, i64) = (y, len, 0);
        if y < ymin {
            len = len - (ymin - y);
            if len <= 0 {
                return ;
            }
            off = off + ymin - y;
            y = ymin;
        }
        if y + len > ymax {
            len = ymax - y + 1;
            if len <= 0 {
                return ;
            }
        }
        let covers_win = if covers.is_empty() {
            vstd::slice::slice_subrange(covers, 0, 0)
        } else {
            vstd::slice::slice_subrange(covers, off as usize, (off + len) as usize)
        };
        let _m = colors.len();
        let colors_win = vstd::slice::slice_subrange(colors, off as usize, (off + len) as usize);
        self.pixf.blend_color_vspan(x, y, len, colors_win, covers_win, cover);
    }

    /// Puts a color of its own on each pixel of row `y` from column `x` on, as
    /// far as they lie inside the image. The coverage of a pixel is its entry in
    /// `covers`, or `cover` if `covers` is empty.
    pub fn blend_color_hspan<C: Color>(
        &mut self,
        x: i64,
        y: i64,
        len: i64,
        colors: &[C],
        covers: &[u64],
        cover: u64,
    )
        requires
            old(self).wf(),
            0 <= len <= colors@.len(),
            covers@.len() == 0 || len <= covers@.len(),
            i64::MIN < x,
            x + len <= i64::MAX,
        ensures
            final(self).wf(),
            changed(
                old(self).pixf.canvas(),
                final(self).pixf.canvas(),
                |px: int, py: int| x <= px < x + len && py == y,
                |px: int, py: int, p: Seq<u8>|
                    color_put(
                        p,
                        colors@[px - x].channels().3,
                        span_cover(covers@, cover, px - x),
                        covers@.len() == 0 && cover == 255,
                        T::encoded(colors@[px - x].channels()),
                        T::blended(p, colors@[px - x].channels(), span_cover(covers@, cover, px - x)),
                    ),
            ),
    {
        let (xmin, xmax, ymin, ymax) = self.limits();
        let _n = covers.len();
        if y > ymax || y < ymin {
            return ;
        }
        let (mut x, mut len, mut off): (i64, i64, i64) = (x, len, 0);
        if x < xmin {
            len = len - (xmin - x);
            if len <= 0 {
                return ;
            }
            off = off + xmin - x;
            x = xmin;
        }
        if x + len > xmax {
            len = xmax - x + 1;
            if len <= 0 {
                return ;
            }
        }
        let covers_win = if covers.is_empty() {
            vstd::slice::slice_subrange(covers, 0, 0)
        } else {
            vstd::slice::slice_subrange(covers, off as usize, (off + len) as usize)
        };
        let _m = colors.len();
        let colors_win = vstd::slice::slice_subrange(colors, off as usize, (off + len) as usize);
        self.pixf.blend_color_hspan(x, y, len, colors_win, covers_win, cover);
    }

    /// Blends every pixel of another image of the same size onto the image, with
    /// the coverage `cover`.
    pub fn blend_from<S: PixelSource>(&mut self, other: &S, cover: u64)
        requires
            old(self).pixf.wf(),
            other.wf(),
            old(self).pixf.canvas().width == other.canvas().width,
            old(self).pixf.canvas().height == other.canvas().height,
        ensures
            final(self).pixf.wf(),
            changed(
                old(self).pixf.canvas(),
                final(self).pixf.canvas(),
                |x: int, y: int| true,
                |x: int, y: int, p: Seq<u8>|
                    T::blended(
                        p,
                        S::decoded((other.canvas().at)(x, y)).channels(),
                        cover,
                    ),
            ),
    {
        let w = self.pixf.width();
        let h = self.pixf.height();
        let mut x: usize = 0;
        while x < w
            invariant
                x <= w,
                w == old(self).pixf.canvas().width,
                h == old(self).pixf.canvas().height,
                other.wf(),
                w == other.canvas().width,
                h == other.canvas().height,
                    self.pixf.wf(),
                changed(
                    old(self).pixf.canvas(),
                    self.pixf.canvas(),
                    |px: int, py: int| px < x,
                    |px: int, py: int, p: Seq<u8>|
                        T::blended(
                            p,
                            S::decoded((other.canvas().at)(px, py)).channels(),
                            cover,
                        ),
                ),
            decreases w - x,
        {
            let mut y: usize = 0;
            while y < h
                invariant
                    x < w,
                    y <= h,
                    w == old(self).pixf.canvas().width,
                    h == old(self).pixf.canvas().height,
                    other.wf(),
                    w == other.canvas().width,
                    h == other.canvas().height,
                            self.pixf.wf(),
                    changed(
                        old(self).pixf.canvas(),
                        self.pixf.canvas(),
                        |px: int, py: int| px < x || (px == x && py < y),
                        |px: int, py: int, p: Seq<u8>|
                            T::blended(
                                p,
                                S::decoded((other.canvas().at)(px, py)).channels(),
                                cover,
                            ),
                    ),
                decreases h - y,
            {
                let c = other.get((x, y));
                self.pixf.blend_pix((x, y), c, cover);
                y = y + 1;
            }
            x = x + 1;
        }
    }
}

} // verus!
