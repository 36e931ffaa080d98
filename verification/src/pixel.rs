//! What a pixel format has to offer to the renderers.

use crate::color::{Color, Rgba8};
use vstd::prelude::*;

verus! {

/// The pixels of an image.
pub struct Canvas {
    /// The number of pixels in a row.
    pub width: nat,
    /// The number of rows.
    pub height: nat,
    /// The bytes of the pixel in a column of a row.
    pub at: spec_fn(int, int) -> Seq<u8>,
}

impl Canvas {
    /// Whether the pixel `(x, y)` lies inside the image.
    pub open spec fn holds(self, x: int, y: int) -> bool {
        0 <= x < self.width && 0 <= y < self.height
    }
}

/// Whether `after` is `before` with the pixels of a region replaced: the pixel
/// at `(x, y)` in the region is `f(x, y, p)`, with `p` what it was, and every
/// other pixel is what it was.
pub open spec fn changed(
    before: Canvas,
    after: Canvas,
    region: spec_fn(int, int) -> bool,
    f: spec_fn(int, int, Seq<u8>) -> Seq<u8>,
) -> bool {
    &&& after.width == before.width
    &&& after.height == before.height
    &&& forall|x: int, y: int|
        before.holds(x, y) ==> #[trigger] (after.at)(x, y) == (if region(x, y) {
            f(x, y, (before.at)(x, y))
        } else {
            (before.at)(x, y)
        })
}

/// Whether two images have the same size and the same pixels.
pub open spec fn same_pixels(a: Canvas, b: Canvas) -> bool {
    &&& a.width == b.width
    &&& a.height == b.height
    &&& forall|x: int, y: int| a.holds(x, y) ==> #[trigger] (a.at)(x, y) == (b.at)(x, y)
}

/// The coverage of the pixel `i` of a span: its entry in `covers`, or `cover` if
/// `covers` is empty.
pub open spec fn span_cover(covers: Seq<u64>, cover: u64, i: int) -> u64 {
    if covers.len() == 0 {
        cover
    } else {
        covers[i]
    }
}

/// The bytes of a pixel after a color of a span has been put on it: without a
/// coverage if `plain` holds, and with the coverage `cover` if not.
pub open spec fn color_put(
    p: Seq<u8>,
    alpha: u8,
    cover: u64,
    plain: bool,
    set: Seq<u8>,
    mixed: Seq<u8>,
) -> Seq<u8> {
    if plain {
        placed(p, alpha, set, mixed)
    } else {
        covered(p, alpha, cover, set, mixed)
    }
}

/// The bytes of a pixel after a color with the alpha `alpha` has been put on it
/// without a coverage: a transparent color leaves the pixel `p`, an opaque one
/// gives `set`, and any other gives `mixed`.
pub open spec fn placed(p: Seq<u8>, alpha: u8, set: Seq<u8>, mixed: Seq<u8>) -> Seq<u8> {
    if alpha == 0 {
        p
    } else if alpha == 255 {
        set
    } else {
        mixed
    }
}

/// The bytes of a pixel after a color with the alpha `alpha` has been put on it
/// with a coverage: a transparent color leaves the pixel `p`, an opaque one with
/// full coverage gives `set`, and any other gives `mixed`.
pub open spec fn covered(p: Seq<u8>, alpha: u8, cover: u64, set: Seq<u8>, mixed: Seq<u8>) -> Seq<
    u8,
> {
    if alpha == 0 {
        p
    } else if alpha == 255 && cover == 255 {
        set
    } else {
        mixed
    }
}

/// An image in some pixel format.
pub trait Pixel: Sized {
    /// Whether the image holds the bytes of all its pixels.
    spec fn wf(&self) -> bool;

    /// The pixels of the image.
    spec fn canvas(&self) -> Canvas;

    /// All bytes of the image, row after row.
    spec fn bytes(&self) -> Seq<u8>;

    /// The number of bytes of a pixel.
    spec fn bpp_spec() -> nat;

    /// The bytes of a pixel of the color with the channels `c`.
    spec fn encoded(c: (u8, u8, u8, u8)) -> Seq<u8>;

    /// The bytes of the pixel `p` after the color with the channels `c` has been
    /// blended onto it with the coverage `cover`.
    spec fn blended(p: Seq<u8>, c: (u8, u8, u8, u8), cover: u64) -> Seq<u8>;

    /// Whether `n` pixels can be set at once.
    spec fn can_setn(n: int) -> bool;

    /// The bytes of the image are those of its pixels, row after row.
    proof fn lemma_bytes(&self, x: int, y: int, j: int)
        requires
            self.wf(),
            0 <= x < self.canvas().width,
            0 <= y < self.canvas().height,
            0 <= j < Self::bpp_spec(),
        ensures
            self.bytes().len() == self.canvas().width * self.canvas().height * Self::bpp_spec(),
            0 <= (y * self.canvas().width + x) * Self::bpp_spec() + j < self.bytes().len(),
            (self.canvas().at)(x, y).len() == Self::bpp_spec(),
            self.bytes()[(y * self.canvas().width + x) * Self::bpp_spec() + j] == (
            self.canvas().at)(x, y)[j],
    ;

    /// Returns the coverage that stands for a fully covered pixel.
    fn cover_mask() -> (r: u64)
        ensures
            r == 255,
    ;

    /// Returns the number of bytes of a pixel.
    fn bpp() -> (r: usize)
        ensures
            r == Self::bpp_spec(),
    ;

    /// Returns all bytes of the image, row after row.
    fn as_bytes(&self) -> (r: &[u8])
        ensures
            r@ == self.bytes(),
    ;

    /// Returns the number of pixels in a row.
    fn width(&self) -> (r: usize)
        ensures
            r == self.canvas().width,
    ;

    /// Returns the number of rows.
    fn height(&self) -> (r: usize)
        ensures
            r == self.canvas().height,
    ;

    /// Sets the pixel `id` to a color.
    fn set<C: Color>(&mut self, id: (usize, usize), color: C)
        requires
            old(self).wf(),
            old(self).canvas().holds(id.0 as int, id.1 as int),
        ensures
            final(self).wf(),
            changed(
                old(self).canvas(),
                final(self).canvas(),
                |x: int, y: int| x == id.0 && y == id.1,
                |x: int, y: int, p: Seq<u8>| Self::encoded(color.channels()),
            ),
    ;

    /// Sets `n` pixels of a row, from the pixel `id` on, to a color.
    fn setn<C: Color>(&mut self, id: (usize, usize), n: usize, color: C)
        requires
            old(self).wf(),
            old(self).canvas().holds(id.0 as int, id.1 as int),
            id.0 + n <= old(self).canvas().width,
            Self::can_setn(n as int),
        ensures
            final(self).wf(),
            changed(
                old(self).canvas(),
                final(self).canvas(),
                |x: int, y: int| id.0 <= x < id.0 + n && y == id.1,
                |x: int, y: int, p: Seq<u8>| Self::encoded(color.channels()),
            ),
    ;

    /// Blends a color onto the pixel `id` with the coverage `cover`.
    fn blend_pix<C: Color>(&mut self, id: (usize, usize), color: C, cover: u64)
        requires
            old(self).wf(),
            old(self).canvas().holds(id.0 as int, id.1 as int),
        ensures
            final(self).wf(),
            changed(
                old(self).canvas(),
                final(self).canvas(),
                |x: int, y: int| x == id.0 && y == id.1,
                |x: int, y: int, p: Seq<u8>| Self::blended(p, color.channels(), cover),
            ),
    ;

    /// Sets every pixel to a color.
    fn fill<C: Color>(&mut self, color: C)
        requires
            old(self).wf(),
        ensures
            final(self).wf(),
            changed(
                old(self).canvas(),
                final(self).canvas(),
                |x: int, y: int| true,
                |x: int, y: int, p: Seq<u8>| Self::encoded(color.channels()),
            ),
    ;

    /// Puts a color on the pixel `id`: a transparent color leaves the pixel, an
    /// opaque one replaces it, and any other is blended with full coverage.
    fn copy_or_blend_pix<C: Color>(&mut self, id: (usize, usize), color: C)
        requires
            old(self).wf(),
            old(self).canvas().holds(id.0 as int, id.1 as int),
        ensures
            final(self).wf(),
            changed(
                old(self).canvas(),
                final(self).canvas(),
                |x: int, y: int| x == id.0 && y == id.1,
                |x: int, y: int, p: Seq<u8>| placed(
                        p,
                        color.channels().3,
                        Self::encoded(color.channels()),
                        Self::blended(p, color.channels(), 255),
                    ),
            ),
    {
        if !color.is_transparent() {
            if color.is_opaque() {
                self.set(id, color);
            } else {
                self.blend_pix(id, color, 255);
            }
        }
    }

    /// Puts a color on the pixel `id` with the coverage `cover`: a transparent
    /// color leaves the pixel, an opaque one with full coverage replaces it, and
    /// any other is blended.
    fn copy_or_blend_pix_with_cover<C: Color>(&mut self, id: (usize, usize), color: C, cover: u64)
        requires
            old(self).wf(),
            old(self).canvas().holds(id.0 as int, id.1 as int),
        ensures
            final(self).wf(),
            changed(
                old(self).canvas(),
                final(self).canvas(),
                |x: int, y: int| x == id.0 && y == id.1,
                |x: int, y: int, p: Seq<u8>| covered(
                        p,
                        color.channels().3,
                        cover,
                        Self::encoded(color.channels()),
                        Self::blended(p, color.channels(), cover),
                    ),
            ),
    {
        if !color.is_transparent() {
            if color.is_opaque() && cover == Self::cover_mask() {
                self.set(id, color);
            } else {
                self.blend_pix(id, color, cover);
            }
        }
    }

    /// Puts a color with the coverage `cover` on `len` pixels of row `y`, from
    /// column `x` on.
    fn blend_hline<C: Color>(&mut self, x: i64, y: i64, len: i64, color: C, cover: u64)
        requires
            old(self).wf(),
            color.channels().3 != 0 ==> {
                &&& 0 <= x
                &&& 0 <= len
                &&& x + len <= old(self).canvas().width
                &&& 0 <= y < old(self).canvas().height
                &&& color.channels().3 == 255 && cover == 255 ==> Self::can_setn(len as int) && x
                    < old(self).canvas().width
            },
        ensures
            final(self).wf(),
            changed(
                old(self).canvas(),
                final(self).canvas(),
                |px: int, py: int| x <= px < x + len && py == y,
                |px: int, py: int, p: Seq<u8>| covered(
                        p,
                        color.channels().3,
                        cover,
                        Self::encoded(color.channels()),
                        Self::blended(p, color.channels(), cover),
                    ),
            ),
    {
        if color.is_transparent() {
            return ;
        }
        let _w = self.width();
        let _h = self.height();
        let (x, y, len) = (x as usize, y as usize, len as usize);
        if color.is_opaque() && cover == Self::cover_mask() {
            self.setn((x, y), len, color);
        } else {
            let mut i: usize = 0;
            while i < len
                invariant
                    i <= len,
                    x + len <= old(self).canvas().width <= usize::MAX,
                    y < old(self).canvas().height,
                    color.channels().3 != 0,
                    !(color.channels().3 == 255 && cover == 255),
                    self.wf(),
                    changed(
                        old(self).canvas(),
                        self.canvas(),
                        |px: int, py: int| x <= px < x + i && py == y,
                        |px: int, py: int, p: Seq<u8>| covered(
                        p,
                        color.channels().3,
                        cover,
                        Self::encoded(color.channels()),
                        Self::blended(p, color.channels(), cover),
                    ),
                    ),
                decreases len - i,
            {
                self.blend_pix((x + i, y), color, cover);
                i = i + 1;
            }
        }
    }

    /// Puts a color on the pixels of row `y` from column `x` on, each with its
    /// own coverage.
    fn blend_solid_hspan<C: Color>(&mut self, x: i64, y: i64, len: i64, color: C, covers: &[u64])
        requires
            old(self).wf(),
            len == covers@.len(),
            color.channels().3 != 0 ==> {
                &&& 0 <= x
                &&& x + len <= old(self).canvas().width
                &&& x + len <= i64::MAX
                &&& 0 <= y < old(self).canvas().height
                &&& color.channels().3 == 255 ==> Self::can_setn(1)
            },
        ensures
            final(self).wf(),
            changed(
                old(self).canvas(),
                final(self).canvas(),
                |px: int, py: int| x <= px < x + len && py == y,
                |px: int, py: int, p: Seq<u8>|
                    covered(
                        p,
                        color.channels().3,
                        covers@[px - x],
                        Self::encoded(color.channels()),
                        Self::blended(p, color.channels(), covers@[px - x]),
                    ),
            ),
    {
        let n = covers.len();
        let _w = self.width();
        let mut i: usize = 0;
        while i < n
            invariant
                i <= n,
                n == covers@.len(),
                n == len,
                old(self).canvas().width <= usize::MAX,
                color.channels().3 != 0 ==> {
                    &&& 0 <= x
                    &&& x + len <= old(self).canvas().width
                    &&& x + len <= i64::MAX
                    &&& 0 <= y < old(self).canvas().height
                    &&& color.channels().3 == 255 ==> Self::can_setn(1)
                },
                self.wf(),
                    changed(
                        old(self).canvas(),
                        self.canvas(),
                    |px: int, py: int| x <= px < x + i && py == y,
                    |px: int, py: int, p: Seq<u8>|
                        covered(
                        p,
                        color.channels().3,
                        covers@[px - x],
                        Self::encoded(color.channels()),
                        Self::blended(p, color.channels(), covers@[px - x]),
                    ),
                ),
            decreases n - i,
        {
            let cover = covers[i];
            if color.is_transparent() {
            } else {
                self.blend_hline(x + i as i64, y, 1, color, cover);
            }
            i = i + 1;
        }
    }

    /// Puts a color with the coverage `cover` on `len` pixels of column `x`, from
    /// row `y` on.
    fn blend_vline<C: Color>(&mut self, x: i64, y: i64, len: i64, color: C, cover: u64)
        requires
            old(self).wf(),
            color.channels().3 != 0 ==> {
                &&& 0 <= y
                &&& 0 <= len
                &&& y + len <= old(self).canvas().height
                &&& 0 <= x < old(self).canvas().width
            },
        ensures
            final(self).wf(),
            changed(
                old(self).canvas(),
                final(self).canvas(),
                |px: int, py: int| y <= py < y + len && px == x,
                |px: int, py: int, p: Seq<u8>| covered(
                        p,
                        color.channels().3,
                        cover,
                        Self::encoded(color.channels()),
                        Self::blended(p, color.channels(), cover),
                    ),
            ),
    {
        if color.is_transparent() {
            return ;
        }
        let _w = self.width();
        let _h = self.height();
        let (x, y, len) = (x as usize, y as usize, len as usize);
        let full = color.is_opaque() && cover == Self::cover_mask();
        let mut i: usize = 0;
        while i < len
            invariant
                i <= len,
                y + len <= old(self).canvas().height <= usize::MAX,
                x < old(self).canvas().width,
                color.channels().3 != 0,
                full == (color.channels().3 == 255 && cover == 255),
                self.wf(),
                    changed(
                        old(self).canvas(),
                        self.canvas(),
                    |px: int, py: int| y <= py < y + i && px == x,
                    |px: int, py: int, p: Seq<u8>| covered(
                        p,
                        color.channels().3,
                        cover,
                        Self::encoded(color.channels()),
                        Self::blended(p, color.channels(), cover),
                    ),
                ),
            decreases len - i,
        {
            if full {
                self.set((x, y + i), color);
            } else {
                self.blend_pix((x, y + i), color, cover);
            }
            i = i + 1;
        }
    }

    /// Puts a color on the pixels of column `x` from row `y` on, each with its
    /// own coverage.
    fn blend_solid_vspan<C: Color>(&mut self, x: i64, y: i64, len: i64, color: C, covers: &[u64])
        requires
            old(self).wf(),
            len == covers@.len(),
            color.channels().3 != 0 ==> {
                &&& 0 <= y
                &&& y + len <= old(self).canvas().height
                &&& y + len <= i64::MAX
                &&& 0 <= x < old(self).canvas().width
            },
        ensures
            final(self).wf(),
            changed(
                old(self).canvas(),
                final(self).canvas(),
                |px: int, py: int| y <= py < y + len && px == x,
                |px: int, py: int, p: Seq<u8>|
                    covered(
                        p,
                        color.channels().3,
                        covers@[py - y],
                        Self::encoded(color.channels()),
                        Self::blended(p, color.channels(), covers@[py - y]),
                    ),
            ),
    {
        let n = covers.len();
        let _h = self.height();
        let mut i: usize = 0;
        while i < n
            invariant
                i <= n,
                n == covers@.len(),
                n == len,
                old(self).canvas().height <= usize::MAX,
                color.channels().3 != 0 ==> {
                    &&& 0 <= y
                    &&& y + len <= old(self).canvas().height
                    &&& y + len <= i64::MAX
                    &&& 0 <= x < old(self).canvas().width
                },
                self.wf(),
                    changed(
                        old(self).canvas(),
                        self.canvas(),
                    |px: int, py: int| y <= py < y + i && px == x,
                    |px: int, py: int, p: Seq<u8>|
                        covered(
                        p,
                        color.channels().3,
                        covers@[py - y],
                        Self::encoded(color.channels()),
                        Self::blended(p, color.channels(), covers@[py - y]),
                    ),
                ),
            decreases n - i,
        {
            let cover = covers[i];
            if color.is_transparent() {
            } else {
                self.blend_vline(x, y + i as i64, 1, color, cover);
            }
            i = i + 1;
        }
    }
    /// Puts a color of its own on each pixel of row `y` from column `x` on.
    ///
    /// The coverage of a pixel is its entry in `covers`, or `cover` if `covers`
    /// is empty.
    fn blend_color_hspan<C: Color>(
        &mut self,
        x: i64,
        y: i64,
        len: i64,
        colors: &[C],
        covers: &[u64],
        cover: u64,
    )
        requires
            old(self).wf(),
            len == colors@.len(),
            covers@.len() == 0 || covers@.len() == colors@.len(),
            len > 0 ==> {
                &&& 0 <= x
                &&& x + len <= old(self).canvas().width
                &&& 0 <= y < old(self).canvas().height
            },
        ensures
            final(self).wf(),
            changed(
                old(self).canvas(),
                final(self).canvas(),
                |px: int, py: int| x <= px < x + len && py == y,
                |px: int, py: int, p: Seq<u8>|
                    color_put(
                        p,
                        colors@[px - x].channels().3,
                        span_cover(covers@, cover, px - x),
                        covers@.len() == 0 && cover == 255,
                        Self::encoded(colors@[px - x].channels()),
                        Self::blended(
                            p,
                            colors@[px - x].channels(),
                            span_cover(covers@, cover, px - x),
                        ),
                    ),
            ),
    {
        let n = colors.len();
        if n == 0 {
            return ;
        }
        let _w = self.width();
        let _h = self.height();
        let _w = self.width();
        let (ux, uy) = (x as usize, y as usize);
        let mut i: usize = 0;
        while i < n
            invariant
                i <= n,
                ux == x,
                uy == y,
                n == colors@.len(),
                n == len,
                covers@.len() == 0 || covers@.len() == colors@.len(),
                old(self).canvas().width <= usize::MAX,
                0 <= x,
                x + len <= old(self).canvas().width,
                0 <= y < old(self).canvas().height,
                self.wf(),
                changed(
                    old(self).canvas(),
                    self.canvas(),
                    |px: int, py: int| x <= px < x + i && py == y,
                    |px: int, py: int, p: Seq<u8>|
                        color_put(
                            p,
                            colors@[px - x].channels().3,
                            span_cover(covers@, cover, px - x),
                            covers@.len() == 0 && cover == 255,
                            Self::encoded(colors@[px - x].channels()),
                            Self::blended(
                                p,
                                colors@[px - x].channels(),
                                span_cover(covers@, cover, px - x),
                            ),
                        ),
                ),
            decreases n - i,
        {
            let color = colors[i];
            if !covers.is_empty() {
                self.copy_or_blend_pix_with_cover((ux + i, uy), color, covers[i]);
            } else if cover == 255 {
                self.copy_or_blend_pix((ux + i, uy), color);
            } else {
                self.copy_or_blend_pix_with_cover((ux + i, uy), color, cover);
            }
            i = i + 1;
        }
    }

    /// Puts a color of its own on each pixel of column `x` from row `y` on.
    ///
    /// The coverage of a pixel is its entry in `covers`, or `cover` if `covers`
    /// is empty.
    fn blend_color_vspan<C: Color>(
        &mut self,
        x: i64,
        y: i64,
        len: i64,
        colors: &[C],
        covers: &[u64],
        cover: u64,
    )
        requires
            old(self).wf(),
            len == colors@.len(),
            covers@.len() == 0 || covers@.len() == colors@.len(),
            len > 0 ==> {
                &&& 0 <= y
                &&& y + len <= old(self).canvas().height
                &&& 0 <= x < old(self).canvas().width
            },
        ensures
            final(self).wf(),
            changed(
                old(self).canvas(),
                final(self).canvas(),
                |px: int, py: int| y <= py < y + len && px == x,
                |px: int, py: int, p: Seq<u8>|
                    color_put(
                        p,
                        colors@[py - y].channels().3,
                        span_cover(covers@, cover, py - y),
                        covers@.len() == 0 && cover == 255,
                        Self::encoded(colors@[py - y].channels()),
                        Self::blended(
                            p,
                            colors@[py - y].channels(),
                            span_cover(covers@, cover, py - y),
                        ),
                    ),
            ),
    {
        let n = colors.len();
        if n == 0 {
            return ;
        }
        let _h = self.height();
        let _w = self.width();
        let (ux, uy) = (x as usize, y as usize);
        let mut i: usize = 0;
        while i < n
            invariant
                i <= n,
                ux == x,
                uy == y,
                n == colors@.len(),
                n == len,
                covers@.len() == 0 || covers@.len() == colors@.len(),
                old(self).canvas().height <= usize::MAX,
                0 <= y,
                y + len <= old(self).canvas().height,
                0 <= x < old(self).canvas().width,
                self.wf(),
                changed(
                    old(self).canvas(),
                    self.canvas(),
                    |px: int, py: int| y <= py < y + i && px == x,
                    |px: int, py: int, p: Seq<u8>|
                        color_put(
                            p,
                            colors@[py - y].channels().3,
                            span_cover(covers@, cover, py - y),
                            covers@.len() == 0 && cover == 255,
                            Self::encoded(colors@[py - y].channels()),
                            Self::blended(
                                p,
                                colors@[py - y].channels(),
                                span_cover(covers@, cover, py - y),
                            ),
                        ),
                ),
            decreases n - i,
        {
            let color = colors[i];
            if !covers.is_empty() {
                self.copy_or_blend_pix_with_cover((ux, uy + i), color, covers[i]);
            } else if cover == 255 {
                self.copy_or_blend_pix((ux, uy + i), color);
            } else {
                self.copy_or_blend_pix_with_cover((ux, uy + i), color, cover);
            }
            i = i + 1;
        }
    }
}

/// An image whose pixels can be read as colors.
pub trait PixelSource: Pixel {
    /// The color that the bytes `p` of a pixel stand for.
    spec fn decoded(p: Seq<u8>) -> Rgba8;

    /// Returns the color of the pixel `id`.
    fn get(&self, id: (usize, usize)) -> (c: Rgba8)
        requires
            self.wf(),
            self.canvas().holds(id.0 as int, id.1 as int),
        ensures
            c == Self::decoded((self.canvas().at)(id.0 as int, id.1 as int)),
    ;
}

} // verus!
