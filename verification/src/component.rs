//! One channel of an image as an image of its own.

use crate::base::RenderingBase;
use crate::color::{Color, Gray8, Rgb8};
use crate::pixel::{changed, span_cover, Canvas, Pixel};
use crate::pixfmt::Pixfmt;
use crate::util::{lerp_u8, lerp_u8_spec, low_byte, low_byte_spec, multiply_u8, multiply_u8_spec};
use core::marker::PhantomData;
use vstd::prelude::*;

verus! {

/// The channel `offset` of the color with the channels `c`: red, green or blue.
pub open spec fn channel_of(c: (u8, u8, u8, u8), offset: int) -> u8 {
    if offset == 0 {
        c.0
    } else if offset == 1 {
        c.1
    } else {
        c.2
    }
}

/// The bytes of the pixel `p` after the color with the channels `c` has been
/// blended onto its channel `offset` with the coverage `cover`.
pub open spec fn channel_blended(p: Seq<u8>, c: (u8, u8, u8, u8), cover: u64, offset: int) -> Seq<
    u8,
> {
    p.update(
        offset,
        lerp_u8_spec(
            p[offset],
            channel_of(c, offset),
            multiply_u8_spec(c.3, low_byte_spec(cover)) as u8,
        ) as u8,
    )
}

/// The bytes of the pixel `p` after the color with the channels `c` has been put
/// on its channel `offset`, with the coverage `cover` unless `plain` holds: a
/// transparent color leaves the pixel, an opaque one, with full coverage if any,
/// replaces the channel, and any other is blended.
pub open spec fn channel_put(
    p: Seq<u8>,
    c: (u8, u8, u8, u8),
    cover: u64,
    plain: bool,
    offset: int,
) -> Seq<u8> {
    if c.3 == 0 {
        p
    } else if c.3 == 255 && (plain || cover == 255) {
        p.update(offset, channel_of(c, offset))
    } else if plain {
        channel_blended(p, c, 255, offset)
    } else {
        channel_blended(p, c, cover, offset)
    }
}

/// One channel of an image with red, green and blue, drawn onto as if it were a
/// gray image.
pub struct PixfmtAlphaBlend<'a, T, C> where T: Pixel {
    /// The rendering base of the image.
    pub ren: &'a mut RenderingBase<T>,
    /// The channel: 0 for red, 1 for green, 2 for blue.
    pub offset: usize,
    /// The color type of the channel.
    pub phantom: PhantomData<C>,
}

impl<'a, T, C> PixfmtAlphaBlend<'a, T, C> where T: Pixel {
    /// Creates the image of the channel `offset` of the image of `ren`.
    pub fn new(ren: &'a mut RenderingBase<T>, offset: usize) -> (r: Self)
        ensures
            *r.ren == *old(ren),
            r.offset == offset,
    {
        Self { ren, offset, phantom: PhantomData }
    }
}

impl PixfmtAlphaBlend<'_, Pixfmt<Rgb8>, Gray8> {
    /// Whether the image is well formed and the channel is one of its three.
    pub open spec fn wf(&self) -> bool {
        self.ren.wf() && self.offset < 3
    }

    /// The pixels of the image, with all their channels.
    pub open spec fn canvas(&self) -> Canvas {
        self.ren.pixf.canvas()
    }

    /// All bytes of the image, row after row.
    pub open spec fn bytes(&self) -> Seq<u8> {
        self.ren.pixf.bytes()
    }

    /// Returns the channel of the color `c` as a gray.
    pub fn component(&self, c: Rgb8) -> (r: Gray8)
        requires
            self.offset < 3,
        ensures
            r == (Gray8 { value: channel_of(c.channels(), self.offset as int), alpha: 255 }),
    {
        if self.offset == 0 {
            Gray8::new(c.r)
        } else if self.offset == 1 {
            Gray8::new(c.g)
        } else {
            Gray8::new(c.b)
        }
    }

    /// Returns the gray of the channel of the pixel `id` with `c` blended onto
    /// it with the alpha `alpha`, which becomes its alpha.
    pub fn mix_pix(&mut self, id: (usize, usize), c: Gray8, alpha: u8) -> (r: Gray8)
        requires
            old(self).wf(),
            old(self).canvas().holds(id.0 as int, id.1 as int),
        ensures
            *final(self).ren == *old(self).ren,
            final(self).offset == old(self).offset,
            r.value == lerp_u8_spec(
                (old(self).canvas().at)(id.0 as int, id.1 as int)[old(self).offset as int],
                c.value,
                alpha,
            ),
            r.alpha == alpha,
    {
        let p = self.component(self.ren.pixf.raw(id));
        Gray8::new_with_alpha(lerp_u8(p.value, c.value, alpha), alpha)
    }

    /// Returns the number of pixels in a row.
    pub fn width(&self) -> (r: usize)
        ensures
            r == self.canvas().width,
    {
        self.ren.pixf.width()
    }

    /// Returns the number of rows.
    pub fn height(&self) -> (r: usize)
        ensures
            r == self.canvas().height,
    {
        self.ren.pixf.height()
    }

    /// Returns all bytes of the image, row after row.
    pub fn as_bytes(&self) -> (r: &[u8])
        ensures
            r@ == self.bytes(),
    {
        self.ren.pixf.as_bytes()
    }

    /// Returns the coverage that stands for a fully covered pixel.
    pub fn cover_mask() -> (r: u64)
        ensures
            r == 255,
    {
        Pixfmt::<Rgb8>::cover_mask()
    }

    /// Returns the number of bytes of a pixel of the image.
    pub fn bpp() -> (r: usize)
        ensures
            r == 3,
    {
        Pixfmt::<Rgb8>::bpp()
    }

    /// Puts the value `v` into the channel of the pixel `id`.
    fn put(&mut self, id: (usize, usize), v: u8)
        requires
            old(self).wf(),
            old(self).canvas().holds(id.0 as int, id.1 as int),
        ensures
            final(self).wf(),
            final(self).offset == old(self).offset,
            changed(
                old(self).canvas(),
                final(self).canvas(),
                |x: int, y: int| x == id.0 && y == id.1,
                |x: int, y: int, p: Seq<u8>| p.update(old(self).offset as int, v),
            ),
    {
        let p = self.ren.pixf.raw(id);
        let ghost was = (self.canvas().at)(id.0 as int, id.1 as int);
        proof {
            self.ren.pixf.lemma_bytes(id.0 as int, id.1 as int, 0);
            assert(was =~= seq![p.r, p.g, p.b]);
        }
        let q = if self.offset == 0 {
            Rgb8::new(v, p.g, p.b)
        } else if self.offset == 1 {
            Rgb8::new(p.r, v, p.b)
        } else {
            Rgb8::new(p.r, p.g, v)
        };
        proof {
            assert(Pixfmt::<Rgb8>::encoded(q.channels()) =~= was.update(self.offset as int, v));
        }
        self.ren.pixf.set(id, q);
    }

    /// Sets the channel of the pixel `id` to that of a color.
    pub fn set<C: Color>(&mut self, id: (usize, usize), c: C)
        requires
            old(self).wf(),
            old(self).canvas().holds(id.0 as int, id.1 as int),
        ensures
            final(self).wf(),
            final(self).offset == old(self).offset,
            changed(
                old(self).canvas(),
                final(self).canvas(),
                |x: int, y: int| x == id.0 && y == id.1,
                |x: int, y: int, p: Seq<u8>|
                    p.update(old(self).offset as int, channel_of(c.channels(), old(self).offset as int)),
            ),
    {
        let c = Rgb8::from_trait(c);
        let v = self.component(c).value;
        self.put(id, v);
    }

    /// Sets the channel of `n` pixels of a row, from the pixel `id` on, to that
    /// of a color.
    pub fn setn<C: Color>(&mut self, id: (usize, usize), n: usize, c: C)
        requires
            old(self).wf(),
            n > 0 ==> id.1 < old(self).canvas().height,
            id.0 + n <= old(self).canvas().width,
        ensures
            final(self).wf(),
            final(self).offset == old(self).offset,
            changed(
                old(self).canvas(),
                final(self).canvas(),
                |x: int, y: int| id.0 <= x < id.0 + n && y == id.1,
                |x: int, y: int, p: Seq<u8>|
                    p.update(old(self).offset as int, channel_of(c.channels(), old(self).offset as int)),
            ),
    {
        let c = Rgb8::from_trait(c);
        let v = self.component(c).value;
        let mut i: usize = 0;
        while i < n
            invariant
                i <= n,
                n > 0 ==> id.1 < old(self).canvas().height,
                id.0 + n <= old(self).canvas().width,
                self.wf(),
                self.offset == old(self).offset,
                v == channel_of(c.channels(), self.offset as int),
                changed(
                    old(self).canvas(),
                    self.canvas(),
                    |x: int, y: int| id.0 <= x < id.0 + i && y == id.1,
                    |x: int, y: int, p: Seq<u8>| p.update(old(self).offset as int, v),
                ),
            decreases n - i,
        {
            self.put((id.0 + i, id.1), v);
            i = i + 1;
        }
    }

    /// Blends a color onto the channel of the pixel `id` with the coverage
    /// `cover`.
    pub fn blend_pix<C: Color>(&mut self, id: (usize, usize), c: C, cover: u64)
        requires
            old(self).wf(),
            old(self).canvas().holds(id.0 as int, id.1 as int),
        ensures
            final(self).wf(),
            final(self).offset == old(self).offset,
            changed(
                old(self).canvas(),
                final(self).canvas(),
                |x: int, y: int| x == id.0 && y == id.1,
                |x: int, y: int, p: Seq<u8>|
                    channel_blended(p, c.channels(), cover, old(self).offset as int),
            ),
    {
        let alpha = multiply_u8(c.alpha8(), low_byte(cover));
        let c = Rgb8::from_trait(c);
        let c0 = self.component(c);
        let p0 = self.mix_pix(id, c0, alpha);
        self.set(id, p0);
    }

    /// Sets the channel of every pixel to that of a color.
    pub fn fill<C: Color>(&mut self, color: C)
        requires
            old(self).wf(),
        ensures
            final(self).wf(),
            final(self).offset == old(self).offset,
            changed(
                old(self).canvas(),
                final(self).canvas(),
                |x: int, y: int| true,
                |x: int, y: int, p: Seq<u8>|
                    p.update(
                        old(self).offset as int,
                        channel_of(color.channels(), old(self).offset as int),
                    ),
            ),
    {
        let (w, h) = (self.width(), self.height());
        let ghost v = channel_of(color.channels(), self.offset as int);
        let mut i: usize = 0;
        while i < w
            invariant
                i <= w,
                w == old(self).canvas().width,
                h == old(self).canvas().height,
                self.wf(),
                self.offset == old(self).offset,
                v == channel_of(color.channels(), self.offset as int),
                changed(
                    old(self).canvas(),
                    self.canvas(),
                    |x: int, y: int| x < i,
                    |x: int, y: int, p: Seq<u8>| p.update(old(self).offset as int, v),
                ),
            decreases w - i,
        {
            let mut j: usize = 0;
            while j < h
                invariant
                    i < w,
                    j <= h,
                    w == old(self).canvas().width,
                    h == old(self).canvas().height,
                    self.wf(),
                    self.offset == old(self).offset,
                    v == channel_of(color.channels(), self.offset as int),
                    changed(
                        old(self).canvas(),
                        self.canvas(),
                        |x: int, y: int| x < i || (x == i && y < j),
                        |x: int, y: int, p: Seq<u8>| p.update(old(self).offset as int, v),
                    ),
                decreases h - j,
            {
                self.set((i, j), color);
                j = j + 1;
            }
            i = i + 1;
        }
    }

    /// Puts a color on the channel of the pixel `id`: a transparent color leaves
    /// it, an opaque one replaces it, and any other is blended with full
    /// coverage.
    pub fn copy_or_blend_pix<C: Color>(&mut self, id: (usize, usize), color: C)
        requires
            old(self).wf(),
            old(self).canvas().holds(id.0 as int, id.1 as int),
        ensures
            final(self).wf(),
            final(self).offset == old(self).offset,
            changed(
                old(self).canvas(),
                final(self).canvas(),
                |x: int, y: int| x == id.0 && y == id.1,
                |x: int, y: int, p: Seq<u8>|
                    channel_put(p, color.channels(), 255, true, old(self).offset as int),
            ),
    {
        if !color.is_transparent() {
            if color.is_opaque() {
                self.set(id, color);
            } else {
                self.blend_pix(id, color, 255);
            }
        }
    }

    /// Puts a color on the channel of the pixel `id` with the coverage `cover`:
    /// a transparent color leaves it, an opaque one with full coverage replaces
    /// it, and any other is blended.
    pub fn copy_or_blend_pix_with_cover<C: Color>(&mut self, id: (usize, usize), color: C, cover: u64)
        requires
            old(self).wf(),
            old(self).canvas().holds(id.0 as int, id.1 as int),
        ensures
            final(self).wf(),
            final(self).offset == old(self).offset,
            changed(
                old(self).canvas(),
                final(self).canvas(),
                |x: int, y: int| x == id.0 && y == id.1,
                |x: int, y: int, p: Seq<u8>|
                    channel_put(p, color.channels(), cover, false, old(self).offset as int),
            ),
    {
        if !color.is_transparent() {
            if color.is_opaque() && cover == Self::cover_mask() {
                self.set(id, color);
            } else {
                self.blend_pix(id, color, cover);
            }
        }
    }

    /// Puts the colors `colors` on the channel of `len` pixels of column `x`,
    /// from row `y` down: each with its coverage in `covers`, or all with the
    /// coverage `cover` if `covers` is empty.
    pub fn blend_color_vspan<C: Color>(
        &mut self,
        x: i64,
        y: i64,
        len: i64,
        colors: &[C],
        covers: &[u64],
        cover: u64,
    )
        requires
            old(self).wf(),
            0 <= len == colors@.len(),
            covers@.len() == 0 || covers@.len() == colors@.len(),
            0 <= x,
            0 <= y,
            len > 0 ==> x < old(self).canvas().width,
            y + len <= old(self).canvas().height,
        ensures
            final(self).wf(),
            final(self).offset == old(self).offset,
            changed(
                old(self).canvas(),
                final(self).canvas(),
                |px: int, py: int| px == x && y <= py < y + len,
                |px: int, py: int, p: Seq<u8>|
                    channel_put(
                        p,
                        colors@[py - y].channels(),
                        span_cover(covers@, cover, py - y),
                        covers@.len() == 0 && cover == 255,
                        old(self).offset as int,
                    ),
            ),
    {
        let h = self.height();
        let (ux, uy) = (x as usize, y as usize);
        let n = colors.len();
        let plain = covers.len() == 0 && cover == Self::cover_mask();
        let mut i: usize = 0;
        while i < n
            invariant
                i <= n,
                n == colors@.len(),
                n == len,
                covers@.len() == 0 || covers@.len() == colors@.len(),
                n > 0 ==> ux == x,
                uy == y,
                h == old(self).canvas().height,
                n > 0 ==> ux < old(self).canvas().width,
                uy + n <= h,
                plain == (covers@.len() == 0 && cover == 255),
                self.wf(),
                self.offset == old(self).offset,
                changed(
                    old(self).canvas(),
                    self.canvas(),
                    |px: int, py: int| px == x && y <= py < y + i,
                    |px: int, py: int, p: Seq<u8>|
                        channel_put(
                            p,
                            colors@[py - y].channels(),
                            span_cover(covers@, cover, py - y),
                            covers@.len() == 0 && cover == 255,
                            old(self).offset as int,
                        ),
                ),
            decreases n - i,
        {
            let color = colors[i];
            if plain {
                self.copy_or_blend_pix((ux, uy + i), color);
            } else if covers.len() == 0 {
                self.copy_or_blend_pix_with_cover((ux, uy + i), color, cover);
            } else {
                self.copy_or_blend_pix_with_cover((ux, uy + i), color, covers[i]);
            }
            i = i + 1;
        }
    }
}

} // verus!
