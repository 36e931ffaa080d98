//! Images in formats with 8-bit channels, and how colors are blended onto them.

use crate::buffer::{lemma_offset_in_range, RenderingBuffer};
use crate::color::{Color, Gray8, Rgb8, Rgba8, Rgba8pre};
use crate::pixel::{changed, Canvas, Pixel, PixelSource};
use crate::util::{
    lerp_u8, lerp_u8_spec, low_byte, low_byte_spec, multiply_u8, multiply_u8_spec, prelerp_u8,
    prelerp_u8_spec,
};
use core::marker::PhantomData;
use vstd::prelude::*;

verus! {

/// An image whose pixels are stored in the format of the color type `T`.
#[derive(Debug, Default)]
pub struct Pixfmt<T> {
    /// The bytes of the pixels.
    pub rbuf: RenderingBuffer,
    /// The color type of the pixels.
    pub phantom: PhantomData<T>,
}

/// The red, green and blue of `p` after `c` has been blended onto them with
/// the alpha `alpha` and the coverage `cover`.
pub open spec fn over_rgb(p: Seq<u8>, c: (u8, u8, u8, u8), alpha: u8, cover: u64) -> Seq<u8> {
    let a = multiply_u8_spec(alpha, low_byte_spec(cover)) as u8;
    seq![
        lerp_u8_spec(p[0], c.0, a) as u8,
        lerp_u8_spec(p[1], c.1, a) as u8,
        lerp_u8_spec(p[2], c.2, a) as u8,
    ]
}

/// The pixel `p` after `c` has been blended onto it with the alpha `alpha`.
pub open spec fn over_rgba(p: Seq<u8>, c: (u8, u8, u8, u8), alpha: u8) -> Seq<u8> {
    seq![
        lerp_u8_spec(p[0], c.0, alpha) as u8,
        lerp_u8_spec(p[1], c.1, alpha) as u8,
        lerp_u8_spec(p[2], c.2, alpha) as u8,
        prelerp_u8_spec(p[3], alpha, alpha) as u8,
    ]
}

/// The pixel `p` with multiplied channels after `c` has been blended onto it
/// with the alpha `alpha` and the coverage `cover`.
pub open spec fn over_pre(p: Seq<u8>, c: (u8, u8, u8, u8), alpha: u8, cover: u64) -> Seq<u8> {
    let k = low_byte_spec(cover);
    let a = multiply_u8_spec(alpha, k) as u8;
    seq![
        prelerp_u8_spec(p[0], multiply_u8_spec(c.0, k) as u8, a) as u8,
        prelerp_u8_spec(p[1], multiply_u8_spec(c.1, k) as u8, a) as u8,
        prelerp_u8_spec(p[2], multiply_u8_spec(c.2, k) as u8, a) as u8,
        prelerp_u8_spec(p[3], a, a) as u8,
    ]
}

/// A product of channel values is a channel value.
pub proof fn lemma_channel(a: u8, b: u8)
    ensures
        0 <= multiply_u8_spec(a, b) <= 255,
        0 <= prelerp_u8_spec(a, b, b) <= 255,
{
    crate::color::lemma_multiply_u8_bounds(a, b);
}

impl<T> Clone for Pixfmt<T> {
    /// Returns an image of the same size with the same bytes.
    fn clone(&self) -> (r: Self)
        ensures
            r.rbuf.data@ == self.rbuf.data@,
            r.rbuf.width == self.rbuf.width,
            r.rbuf.height == self.rbuf.height,
            r.rbuf.bpp == self.rbuf.bpp,
    {
        Self {
            rbuf: RenderingBuffer {
                data: vstd::slice::slice_to_vec(self.rbuf.data.as_slice()),
                width: self.rbuf.width,
                height: self.rbuf.height,
                bpp: self.rbuf.bpp,
            },
            phantom: PhantomData,
        }
    }
}

impl<T> Pixfmt<T> {
    /// The pixels of the image.
    pub open spec fn pixels(&self) -> Canvas {
        Canvas {
            width: self.rbuf.width as nat,
            height: self.rbuf.height as nat,
            at: |x: int, y: int| self.rbuf.pixel(x, y),
        }
    }

    /// Returns the number of bytes of the image.
    pub fn size(&self) -> (n: usize)
        ensures
            n == self.rbuf.data@.len(),
    {
        self.rbuf.len()
    }

    /// Sets every byte of the image to 255.
    pub fn clear(&mut self)
        ensures
            final(self).rbuf.data@ == Seq::new(old(self).rbuf.data@.len(), |i: int| 255u8),
            final(self).rbuf.width == old(self).rbuf.width,
            final(self).rbuf.height == old(self).rbuf.height,
            final(self).rbuf.bpp == old(self).rbuf.bpp,
    {
        self.rbuf.clear();
    }
}

impl<T> Pixfmt<T> where Pixfmt<T>: Pixel {
    /// Creates an image of the given size with all bytes zero.
    pub fn new(width: usize, height: usize) -> (r: Self)
        requires
            width > 0,
            height > 0,
            width * height * <Pixfmt<T> as Pixel>::bpp_spec() <= usize::MAX,
        ensures
            r.rbuf.width == width,
            r.rbuf.height == height,
            r.rbuf.bpp == <Pixfmt<T> as Pixel>::bpp_spec(),
            r.rbuf.data@ == Seq::new(
                (width * height * <Pixfmt<T> as Pixel>::bpp_spec()) as nat,
                |i: int| 0u8,
            ),
            r.rbuf.wf(),
    {
        Self { rbuf: RenderingBuffer::new(width, height, Self::bpp()), phantom: PhantomData }
    }

    /// Sets the pixel `(x, y)` to a color if it lies inside the image.
    pub fn copy_pixel<C: Color>(&mut self, x: usize, y: usize, color: C)
        requires
            old(self).wf(),
        ensures
            final(self).wf(),
            changed(
                old(self).canvas(),
                final(self).canvas(),
                |px: int, py: int| px == x && py == y,
                |px: int, py: int, p: Seq<u8>| <Pixfmt<T> as Pixel>::encoded(color.channels()),
            ),
    {
        if x >= self.width() || y >= self.height() {
            return ;
        }
        self.set((x, y), color);
    }

    /// Sets `n` pixels of row `y` from column `x` on to a color, as far as they
    /// lie inside the image.
    pub fn copy_hline<C: Color>(&mut self, x: usize, y: usize, n: usize, color: C)
        requires
            old(self).wf(),
            x + n <= usize::MAX,
        ensures
            final(self).wf(),
            changed(
                old(self).canvas(),
                final(self).canvas(),
                |px: int, py: int| x <= px < x + n && py == y,
                |px: int, py: int, p: Seq<u8>| <Pixfmt<T> as Pixel>::encoded(color.channels()),
            ),
    {
        let w = self.width();
        if y >= self.height() || x >= w || n == 0 {
            return ;
        }
        let m = if x + n >= w {
            w - x
        } else {
            n
        };
        let mut i: usize = 0;
        while i < m
            invariant
                i <= m,
                x + m <= w,
                m <= n,
                x + n >= w ==> m == w - x,
                w == old(self).canvas().width,
                y < old(self).canvas().height,
                self.wf(),
                changed(
                    old(self).canvas(),
                    self.canvas(),
                    |px: int, py: int| x <= px < x + i && py == y,
                    |px: int, py: int, p: Seq<u8>|
                        <Pixfmt<T> as Pixel>::encoded(color.channels()),
                ),
            decreases m - i,
        {
            self.set((x + i, y), color);
            i = i + 1;
        }
    }

    /// Sets `n` pixels of column `x` from row `y` on to a color, as far as they
    /// lie inside the image.
    pub fn copy_vline<C: Color>(&mut self, x: usize, y: usize, n: usize, color: C)
        requires
            old(self).wf(),
            y + n <= usize::MAX,
        ensures
            final(self).wf(),
            changed(
                old(self).canvas(),
                final(self).canvas(),
                |px: int, py: int| y <= py < y + n && px == x,
                |px: int, py: int, p: Seq<u8>| <Pixfmt<T> as Pixel>::encoded(color.channels()),
            ),
    {
        let h = self.height();
        if y >= h || x >= self.width() || n == 0 {
            return ;
        }
        let m = if y + n >= h {
            h - y
        } else {
            n
        };
        let mut i: usize = 0;
        while i < m
            invariant
                i <= m,
                y + m <= h,
                m <= n,
                y + n >= h ==> m == h - y,
                h == old(self).canvas().height,
                x < old(self).canvas().width,
                self.wf(),
                changed(
                    old(self).canvas(),
                    self.canvas(),
                    |px: int, py: int| y <= py < y + i && px == x,
                    |px: int, py: int, p: Seq<u8>|
                        <Pixfmt<T> as Pixel>::encoded(color.channels()),
                ),
            decreases m - i,
        {
            self.set((x, y + i), color);
            i = i + 1;
        }
    }
}

impl Pixel for Pixfmt<Rgb8> {
    open spec fn wf(&self) -> bool {
        self.rbuf.wf() && self.rbuf.bpp == 3
    }

    open spec fn canvas(&self) -> Canvas {
        self.pixels()
    }

    open spec fn bytes(&self) -> Seq<u8> {
        self.rbuf.data@
    }

    open spec fn bpp_spec() -> nat {
        3
    }

    open spec fn encoded(c: (u8, u8, u8, u8)) -> Seq<u8> {
        seq![c.0, c.1, c.2]
    }

    open spec fn blended(p: Seq<u8>, c: (u8, u8, u8, u8), cover: u64) -> Seq<u8> {
        over_rgb(p, c, c.3, cover)
    }

    open spec fn can_setn(n: int) -> bool {
        true
    }

    proof fn lemma_bytes(&self, x: int, y: int, j: int) {
        lemma_offset_in_range(x, y, self.rbuf.width as int, self.rbuf.height as int, 3);
    }

    fn cover_mask() -> (r: u64) {
        255
    }

    fn bpp() -> (r: usize) {
        3
    }

    fn as_bytes(&self) -> (r: &[u8]) {
        self.rbuf.data.as_slice()
    }

    fn width(&self) -> (r: usize) {
        self.rbuf.width
    }

    fn height(&self) -> (r: usize) {
        self.rbuf.height
    }

    fn set<C: Color>(&mut self, id: (usize, usize), color: C) {
        let p = [color.red8(), color.green8(), color.blue8()];
        assert(p@ =~= Self::encoded(color.channels()));
        self.rbuf.put(id.0, id.1, p.as_slice());
    }

    fn setn<C: Color>(&mut self, id: (usize, usize), n: usize, color: C) {
        let p = [color.red8(), color.green8(), color.blue8()];
        assert(p@ =~= Self::encoded(color.channels()));
        let mut i: usize = 0;
        while i < n
            invariant
                i <= n,
                id.0 + n <= old(self).canvas().width,
                id.1 < old(self).canvas().height,
                p@ == Self::encoded(color.channels()),
                self.wf(),
                changed(
                    old(self).canvas(),
                    self.canvas(),
                    |x: int, y: int| id.0 <= x < id.0 + i && y == id.1,
                    |x: int, y: int, q: Seq<u8>| Self::encoded(color.channels()),
                ),
            decreases n - i,
        {
            let ghost prev = self.canvas();
            self.rbuf.put(id.0 + i, id.1, p.as_slice());
            proof {
                assert forall|x: int, y: int| prev.holds(x, y) implies #[trigger] (
                self.canvas().at)(x, y) == (if x == id.0 + i && y == id.1 {
                    Self::encoded(color.channels())
                } else {
                    (prev.at)(x, y)
                }) by {
                    assert((self.canvas().at)(x, y) == self.rbuf.pixel(x, y));
                }
            }
            i = i + 1;
        }
    }

    fn blend_pix<C: Color>(&mut self, id: (usize, usize), color: C, cover: u64) {
        let pix0 = self.raw(id);
        let pix = self.over(pix0, Rgb8::from_trait(color), color.alpha8(), cover);
        self.set(id, pix);
    }

    fn fill<C: Color>(&mut self, color: C) {
        let p = [color.red8(), color.green8(), color.blue8()];
        assert(p@ =~= Self::encoded(color.channels()));
        let w = self.rbuf.width;
        let h = self.rbuf.height;
        let mut y: usize = 0;
        while y < h
            invariant
                y <= h,
                w == old(self).canvas().width,
                h == old(self).canvas().height,
                p@ == Self::encoded(color.channels()),
                self.wf(),
                changed(
                    old(self).canvas(),
                    self.canvas(),
                    |px: int, py: int| py < y,
                    |px: int, py: int, q: Seq<u8>| Self::encoded(color.channels()),
                ),
            decreases h - y,
        {
            let mut x: usize = 0;
            while x < w
                invariant
                    x <= w,
                    y < h,
                    w == old(self).canvas().width,
                    h == old(self).canvas().height,
                    p@ == Self::encoded(color.channels()),
                    self.wf(),
                    changed(
                        old(self).canvas(),
                        self.canvas(),
                        |px: int, py: int| py < y || (py == y && px < x),
                        |px: int, py: int, q: Seq<u8>| Self::encoded(color.channels()),
                    ),
                decreases w - x,
            {
                let ghost prev = self.canvas();
                self.rbuf.put(x, y, p.as_slice());
                proof {
                    assert forall|px: int, py: int| prev.holds(px, py) implies #[trigger] (
                    self.canvas().at)(px, py) == (if px == x && py == y {
                        Self::encoded(color.channels())
                    } else {
                        (prev.at)(px, py)
                    }) by {
                        assert((self.canvas().at)(px, py) == self.rbuf.pixel(px, py));
                    }
                }
                x = x + 1;
            }
            y = y + 1;
        }
    }
}

impl PixelSource for Pixfmt<Rgb8> {
    open spec fn decoded(p: Seq<u8>) -> Rgba8 {
        Rgba8 { r: p[0], g: p[1], b: p[2], a: 255 }
    }

    fn get(&self, id: (usize, usize)) -> (c: Rgba8) {
        assert((self.canvas().at)(id.0 as int, id.1 as int) == self.rbuf.pixel(
            id.0 as int,
            id.1 as int,
        ));
        let r = self.rbuf.byte(id.0, id.1, 0);
        let g = self.rbuf.byte(id.0, id.1, 1);
        let b = self.rbuf.byte(id.0, id.1, 2);
        let c = Rgba8::new(r, g, b, 255);
        assert(c == Self::decoded(self.rbuf.pixel(id.0 as int, id.1 as int)));
        c
    }
}

impl Pixel for Pixfmt<Rgba8> {
    open spec fn wf(&self) -> bool {
        self.rbuf.wf() && self.rbuf.bpp == 4
    }

    open spec fn canvas(&self) -> Canvas {
        self.pixels()
    }

    open spec fn bytes(&self) -> Seq<u8> {
        self.rbuf.data@
    }

    open spec fn bpp_spec() -> nat {
        4
    }

    open spec fn encoded(c: (u8, u8, u8, u8)) -> Seq<u8> {
        seq![c.0, c.1, c.2, c.3]
    }

    open spec fn blended(p: Seq<u8>, c: (u8, u8, u8, u8), cover: u64) -> Seq<u8> {
        over_rgba(p, c, multiply_u8_spec(c.3, low_byte_spec(cover)) as u8)
    }

    open spec fn can_setn(n: int) -> bool {
        n == 0
    }

    proof fn lemma_bytes(&self, x: int, y: int, j: int) {
        lemma_offset_in_range(x, y, self.rbuf.width as int, self.rbuf.height as int, 4);
    }

    fn cover_mask() -> (r: u64) {
        255
    }

    fn bpp() -> (r: usize) {
        4
    }

    fn as_bytes(&self) -> (r: &[u8]) {
        self.rbuf.data.as_slice()
    }

    fn width(&self) -> (r: usize) {
        self.rbuf.width
    }

    fn height(&self) -> (r: usize) {
        self.rbuf.height
    }

    fn set<C: Color>(&mut self, id: (usize, usize), color: C) {
        let p = [color.red8(), color.green8(), color.blue8(), color.alpha8()];
        assert(p@ =~= Self::encoded(color.channels()));
        self.rbuf.put(id.0, id.1, p.as_slice());
    }

    fn setn<C: Color>(&mut self, id: (usize, usize), n: usize, color: C) {
        let p = [color.red8(), color.green8(), color.blue8(), color.alpha8()];
        assert(p@ =~= Self::encoded(color.channels()));
        let mut i: usize = 0;
        while i < n
            invariant
                i <= n,
                id.0 + n <= old(self).canvas().width,
                id.1 < old(self).canvas().height,
                p@ == Self::encoded(color.channels()),
                self.wf(),
                changed(
                    old(self).canvas(),
                    self.canvas(),
                    |x: int, y: int| id.0 <= x < id.0 + i && y == id.1,
                    |x: int, y: int, q: Seq<u8>| Self::encoded(color.channels()),
                ),
            decreases n - i,
        {
            let ghost prev = self.canvas();
            self.rbuf.put(id.0 + i, id.1, p.as_slice());
            proof {
                assert forall|x: int, y: int| prev.holds(x, y) implies #[trigger] (
                self.canvas().at)(x, y) == (if x == id.0 + i && y == id.1 {
                    Self::encoded(color.channels())
                } else {
                    (prev.at)(x, y)
                }) by {
                    assert((self.canvas().at)(x, y) == self.rbuf.pixel(x, y));
                }
            }
            i = i + 1;
        }
    }

    fn blend_pix<C: Color>(&mut self, id: (usize, usize), color: C, cover: u64) {
        let alpha = multiply_u8(color.alpha8(), low_byte(cover));
        let pix0 = self.get(id);
        assert((self.canvas().at)(id.0 as int, id.1 as int) == self.rbuf.pixel(
            id.0 as int,
            id.1 as int,
        ));
        assert(pix0 == Self::decoded(self.rbuf.pixel(id.0 as int, id.1 as int)));
        let pix = self.over(pix0, Rgba8::from_trait(color), alpha);
        self.set(id, pix);
    }

    fn fill<C: Color>(&mut self, color: C) {
        let p = [color.red8(), color.green8(), color.blue8(), color.alpha8()];
        assert(p@ =~= Self::encoded(color.channels()));
        let w = self.rbuf.width;
        let h = self.rbuf.height;
        let mut y: usize = 0;
        while y < h
            invariant
                y <= h,
                w == old(self).canvas().width,
                h == old(self).canvas().height,
                p@ == Self::encoded(color.channels()),
                self.wf(),
                changed(
                    old(self).canvas(),
                    self.canvas(),
                    |px: int, py: int| py < y,
                    |px: int, py: int, q: Seq<u8>| Self::encoded(color.channels()),
                ),
            decreases h - y,
        {
            let mut x: usize = 0;
            while x < w
                invariant
                    x <= w,
                    y < h,
                    w == old(self).canvas().width,
                    h == old(self).canvas().height,
                    p@ == Self::encoded(color.channels()),
                    self.wf(),
                    changed(
                        old(self).canvas(),
                        self.canvas(),
                        |px: int, py: int| py < y || (py == y && px < x),
                        |px: int, py: int, q: Seq<u8>| Self::encoded(color.channels()),
                    ),
                decreases w - x,
            {
                let ghost prev = self.canvas();
                self.rbuf.put(x, y, p.as_slice());
                proof {
                    assert forall|px: int, py: int| prev.holds(px, py) implies #[trigger] (
                    self.canvas().at)(px, py) == (if px == x && py == y {
                        Self::encoded(color.channels())
                    } else {
                        (prev.at)(px, py)
                    }) by {
                        assert((self.canvas().at)(px, py) == self.rbuf.pixel(px, py));
                    }
                }
                x = x + 1;
            }
            y = y + 1;
        }
    }
}

impl PixelSource for Pixfmt<Rgba8> {
    open spec fn decoded(p: Seq<u8>) -> Rgba8 {
        Rgba8 { r: p[0], g: p[1], b: p[2], a: p[3] }
    }

    fn get(&self, id: (usize, usize)) -> (c: Rgba8) {
        assert((self.canvas().at)(id.0 as int, id.1 as int) == self.rbuf.pixel(
            id.0 as int,
            id.1 as int,
        ));
        let r = self.rbuf.byte(id.0, id.1, 0);
        let g = self.rbuf.byte(id.0, id.1, 1);
        let b = self.rbuf.byte(id.0, id.1, 2);
        let a = self.rbuf.byte(id.0, id.1, 3);
        let c = Rgba8::new(r, g, b, a);
        assert(c == Self::decoded(self.rbuf.pixel(id.0 as int, id.1 as int)));
        c
    }
}

impl Pixel for Pixfmt<Rgba8pre> {
    open spec fn wf(&self) -> bool {
        self.rbuf.wf() && self.rbuf.bpp == 4
    }

    open spec fn canvas(&self) -> Canvas {
        self.pixels()
    }

    open spec fn bytes(&self) -> Seq<u8> {
        self.rbuf.data@
    }

    open spec fn bpp_spec() -> nat {
        4
    }

    open spec fn encoded(c: (u8, u8, u8, u8)) -> Seq<u8> {
        seq![c.0, c.1, c.2, c.3]
    }

    open spec fn blended(p: Seq<u8>, c: (u8, u8, u8, u8), cover: u64) -> Seq<u8> {
        over_pre(p, c, c.3, cover)
    }

    open spec fn can_setn(n: int) -> bool {
        true
    }

    proof fn lemma_bytes(&self, x: int, y: int, j: int) {
        lemma_offset_in_range(x, y, self.rbuf.width as int, self.rbuf.height as int, 4);
    }

    fn cover_mask() -> (r: u64) {
        255
    }

    fn bpp() -> (r: usize) {
        4
    }

    fn as_bytes(&self) -> (r: &[u8]) {
        self.rbuf.data.as_slice()
    }

    fn width(&self) -> (r: usize) {
        self.rbuf.width
    }

    fn height(&self) -> (r: usize) {
        self.rbuf.height
    }

    fn set<C: Color>(&mut self, id: (usize, usize), color: C) {
        let p = [color.red8(), color.green8(), color.blue8(), color.alpha8()];
        assert(p@ =~= Self::encoded(color.channels()));
        self.rbuf.put(id.0, id.1, p.as_slice());
    }

    fn setn<C: Color>(&mut self, id: (usize, usize), n: usize, color: C) {
        let p = [color.red8(), color.green8(), color.blue8(), color.alpha8()];
        assert(p@ =~= Self::encoded(color.channels()));
        let mut i: usize = 0;
        while i < n
            invariant
                i <= n,
                id.0 + n <= old(self).canvas().width,
                id.1 < old(self).canvas().height,
                p@ == Self::encoded(color.channels()),
                self.wf(),
                changed(
                    old(self).canvas(),
                    self.canvas(),
                    |x: int, y: int| id.0 <= x < id.0 + i && y == id.1,
                    |x: int, y: int, q: Seq<u8>| Self::encoded(color.channels()),
                ),
            decreases n - i,
        {
            let ghost prev = self.canvas();
            self.rbuf.put(id.0 + i, id.1, p.as_slice());
            proof {
                assert forall|x: int, y: int| prev.holds(x, y) implies #[trigger] (
                self.canvas().at)(x, y) == (if x == id.0 + i && y == id.1 {
                    Self::encoded(color.channels())
                } else {
                    (prev.at)(x, y)
                }) by {
                    assert((self.canvas().at)(x, y) == self.rbuf.pixel(x, y));
                }
            }
            i = i + 1;
        }
    }

    fn blend_pix<C: Color>(&mut self, id: (usize, usize), color: C, cover: u64) {
        let p = self.get(id);
        assert((self.canvas().at)(id.0 as int, id.1 as int) == self.rbuf.pixel(
            id.0 as int,
            id.1 as int,
        ));
        assert(p == Self::decoded(self.rbuf.pixel(id.0 as int, id.1 as int)));
        let p0 = Rgba8pre::new(p.red8(), p.green8(), p.blue8(), p.alpha8());
        let c0 = Rgba8pre::new(color.red8(), color.green8(), color.blue8(), color.alpha8());
        let p = self.over(p0, c0, color.alpha8(), cover);
        self.set(id, p);
    }

    fn fill<C: Color>(&mut self, color: C) {
        let p = [color.red8(), color.green8(), color.blue8(), color.alpha8()];
        assert(p@ =~= Self::encoded(color.channels()));
        let w = self.rbuf.width;
        let h = self.rbuf.height;
        let mut y: usize = 0;
        while y < h
            invariant
                y <= h,
                w == old(self).canvas().width,
                h == old(self).canvas().height,
                p@ == Self::encoded(color.channels()),
                self.wf(),
                changed(
                    old(self).canvas(),
                    self.canvas(),
                    |px: int, py: int| py < y,
                    |px: int, py: int, q: Seq<u8>| Self::encoded(color.channels()),
                ),
            decreases h - y,
        {
            let mut x: usize = 0;
            while x < w
                invariant
                    x <= w,
                    y < h,
                    w == old(self).canvas().width,
                    h == old(self).canvas().height,
                    p@ == Self::encoded(color.channels()),
                    self.wf(),
                    changed(
                        old(self).canvas(),
                        self.canvas(),
                        |px: int, py: int| py < y || (py == y && px < x),
                        |px: int, py: int, q: Seq<u8>| Self::encoded(color.channels()),
                    ),
                decreases w - x,
            {
                let ghost prev = self.canvas();
                self.rbuf.put(x, y, p.as_slice());
                proof {
                    assert forall|px: int, py: int| prev.holds(px, py) implies #[trigger] (
                    self.canvas().at)(px, py) == (if px == x && py == y {
                        Self::encoded(color.channels())
                    } else {
                        (prev.at)(px, py)
                    }) by {
                        assert((self.canvas().at)(px, py) == self.rbuf.pixel(px, py));
                    }
                }
                x = x + 1;
            }
            y = y + 1;
        }
    }
}

impl PixelSource for Pixfmt<Rgba8pre> {
    open spec fn decoded(p: Seq<u8>) -> Rgba8 {
        Rgba8 { r: p[0], g: p[1], b: p[2], a: p[3] }
    }

    fn get(&self, id: (usize, usize)) -> (c: Rgba8) {
        assert((self.canvas().at)(id.0 as int, id.1 as int) == self.rbuf.pixel(
            id.0 as int,
            id.1 as int,
        ));
        let r = self.rbuf.byte(id.0, id.1, 0);
        let g = self.rbuf.byte(id.0, id.1, 1);
        let b = self.rbuf.byte(id.0, id.1, 2);
        let a = self.rbuf.byte(id.0, id.1, 3);
        let c = Rgba8::new(r, g, b, a);
        assert(c == Self::decoded(self.rbuf.pixel(id.0 as int, id.1 as int)));
        c
    }
}

impl Pixfmt<Gray8> {
    /// Returns the gray of the pixel `id` with `c` blended onto it with the alpha
    /// `alpha`, which becomes its alpha.
    pub fn over(&mut self, id: (usize, usize), c: Gray8, alpha: u8) -> (r: Gray8)
        requires
            old(self).rbuf.wf(),
            old(self).rbuf.bpp == 2,
            old(self).rbuf.holds(id.0 as int, id.1 as int),
        ensures
            r.value == lerp_u8_spec(old(self).rbuf.pixel(id.0 as int, id.1 as int)[0], c.value, alpha),
            r.alpha == alpha,
            *final(self) == *old(self),
    {
        let p = self.raw(id);
        Gray8::new_with_alpha(lerp_u8(p.value, c.value, alpha), alpha)
    }

    /// Returns the gray of the pixel `id`.
    pub fn raw(&self, id: (usize, usize)) -> (r: Gray8)
        requires
            self.rbuf.wf(),
            self.rbuf.bpp == 2,
            self.rbuf.holds(id.0 as int, id.1 as int),
        ensures
            r == (Gray8 {
                value: self.rbuf.pixel(id.0 as int, id.1 as int)[0],
                alpha: self.rbuf.pixel(id.0 as int, id.1 as int)[1],
            }),
    {
        Gray8::new_with_alpha(self.rbuf.byte(id.0, id.1, 0), self.rbuf.byte(id.0, id.1, 1))
    }
}

impl Pixfmt<Rgb8> {
    /// Returns the color of the pixel `id`.
    pub fn raw(&self, id: (usize, usize)) -> (r: Rgb8)
        requires
            self.wf(),
            self.canvas().holds(id.0 as int, id.1 as int),
        ensures
            r == (Rgb8 {
                r: self.rbuf.pixel(id.0 as int, id.1 as int)[0],
                g: self.rbuf.pixel(id.0 as int, id.1 as int)[1],
                b: self.rbuf.pixel(id.0 as int, id.1 as int)[2],
            }),
    {
        Rgb8::new(
            self.rbuf.byte(id.0, id.1, 0),
            self.rbuf.byte(id.0, id.1, 1),
            self.rbuf.byte(id.0, id.1, 2),
        )
    }

    /// Returns the color `p` with `c` blended onto it with the alpha `alpha` and
    /// the coverage `cover`.
    pub fn over(&mut self, p: Rgb8, c: Rgb8, alpha: u8, cover: u64) -> (r: Rgb8)
        ensures
            seq![r.r, r.g, r.b] == over_rgb(seq![p.r, p.g, p.b], (c.r, c.g, c.b, 255u8), alpha, cover),
            *final(self) == *old(self),
    {
        proof {
            lemma_channel(alpha, low_byte_spec(cover));
        }
        let a = multiply_u8(alpha, low_byte(cover));
        let (r, g, b) = (lerp_u8(p.r, c.r, a), lerp_u8(p.g, c.g, a), lerp_u8(p.b, c.b, a));
        let res = Rgb8::new(r, g, b);
        assert(seq![res.r, res.g, res.b] =~= over_rgb(
            seq![p.r, p.g, p.b],
            (c.r, c.g, c.b, 255u8),
            alpha,
            cover,
        ));
        res
    }
}

impl Pixfmt<Rgba8> {
    /// Returns the color `p` with `c` blended onto it with the alpha `alpha`.
    pub fn over(&mut self, p: Rgba8, c: Rgba8, alpha: u8) -> (r: Rgba8)
        ensures
            seq![r.r, r.g, r.b, r.a] == over_rgba(
                seq![p.r, p.g, p.b, p.a],
                (c.r, c.g, c.b, c.a),
                alpha,
            ),
            *final(self) == *old(self),
    {
        let red = lerp_u8(p.r, c.r, alpha);
        let green = lerp_u8(p.g, c.g, alpha);
        let blue = lerp_u8(p.b, c.b, alpha);
        let mixed = prelerp_u8(p.a, alpha, alpha);
        let res = Rgba8::new(red, green, blue, mixed);
        assert(seq![res.r, res.g, res.b, res.a] =~= over_rgba(
            seq![p.r, p.g, p.b, p.a],
            (c.r, c.g, c.b, c.a),
            alpha,
        ));
        res
    }
}

impl Pixfmt<Rgba8pre> {
    /// Returns the color `p` with `c` blended onto it with the alpha `alpha` and
    /// the coverage `cover`.
    pub fn over(&mut self, p: Rgba8pre, c: Rgba8pre, alpha: u8, cover: u64) -> (r: Rgba8pre)
        ensures
            seq![r.r, r.g, r.b, r.a] == over_pre(
                seq![p.r, p.g, p.b, p.a],
                (c.r, c.g, c.b, c.a),
                alpha,
                cover,
            ),
            *final(self) == *old(self),
    {
        proof {
            lemma_channel(alpha, low_byte_spec(cover));
            lemma_channel(c.r, low_byte_spec(cover));
            lemma_channel(c.g, low_byte_spec(cover));
            lemma_channel(c.b, low_byte_spec(cover));
        }
        let k = low_byte(cover);
        let a = multiply_u8(alpha, k);
        let red = multiply_u8(c.r, k);
        let green = multiply_u8(c.g, k);
        let blue = multiply_u8(c.b, k);
        let red = prelerp_u8(p.r, red, a);
        let green = prelerp_u8(p.g, green, a);
        let blue = prelerp_u8(p.b, blue, a);
        let mixed = prelerp_u8(p.a, a, a);
        let res = Rgba8pre::new(red, green, blue, mixed);
        assert(seq![res.r, res.g, res.b, res.a] =~= over_pre(
            seq![p.r, p.g, p.b, p.a],
            (c.r, c.g, c.b, c.a),
            alpha,
            cover,
        ));
        res
    }

    /// Returns the image without its alpha channel.
    pub fn drop_alpha(&self) -> (r: Pixfmt<Rgb8>)
        requires
            self.wf(),
        ensures
            r.wf(),
            r.rbuf.width == self.rbuf.width,
            r.rbuf.height == self.rbuf.height,
            forall|k: int, j: int|
                0 <= k < self.rbuf.width * self.rbuf.height && 0 <= j < 3 ==> #[trigger] r.rbuf.data@[3
                    * k + j] == self.rbuf.data@[4 * k + j],
    {
        let n = self.rbuf.data.len();
        let ghost count = self.rbuf.width * self.rbuf.height;
        assert(n == count * 4);
        let mut buf: Vec<u8> = Vec::new();
        let mut i: usize = 0;
        while i < n
            invariant
                i <= n,
                i % 4 == 0,
                n == self.rbuf.data@.len(),
                n == count * 4,
                buf@.len() == (i / 4) * 3,
                forall|k: int, j: int|
                    0 <= k < i / 4 && 0 <= j < 3 ==> #[trigger] buf@[3 * k + j] == self.rbuf.data@[4
                        * k + j],
            decreases n - i,
        {
            buf.push(self.rbuf.data[i]);
            buf.push(self.rbuf.data[i + 1]);
            buf.push(self.rbuf.data[i + 2]);
            i = i + 4;
        }
        assert(buf@.len() == self.rbuf.width * self.rbuf.height * 3);
        Pixfmt::<Rgb8> {
            rbuf: RenderingBuffer::from_vec(buf, self.rbuf.width, self.rbuf.height, 3),
            phantom: PhantomData,
        }
    }
}

} // verus!
