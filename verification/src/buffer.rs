//! The byte buffer that holds the pixels of an image.

use vstd::prelude::*;

verus! {

/// The bytes of an image, row after row, with a fixed number of bytes for each pixel.
#[derive(Clone, Debug, Default)]
pub struct RenderingBuffer {
    /// The bytes, row after row.
    pub data: Vec<u8>,
    /// The number of pixels in a row.
    pub width: usize,
    /// The number of rows.
    pub height: usize,
    /// The number of bytes of a pixel.
    pub bpp: usize,
}

impl RenderingBuffer {
    /// Whether the buffer holds exactly the bytes of its pixels.
    pub open spec fn wf(&self) -> bool {
        self.data@.len() == self.width * self.height * self.bpp
    }

    /// The index of the first byte of the pixel in column `x` of row `y`.
    pub open spec fn offset_spec(&self, x: int, y: int) -> int {
        (y * self.width + x) * self.bpp
    }

    /// Creates a buffer of the given size with all bytes zero.
    pub fn new(width: usize, height: usize, bpp: usize) -> (r: Self)
        requires
            width * height * bpp <= usize::MAX,
        ensures
            r.width == width,
            r.height == height,
            r.bpp == bpp,
            r.data@ == Seq::new((width * height * bpp) as nat, |i: int| 0u8),
            r.wf(),
    {
        assert(width * height <= width * height * bpp || bpp == 0) by (nonlinear_arith)
            requires
                width >= 0,
                height >= 0,
                bpp >= 0,
        ;
        assert(bpp == 0 ==> width * height * bpp == 0) by (nonlinear_arith);
        let n: usize = if bpp == 0 {
            0
        } else {
            width * height * bpp
        };
        let mut data: Vec<u8> = Vec::new();
        let mut i: usize = 0;
        while i < n
            invariant
                i <= n,
                data@ == Seq::new(i as nat, |k: int| 0u8),
            decreases n - i,
        {
            data.push(0);
            i = i + 1;
            assert(data@ =~= Seq::new(i as nat, |k: int| 0u8));
        }
        RenderingBuffer { width, height, bpp, data }
    }

    /// Returns the number of bytes.
    pub fn len(&self) -> (n: usize)
        ensures
            n == self.data@.len(),
    {
        self.data.len()
    }

    /// Sets every byte to 255.
    pub fn clear(&mut self)
        ensures
            final(self).data@ == Seq::new(old(self).data@.len(), |i: int| 255u8),
            final(self).width == old(self).width,
            final(self).height == old(self).height,
            final(self).bpp == old(self).bpp,
    {
        let n = self.data.len();
        let mut i: usize = 0;
        while i < n
            invariant
                i <= n,
                n == self.data@.len(),
                n == old(self).data@.len(),
                self.width == old(self).width,
                self.height == old(self).height,
                self.bpp == old(self).bpp,
                forall|k: int| 0 <= k < i ==> self.data@[k] == 255u8,
            decreases n - i,
        {
            self.data[i] = 255;
            i = i + 1;
        }
        assert(self.data@ =~= Seq::new(old(self).data@.len(), |i: int| 255u8));
    }

    /// Creates a buffer of the given size from its bytes.
    pub fn from_vec(data: Vec<u8>, width: usize, height: usize, bpp: usize) -> (r: Self)
        requires
            data@.len() == width * height * bpp,
        ensures
            r.data@ == data@,
            r.width == width,
            r.height == height,
            r.bpp == bpp,
            r.wf(),
    {
        RenderingBuffer { width, height, bpp, data }
    }

    /// The bytes of the pixel in column `x` of row `y`.
    pub open spec fn pixel(&self, x: int, y: int) -> Seq<u8> {
        self.data@.subrange(self.offset_spec(x, y), self.offset_spec(x, y) + self.bpp)
    }

    /// Whether the pixel `(x, y)` lies inside the image.
    pub open spec fn holds(&self, x: int, y: int) -> bool {
        0 <= x < self.width && 0 <= y < self.height
    }

    /// Returns byte `j` of the pixel in column `x` of row `y`.
    pub fn byte(&self, x: usize, y: usize, j: usize) -> (r: u8)
        requires
            self.wf(),
            self.holds(x as int, y as int),
            j < self.bpp,
        ensures
            r == self.pixel(x as int, y as int)[j as int],
    {
        let off = self.offset(x, y);
        let _len = self.data.len();
        self.data[off + j]
    }

    /// Replaces the bytes of the pixel in column `x` of row `y`.
    pub fn put(&mut self, x: usize, y: usize, p: &[u8])
        requires
            old(self).wf(),
            old(self).holds(x as int, y as int),
            p@.len() == old(self).bpp,
            old(self).bpp > 0,
        ensures
            final(self).wf(),
            final(self).width == old(self).width,
            final(self).height == old(self).height,
            final(self).bpp == old(self).bpp,
            final(self).pixel(x as int, y as int) == p@,
            forall|px: int, py: int|
                old(self).holds(px, py) && !(px == x && py == y) ==> #[trigger] final(self).pixel(
                    px,
                    py,
                ) == old(self).pixel(px, py),
    {
        let off = self.offset(x, y);
        let n = self.bpp;
        let _len = self.data.len();
        let ghost before = self.data@;
        let mut j: usize = 0;
        while j < n
            invariant
                j <= n,
                n == self.bpp,
                n == p@.len(),
                self.width == old(self).width,
                self.height == old(self).height,
                self.bpp == old(self).bpp,
                self.data@.len() == before.len(),
                off + n <= self.data@.len() <= usize::MAX,
                forall|i: int| off <= i < off + j ==> self.data@[i] == p@[i - off],
                forall|i: int|
                    0 <= i < before.len() && !(off <= i < off + j) ==> self.data@[i] == before[i],
            decreases n - j,
        {
            self.data[off + j] = p[j];
            j = j + 1;
        }
        proof {
            assert(self.pixel(x as int, y as int) =~= p@);
            assert forall|px: int, py: int|
                old(self).holds(px, py) && !(px == x && py == y) implies #[trigger] self.pixel(
                px,
                py,
            ) == old(self).pixel(px, py) by {
                lemma_pixels_apart(
                    x as int,
                    y as int,
                    px,
                    py,
                    self.width as int,
                    self.height as int,
                    self.bpp as int,
                );
                assert(self.pixel(px, py) =~= old(self).pixel(px, py));
            }
        }
    }

    /// Returns the index of the first byte of the pixel in column `x` of row `y`.
    pub fn offset(&self, x: usize, y: usize) -> (i: usize)
        requires
            self.wf(),
            self.bpp > 0,
            x < self.width,
            y < self.height,
        ensures
            i == self.offset_spec(x as int, y as int),
            i + self.bpp <= self.data@.len(),
    {
        proof {
            vstd::std_specs::vec::axiom_spec_len(&self.data);
            assert(self.width * self.height <= self.width * self.height * self.bpp)
                by (nonlinear_arith)
                requires
                    self.bpp >= 1,
            ;
            lemma_offset_in_range(
                x as int,
                y as int,
                self.width as int,
                self.height as int,
                self.bpp as int,
            );
        }
        ((y * self.width) + x) * self.bpp
    }
}

/// The bytes of two different pixels of an image lie apart.
pub proof fn lemma_pixels_apart(x: int, y: int, px: int, py: int, w: int, h: int, bpp: int)
    requires
        0 <= x < w,
        0 <= y < h,
        0 <= px < w,
        0 <= py < h,
        0 < bpp,
        !(px == x && py == y),
    ensures
        (py * w + px) * bpp + bpp <= (y * w + x) * bpp || (y * w + x) * bpp + bpp <= (py * w + px)
            * bpp,
        0 <= (py * w + px) * bpp,
        (py * w + px) * bpp + bpp <= w * h * bpp,
{
    lemma_offset_in_range(px, py, w, h, bpp);
    lemma_offset_in_range(x, y, w, h, bpp);
    let a = y * w + x;
    let b = py * w + px;
    assert(a != b) by (nonlinear_arith)
        requires
            a == y * w + x,
            b == py * w + px,
            0 <= x < w,
            0 <= px < w,
            !(px == x && py == y),
    ;
    assert(b * bpp + bpp <= a * bpp || a * bpp + bpp <= b * bpp) by (nonlinear_arith)
        requires
            a != b,
            0 < bpp,
    ;
}

/// The bytes of a pixel inside an image lie inside the buffer of the image.
pub proof fn lemma_offset_in_range(x: int, y: int, w: int, h: int, bpp: int)
    requires
        0 <= x < w,
        0 <= y < h,
        0 <= bpp,
    ensures
        0 <= y * w <= y * w + x,
        0 <= (y * w + x) * bpp,
        (y * w + x) * bpp + bpp <= w * h * bpp,
        y * w + x < w * h,
{
    assert(0 <= y * w && y * w + w <= h * w) by (nonlinear_arith)
        requires
            0 <= y < h,
            0 <= w,
    ;
    assert(h * w == w * h) by (nonlinear_arith);
    let p = y * w + x;
    assert(0 <= p * bpp && p * bpp + bpp <= (w * h) * bpp) by (nonlinear_arith)
        requires
            0 <= p,
            p + 1 <= w * h,
            0 <= bpp,
    ;
}

} // verus!
