//! An image that is drawn onto through a mask of alpha values.

use crate::color::{Color, Gray8, Rgb8, Rgba8};
use crate::pixel::{changed, Pixel, PixelSource};
use crate::pixfmt::Pixfmt;
use crate::util::{lerp_u8, lerp_u8_spec, low_byte, low_byte_spec, multiply_u8, multiply_u8_spec};
use vstd::prelude::*;

verus! {

/// The color with the channels `p` after the color with the channels `c` has
/// been blended onto it with the coverage `cover`: every channel, alpha too,
/// goes from `p` towards `c` by the alpha of `c` times the low eight bits of
/// `cover`.
pub open spec fn mixed(p: (u8, u8, u8, u8), c: (u8, u8, u8, u8), cover: u64) -> Rgba8 {
    let alpha = multiply_u8_spec(c.3, low_byte_spec(cover)) as u8;
    Rgba8 {
        r: lerp_u8_spec(p.0, c.0, alpha) as u8,
        g: lerp_u8_spec(p.1, c.1, alpha) as u8,
        b: lerp_u8_spec(p.2, c.2, alpha) as u8,
        a: lerp_u8_spec(p.3, c.3, alpha) as u8,
    }
}

/// Blends the color `c` onto the color `p` with the coverage `cover`.
pub fn blend_pix<C1: Color, C2: Color>(p: &C1, c: &C2, cover: u64) -> (r: Rgba8)
    ensures
        r == mixed(p.channels(), c.channels(), cover),
{
    let alpha = multiply_u8(c.alpha8(), low_byte(cover));
    let red = lerp_u8(p.red8(), c.red8(), alpha);
    let green = lerp_u8(p.green8(), c.green8(), alpha);
    let blue = lerp_u8(p.blue8(), c.blue8(), alpha);
    let alpha = lerp_u8(p.alpha8(), c.alpha8(), alpha);
    Rgba8::new(red, green, blue, alpha)
}

/// An image together with a gray image of the same size whose values say how
/// much of a color reaches each pixel.
pub struct AlphaMaskAdaptor<T> where Pixfmt<T>: Pixel + PixelSource {
    /// The image that is drawn onto.
    pub rgb: Pixfmt<T>,
    /// The mask.
    pub alpha: Pixfmt<Gray8>,
}

impl<T> AlphaMaskAdaptor<T> where Pixfmt<T>: Pixel + PixelSource {
    /// Whether the image and the mask are well formed and the mask holds every
    /// pixel of the image.
    pub open spec fn wf(&self) -> bool {
        &&& self.rgb.wf()
        &&& self.alpha.rbuf.wf()
        &&& self.alpha.rbuf.bpp == 2
        &&& self.alpha.rbuf.width >= self.rgb.canvas().width
        &&& self.alpha.rbuf.height >= self.rgb.canvas().height
    }

    /// The value of the mask at the pixel `(x, y)`.
    pub open spec fn mask_at(&self, x: int, y: int) -> u8 {
        self.alpha.rbuf.pixel(x, y)[0]
    }

    /// The bytes of the pixel `p` after the color `c` has been put on it through
    /// the mask value `m`.
    pub open spec fn masked(p: Seq<u8>, c: Rgb8, m: u8) -> Seq<u8> {
        Pixfmt::<T>::encoded(
            mixed(Pixfmt::<T>::decoded(p).channels(), c.channels(), m as u64).channels(),
        )
    }

    /// Creates an adaptor from an image and a mask.
    pub fn new(rgb: Pixfmt<T>, alpha: Pixfmt<Gray8>) -> (r: Self)
        ensures
            r.rgb == rgb,
            r.alpha == alpha,
    {
        Self { rgb, alpha }
    }

    /// Puts the `n` colors on the pixels of row `y` from column `x` on, each
    /// through the value of the mask at its pixel.
    pub fn blend_color_hspan(&mut self, x: usize, y: usize, n: usize, colors: &[Rgb8], _cover: usize)
        requires
            old(self).wf(),
            n == colors@.len(),
            n > 0 ==> y < old(self).rgb.canvas().height,
            x + n <= old(self).rgb.canvas().width,
        ensures
            final(self).wf(),
            final(self).alpha == old(self).alpha,
            changed(
                old(self).rgb.canvas(),
                final(self).rgb.canvas(),
                |px: int, py: int| py == y && x <= px < x + n,
                |px: int, py: int, p: Seq<u8>| Self::masked(p, colors@[px - x], old(self).mask_at(px, py)),
            ),
    {
        let mut i: usize = 0;
        while i < n
            invariant
                i <= n,
                n == colors@.len(),
                n > 0 ==> y < old(self).rgb.canvas().height,
                x + n <= old(self).rgb.canvas().width,
                self.wf(),
                self.alpha == old(self).alpha,
                changed(
                    old(self).rgb.canvas(),
                    self.rgb.canvas(),
                    |px: int, py: int| py == y && x <= px < x + i,
                    |px: int, py: int, p: Seq<u8>|
                        Self::masked(p, colors@[px - x], old(self).mask_at(px, py)),
                ),
            decreases n - i,
        {
            let color = colors[i];
            let pix = self.rgb.get((x + i, y));
            let alpha = self.alpha.raw((x + i, y)).value;
            let pix = blend_pix(&pix, &color, alpha as u64);
            self.rgb.set((x + i, y), pix);
            i = i + 1;
        }
    }
}

} // verus!
