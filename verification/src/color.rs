//! Colors with 8-bit channels.

use crate::util::{multiply_u8, multiply_u8_spec};
use vstd::prelude::*;

verus! {

/// Access to the channels of a color as 8-bit values.
pub trait Color: Copy {
    /// The red, green, blue and alpha channels.
    spec fn channels(&self) -> (u8, u8, u8, u8);

    /// Whether the color channels have been multiplied by alpha.
    spec fn premultiplied(&self) -> bool;

    /// Returns the red channel.
    fn red8(&self) -> (r: u8)
        ensures
            r == self.channels().0,
    ;

    /// Returns the green channel.
    fn green8(&self) -> (r: u8)
        ensures
            r == self.channels().1,
    ;

    /// Returns the blue channel.
    fn blue8(&self) -> (r: u8)
        ensures
            r == self.channels().2,
    ;

    /// Returns the alpha channel.
    fn alpha8(&self) -> (r: u8)
        ensures
            r == self.channels().3,
    ;

    /// Reports whether the color is fully transparent.
    fn is_transparent(&self) -> (r: bool)
        ensures
            r == (self.channels().3 == 0),
    ;

    /// Reports whether the color is fully opaque.
    fn is_opaque(&self) -> (r: bool)
        ensures
            r == (self.channels().3 == 255),
    ;

    /// Reports whether the color channels have been multiplied by alpha.
    fn is_premultiplied(&self) -> (r: bool)
        ensures
            r == self.premultiplied(),
    ;
}

/// A gray value with alpha.
#[derive(Copy, Clone, Debug, Default, PartialEq, Eq, Hash)]
pub struct Gray8 {
    /// Brightness.
    pub value: u8,
    /// Alpha.
    pub alpha: u8,
}

impl Gray8 {
    /// Creates an opaque gray.
    pub fn new(value: u8) -> (c: Self)
        ensures
            c == (Gray8 { value, alpha: 255 }),
    {
        Self { value, alpha: 255 }
    }

    /// Creates a gray with the given alpha.
    pub fn new_with_alpha(value: u8, alpha: u8) -> (c: Self)
        ensures
            c == (Gray8 { value, alpha }),
    {
        Self { value, alpha }
    }

    /// Creates a gray from the first two bytes of `v`: value and alpha.
    pub fn from_slice(v: &[u8]) -> (c: Self)
        requires
            v@.len() >= 2,
        ensures
            c == (Gray8 { value: v@[0], alpha: v@[1] }),
    {
        Self::new_with_alpha(v[0], v[1])
    }

    /// Creates a gray from value and alpha.
    pub fn from_array2(v: [u8; 2]) -> (c: Self)
        ensures
            c == (Gray8 { value: v@[0], alpha: v@[1] }),
    {
        Self::new_with_alpha(v[0], v[1])
    }

    /// Returns value and alpha.
    pub fn into_array2(&self) -> (r: [u8; 2])
        ensures
            r@ == seq![self.value, self.alpha],
    {
        let r = [self.value, self.alpha];
        assert(r@ =~= seq![self.value, self.alpha]);
        r
    }
}

/// A color with red, green and blue channels.
#[derive(Debug, Default, Copy, Clone, PartialEq)]
pub struct Rgb8 {
    /// Red.
    pub r: u8,
    /// Green.
    pub g: u8,
    /// Blue.
    pub b: u8,
}

impl Rgb8 {
    /// Creates a color from its channels.
    pub fn new(r: u8, g: u8, b: u8) -> (c: Self)
        ensures
            c == (Rgb8 { r, g, b }),
    {
        Rgb8 { r, g, b }
    }

    /// Creates a color from the red, green and blue channels of another.
    pub fn from_trait<C: Color>(c: C) -> (r: Self)
        ensures
            r == (Rgb8 { r: c.channels().0, g: c.channels().1, b: c.channels().2 }),
    {
        Self::new(c.red8(), c.green8(), c.blue8())
    }

    /// Returns white.
    pub fn white() -> (c: Self)
        ensures
            c == (Rgb8 { r: 255, g: 255, b: 255 }),
    {
        Self::new(255, 255, 255)
    }

    /// Returns black.
    pub fn black() -> (c: Self)
        ensures
            c == (Rgb8 { r: 0, g: 0, b: 0 }),
    {
        Self::new(0, 0, 0)
    }

    /// Returns the gray with all channels equal to `g`.
    pub fn gray(g: u8) -> (c: Self)
        ensures
            c == (Rgb8 { r: g, g, b: g }),
    {
        Self::new(g, g, g)
    }

    /// Creates a color from the first three bytes of `v`.
    pub fn from_slice(v: &[u8]) -> (c: Self)
        requires
            v@.len() >= 3,
        ensures
            c == (Rgb8 { r: v@[0], g: v@[1], b: v@[2] }),
    {
        Rgb8 { r: v[0], g: v[1], b: v[2] }
    }

    /// Creates a color from red, green and blue.
    pub fn from_array3(v: [u8; 3]) -> (c: Self)
        ensures
            c == (Rgb8 { r: v@[0], g: v@[1], b: v@[2] }),
    {
        Self::new(v[0], v[1], v[2])
    }

    /// Creates a color from red, green and blue, leaving out the fourth byte.
    pub fn from_array4(v: [u8; 4]) -> (c: Self)
        ensures
            c == (Rgb8 { r: v@[0], g: v@[1], b: v@[2] }),
    {
        Self::new(v[0], v[1], v[2])
    }

    /// Returns red, green and blue.
    pub fn into_array3(&self) -> (r: [u8; 3])
        ensures
            r@ == seq![self.r, self.g, self.b],
    {
        let r = [self.r, self.g, self.b];
        assert(r@ =~= seq![self.r, self.g, self.b]);
        r
    }

    /// Returns red, green, blue and an opaque alpha.
    pub fn into_array4(&self) -> (r: [u8; 4])
        ensures
            r@ == seq![self.r, self.g, self.b, 255u8],
    {
        let r = [self.r, self.g, self.b, u8::MAX];
        assert(r@ =~= seq![self.r, self.g, self.b, 255u8]);
        r
    }
}

/// A color with red, green, blue and alpha channels.
#[derive(Debug, Default, Copy, Clone, PartialEq)]
pub struct Rgba8 {
    /// Red.
    pub r: u8,
    /// Green.
    pub g: u8,
    /// Blue.
    pub b: u8,
    /// Alpha.
    pub a: u8,
}

impl Rgba8 {
    /// Creates a color from its channels.
    pub fn new(r: u8, g: u8, b: u8, a: u8) -> (c: Self)
        ensures
            c == (Rgba8 { r, g, b, a }),
    {
        Self { r, g, b, a }
    }

    /// Creates a color from the channels of another.
    pub fn from_trait<C: Color>(c: C) -> (r: Self)
        ensures
            r == (Rgba8 {
                r: c.channels().0,
                g: c.channels().1,
                b: c.channels().2,
                a: c.channels().3,
            }),
    {
        Self::new(c.red8(), c.green8(), c.blue8(), c.alpha8())
    }

    /// Creates a color from red, green, blue and alpha.
    pub fn from_array(v: [u8; 4]) -> (c: Self)
        ensures
            c == (Rgba8 { r: v@[0], g: v@[1], b: v@[2], a: v@[3] }),
    {
        Self::new(v[0], v[1], v[2], v[3])
    }

    /// Returns red, green, blue and alpha.
    pub fn into_array(&self) -> (r: [u8; 4])
        ensures
            r@ == seq![self.r, self.g, self.b, self.a],
    {
        let r = [self.r, self.g, self.b, self.a];
        assert(r@ =~= seq![self.r, self.g, self.b, self.a]);
        r
    }

    /// Creates a color from red, green, blue and alpha.
    pub fn from_array3(v: [u8; 4]) -> (c: Self)
        ensures
            c == (Rgba8 { r: v@[0], g: v@[1], b: v@[2], a: v@[3] }),
    {
        Self::new(v[0], v[1], v[2], v[3])
    }

    /// Creates a color from red, green, blue and alpha.
    pub fn from_array4(v: [u8; 4]) -> (c: Self)
        ensures
            c == (Rgba8 { r: v@[0], g: v@[1], b: v@[2], a: v@[3] }),
    {
        Self::new(v[0], v[1], v[2], v[3])
    }

    /// Returns red, green and blue.
    pub fn into_array3(&self) -> (r: [u8; 3])
        ensures
            r@ == seq![self.r, self.g, self.b],
    {
        let r = [self.r, self.g, self.b];
        assert(r@ =~= seq![self.r, self.g, self.b]);
        r
    }

    /// Returns red, green, blue and alpha.
    pub fn into_array4(&self) -> (r: [u8; 4])
        ensures
            r@ == seq![self.r, self.g, self.b, self.a],
    {
        let r = [self.r, self.g, self.b, self.a];
        assert(r@ =~= seq![self.r, self.g, self.b, self.a]);
        r
    }

    /// Returns opaque white.
    pub fn white() -> (c: Self)
        ensures
            c == (Rgba8 { r: 255, g: 255, b: 255, a: 255 }),
    {
        Self::new(255, 255, 255, 255)
    }

    /// Returns opaque black.
    pub fn black() -> (c: Self)
        ensures
            c == (Rgba8 { r: 0, g: 0, b: 0, a: 255 }),
    {
        Self::new(0, 0, 0, 255)
    }

    /// The color with its color channels multiplied by alpha.
    pub open spec fn premultiply_spec(self) -> Rgba8pre {
        if self.a == 255 {
            Rgba8pre { r: self.r, g: self.g, b: self.b, a: self.a }
        } else if self.a == 0 {
            Rgba8pre { r: 0, g: 0, b: 0, a: self.a }
        } else {
            Rgba8pre {
                r: multiply_u8_spec(self.r, self.a) as u8,
                g: multiply_u8_spec(self.g, self.a) as u8,
                b: multiply_u8_spec(self.b, self.a) as u8,
                a: self.a,
            }
        }
    }

    /// Multiplies the color channels by alpha.
    pub fn premultiply(self) -> (p: Rgba8pre)
        ensures
            p == self.premultiply_spec(),
            p.a == self.a,
            p.r <= self.r && p.g <= self.g && p.b <= self.b,
    {
        proof {
            lemma_multiply_u8_bounds(self.r, self.a);
            lemma_multiply_u8_bounds(self.g, self.a);
            lemma_multiply_u8_bounds(self.b, self.a);
        }
        match self.a {
            255 => Rgba8pre::new(self.r, self.g, self.b, self.a),
            0 => Rgba8pre::new(0, 0, 0, self.a),
            _ => {
                let r = multiply_u8(self.r, self.a);
                let g = multiply_u8(self.g, self.a);
                let b = multiply_u8(self.b, self.a);
                Rgba8pre::new(r, g, b, self.a)
            },
        }
    }

    /// Sets all channels to zero.
    pub fn clear(&mut self)
        ensures
            *final(self) == (Rgba8 { r: 0, g: 0, b: 0, a: 0 }),
    {
        self.r = 0;
        self.g = 0;
        self.b = 0;
        self.a = 0;
    }
}

/// A color whose red, green and blue channels have been multiplied by alpha.
#[derive(Debug, Default, Copy, Clone, PartialEq)]
pub struct Rgba8pre {
    /// Red.
    pub r: u8,
    /// Green.
    pub g: u8,
    /// Blue.
    pub b: u8,
    /// Alpha.
    pub a: u8,
}

impl Rgba8pre {
    /// Creates a color from its channels.
    pub fn new(r: u8, g: u8, b: u8, a: u8) -> (c: Self)
        ensures
            c == (Rgba8pre { r, g, b, a }),
    {
        Self { r, g, b, a }
    }

    /// Creates a color from the channels of another.
    pub fn from_trait<C: Color>(c: C) -> (r: Self)
        ensures
            r == (Rgba8pre {
                r: c.channels().0,
                g: c.channels().1,
                b: c.channels().2,
                a: c.channels().3,
            }),
    {
        Self::new(c.red8(), c.green8(), c.blue8(), c.alpha8())
    }

    /// Creates a color from red, green, blue and alpha.
    pub fn from_array(v: [u8; 4]) -> (c: Self)
        ensures
            c == (Rgba8pre { r: v@[0], g: v@[1], b: v@[2], a: v@[3] }),
    {
        Self::new(v[0], v[1], v[2], v[3])
    }

    /// Returns red, green, blue and alpha.
    pub fn into_array(&self) -> (r: [u8; 4])
        ensures
            r@ == seq![self.r, self.g, self.b, self.a],
    {
        let r = [self.r, self.g, self.b, self.a];
        assert(r@ =~= seq![self.r, self.g, self.b, self.a]);
        r
    }

    /// Creates an opaque color from red, green and blue.
    pub fn from_array3(v: [u8; 3]) -> (c: Self)
        ensures
            c == (Rgba8pre { r: v@[0], g: v@[1], b: v@[2], a: 255 }),
    {
        Self::new(v[0], v[1], v[2], u8::MAX)
    }

    /// Creates a color from red, green, blue and alpha.
    pub fn from_array4(v: [u8; 4]) -> (c: Self)
        ensures
            c == (Rgba8pre { r: v@[0], g: v@[1], b: v@[2], a: v@[3] }),
    {
        Self::new(v[0], v[1], v[2], v[3])
    }

    /// Returns red, green and blue.
    pub fn into_array3(&self) -> (r: [u8; 3])
        ensures
            r@ == seq![self.r, self.g, self.b],
    {
        let r = [self.r, self.g, self.b];
        assert(r@ =~= seq![self.r, self.g, self.b]);
        r
    }

    /// Returns red, green, blue and alpha.
    pub fn into_array4(&self) -> (r: [u8; 4])
        ensures
            r@ == seq![self.r, self.g, self.b, self.a],
    {
        let r = [self.r, self.g, self.b, self.a];
        assert(r@ =~= seq![self.r, self.g, self.b, self.a]);
        r
    }
}

/// A color in the sRGB color space, with alpha.
#[derive(Debug, Default, Copy, Clone, PartialEq)]
pub struct Srgba8 {
    /// Red.
    r: u8,
    /// Green.
    g: u8,
    /// Blue.
    b: u8,
    /// Alpha.
    a: u8,
}

impl View for Srgba8 {
    type V = (u8, u8, u8, u8);

    closed spec fn view(&self) -> (u8, u8, u8, u8) {
        (self.r, self.g, self.b, self.a)
    }
}

impl Srgba8 {
    /// Creates a color from its channels.
    pub fn new(r: u8, g: u8, b: u8, a: u8) -> (c: Self)
        ensures
            c@ == (r, g, b, a),
    {
        Self { r, g, b, a }
    }

    /// Creates a color from red, green, blue and alpha.
    pub fn from_array(v: [u8; 4]) -> (c: Self)
        ensures
            c@ == (v@[0], v@[1], v@[2], v@[3]),
    {
        Self::new(v[0], v[1], v[2], v[3])
    }

    /// Returns red, green, blue and alpha.
    pub fn into_array(&self) -> (r: [u8; 4])
        ensures
            r@ == seq![self@.0, self@.1, self@.2, self@.3],
    {
        let r = [self.r, self.g, self.b, self.a];
        assert(r@ =~= seq![self.r, self.g, self.b, self.a]);
        r
    }

    /// Returns opaque white.
    pub fn white() -> (c: Self)
        ensures
            c@ == (255u8, 255u8, 255u8, 255u8),
    {
        Self::new(255, 255, 255, 255)
    }

    /// Returns opaque black.
    pub fn black() -> (c: Self)
        ensures
            c@ == (0u8, 0u8, 0u8, 255u8),
    {
        Self::new(0, 0, 0, 255)
    }
}

/// A product of two channel values is no larger than either of them.
pub proof fn lemma_multiply_u8_bounds(a: u8, b: u8)
    ensures
        0 <= multiply_u8_spec(a, b) <= a,
        0 <= multiply_u8_spec(a, b) <= b,
{
    let p = (a as int) * (b as int);
    assert(0 <= p <= 255 * (a as int) && p <= 255 * (b as int) && 2 * (a as int) * (b as int) == 2
        * p) by (nonlinear_arith)
        requires
            p == (a as int) * (b as int),
            0 <= a <= 255,
            0 <= b <= 255,
    ;
}

impl Color for Rgba8 {
    open spec fn channels(&self) -> (u8, u8, u8, u8) {
        (self.r, self.g, self.b, self.a)
    }

    open spec fn premultiplied(&self) -> bool {
        false
    }

    fn red8(&self) -> (r: u8) {
        self.r
    }

    fn green8(&self) -> (r: u8) {
        self.g
    }

    fn blue8(&self) -> (r: u8) {
        self.b
    }

    fn alpha8(&self) -> (r: u8) {
        self.a
    }

    fn is_transparent(&self) -> (r: bool) {
        self.alpha8() == 0
    }

    fn is_opaque(&self) -> (r: bool) {
        self.alpha8() == 255
    }

    fn is_premultiplied(&self) -> (r: bool) {
        false
    }
}

impl Color for Rgb8 {
    open spec fn channels(&self) -> (u8, u8, u8, u8) {
        (self.r, self.g, self.b, 255u8)
    }

    open spec fn premultiplied(&self) -> bool {
        false
    }

    fn red8(&self) -> (r: u8) {
        self.r
    }

    fn green8(&self) -> (r: u8) {
        self.g
    }

    fn blue8(&self) -> (r: u8) {
        self.b
    }

    fn alpha8(&self) -> (r: u8) {
        255u8
    }

    fn is_transparent(&self) -> (r: bool) {
        self.alpha8() == 0
    }

    fn is_opaque(&self) -> (r: bool) {
        self.alpha8() == 255
    }

    fn is_premultiplied(&self) -> (r: bool) {
        false
    }
}

impl Color for Rgba8pre {
    open spec fn channels(&self) -> (u8, u8, u8, u8) {
        (self.r, self.g, self.b, self.a)
    }

    open spec fn premultiplied(&self) -> bool {
        true
    }

    fn red8(&self) -> (r: u8) {
        self.r
    }

    fn green8(&self) -> (r: u8) {
        self.g
    }

    fn blue8(&self) -> (r: u8) {
        self.b
    }

    fn alpha8(&self) -> (r: u8) {
        self.a
    }

    fn is_transparent(&self) -> (r: bool) {
        self.alpha8() == 0
    }

    fn is_opaque(&self) -> (r: bool) {
        self.alpha8() == 255
    }

    fn is_premultiplied(&self) -> (r: bool) {
        true
    }
}

impl Color for Gray8 {
    open spec fn channels(&self) -> (u8, u8, u8, u8) {
        (self.value, self.value, self.value, self.alpha)
    }

    open spec fn premultiplied(&self) -> bool {
        false
    }

    fn red8(&self) -> (r: u8) {
        self.value
    }

    fn green8(&self) -> (r: u8) {
        self.value
    }

    fn blue8(&self) -> (r: u8) {
        self.value
    }

    fn alpha8(&self) -> (r: u8) {
        self.alpha
    }

    fn is_transparent(&self) -> (r: bool) {
        self.alpha8() == 0
    }

    fn is_opaque(&self) -> (r: bool) {
        self.alpha8() == 255
    }

    fn is_premultiplied(&self) -> (r: bool) {
        false
    }
}

} // verus!
