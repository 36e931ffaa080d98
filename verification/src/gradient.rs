//! Gradients: colors that change along a span.

use crate::cell::coord_ok;
use crate::color::Rgb8;
use crate::dist::{line_mr, line_mr_spec};
use crate::line::{
    div_trunc, lemma_trunc_rem_bounds, li_after, trunc_div, trunc_rem, LineInterpolator,
};
use vstd::prelude::*;

verus! {

/// The gradient that runs along the horizontal axis.
#[derive(Clone, Debug)]
pub struct GradientX {}

impl GradientX {
    /// Returns the position along the gradient of the point `(x, y)`: `x` itself.
    pub fn calculate(&self, x: i64, _y: i64, _d: i64) -> (r: i64)
        ensures
            r == x,
    {
        x
    }
}

/// The largest number of pixels of a span that gets a gradient.
pub const SPAN_MAX: usize = 0x100_0000;

/// The largest magnitude of the ends of a gradient, in 16ths of a pixel, and
/// the largest number of its colors.
pub const GRADIENT_MAX: i64 = 0x1000_0000;

/// The interpolator that goes from `y1` to `y2` in `count` steps.
pub open spec fn li_start(y1: i64, y2: i64, count: i64) -> LineInterpolator {
    LineInterpolator {
        xmod: (LineInterpolator::start_spec(y1, y2 - y1, count).xmod - count) as i64,
        ..LineInterpolator::start_spec(y1, y2 - y1, count)
    }
}

/// Whether the interpolator from `y1` to `y2` in `count` steps is, `k` steps on,
/// where the line is: it has gone the `k`-th part of the way, but for what its
/// remainders hold, and so lies between its ends or next to them.
pub open spec fn on_way(y1: i64, y2: i64, count: i64, k: int) -> bool {
    let first = li_start(y1, y2, count);
    let li = li_after(first, k);
    &&& li.left == first.left
    &&& li.rem == first.rem
    &&& li.count == first.count
    &&& count >= 1 ==> -count < li.xmod <= 0
    &&& count >= 1 ==> li.y * count + li.xmod == y1 * count + first.xmod + k * (y2 - y1)
    &&& y1 <= y2 ==> y1 - 1 <= li.y <= y2 + 1
    &&& y2 <= y1 ==> y2 - 1 <= li.y <= y1 + 1
    &&& k < count ==> li.can_step()
}

/// What an interpolator adds in all its steps together is the distance that it
/// was made for.
pub proof fn lemma_li_start(y1: i64, y2: i64, count: i64)
    requires
        coord_ok(y1 as int),
        coord_ok(y2 as int),
        1 <= count <= SPAN_MAX,
    ensures
        LineInterpolator::can_start(y2 - y1, count),
        li_start(y1, y2, count).left * count + li_start(y1, y2, count).rem == y2 - y1,
        -count < li_start(y1, y2, count).xmod <= 0,
        0 < li_start(y1, y2, count).rem <= count,
        li_start(y1, y2, count).count == count,
        li_start(y1, y2, count).y == y1,
        -0x1_0000_0001 <= li_start(y1, y2, count).left <= 0x1_0000_0000,
{
    let d = y2 - y1;
    let c = count as int;
    lemma_trunc_rem_bounds(d, c);
    let q = trunc_div(d, c);
    let r = trunc_rem(d, c);
    assert((q - 1) * c + (r + c) == c * q + r) by (nonlinear_arith);
    assert(q * c == c * q) by (nonlinear_arith);
}

/// How far an interpolator has come follows from what it has added up.
pub proof fn lemma_li_between(t: int, c: int, k: int, d: int, e: int)
    requires
        c >= 1,
        0 <= k <= c,
        -c < e < c,
        t * c == k * d + e,
    ensures
        d >= 0 ==> -1 <= t <= d + 1,
        d <= 0 ==> d - 1 <= t <= 1,
{
    if d >= 0 {
        assert(0 <= k * d <= c * d) by (nonlinear_arith)
            requires
                0 <= k <= c,
                d >= 0,
        ;
        assert(-1 <= t <= d + 1) by (nonlinear_arith)
            requires
                -c < t * c < c * d + c,
                c >= 1,
        ;
    }
    if d <= 0 {
        assert(c * d <= k * d <= 0) by (nonlinear_arith)
            requires
                0 <= k <= c,
                d <= 0,
        ;
        assert(d - 1 <= t <= 1) by (nonlinear_arith)
            requires
                c * d - c < t * c < c,
                c >= 1,
        ;
    }
}

/// Between points of the coordinate range an interpolator can make all its
/// steps, and stays between its ends or next to them.
pub proof fn lemma_on_way(y1: i64, y2: i64, count: i64, k: int)
    requires
        coord_ok(y1 as int),
        coord_ok(y2 as int),
        0 <= count <= SPAN_MAX,
        0 <= k <= count,
    ensures
        LineInterpolator::can_start(y2 - y1, count),
        on_way(y1, y2, count, k),
    decreases k,
{
    let d = y2 - y1;
    let first = li_start(y1, y2, count);
    if count == 0 {
        lemma_trunc_rem_bounds(d, 1);
    } else {
        lemma_li_start(y1, y2, count);
        let c = count as int;
        if k > 0 {
            lemma_on_way(y1, y2, count, k - 1);
            let before = li_after(first, k - 1);
            let li = li_after(first, k);
            assert(li == before.stepped());
            assert(before.can_step());
            let y0 = before.y as int;
            let l = before.left as int;
            assert((y0 + l) * c == y0 * c + l * c) by (nonlinear_arith);
            assert((y0 + l + 1) * c == y0 * c + l * c + c) by (nonlinear_arith);
            assert((k - 1) * d + d == k * d) by (nonlinear_arith);
            assert(li.y * c + li.xmod == y1 * c + first.xmod + k * d);
        }
        let li = li_after(first, k);
        let t = li.y - y1;
        let yk = li.y as int;
        let ys = y1 as int;
        assert(t * c == yk * c - ys * c) by (nonlinear_arith)
            requires
                t == yk - ys,
        ;
        lemma_li_between(t, c, k, d, first.xmod - li.xmod);
    }
}

/// Steps along a span in sub-pixel coordinates, both axes at once.
#[derive(Clone, Copy, Debug, PartialEq)]
pub struct Interpolator {
    /// The interpolator of the horizontal coordinate, once the span has begun.
    pub li_x: Option<LineInterpolator>,
    /// The interpolator of the vertical coordinate, once the span has begun.
    pub li_y: Option<LineInterpolator>,
}

impl Interpolator {
    /// Creates an interpolator that has not begun a span.
    pub fn new() -> (r: Self)
        ensures
            r.li_x.is_none(),
            r.li_y.is_none(),
    {
        Self { li_x: None, li_y: None }
    }

    /// Returns the number of bits behind the point of a coordinate.
    pub fn subpixel_shift(&self) -> (r: i64)
        ensures
            r == 8,
    {
        8
    }

    /// Returns the number of sub-pixel units in a pixel.
    pub fn subpixel_scale(&self) -> (r: i64)
        ensures
            r == 256,
    {
        256
    }

    /// Begins a span of `len` pixels that runs from `(x1, y1)` to `(x2, y2)`, in
    /// sub-pixel coordinates.
    pub fn begin(&mut self, x1: i64, y1: i64, x2: i64, y2: i64, len: usize)
        requires
            coord_ok(x1 as int),
            coord_ok(y1 as int),
            coord_ok(x2 as int),
            coord_ok(y2 as int),
            len <= SPAN_MAX,
        ensures
            final(self).li_x == Some(li_start(x1, x2, len as i64)),
            final(self).li_y == Some(li_start(y1, y2, len as i64)),
    {
        proof {
            lemma_on_way(x1, x2, len as i64, 0);
            lemma_on_way(y1, y2, len as i64, 0);
        }
        self.li_x = Some(LineInterpolator::new(x1, x2, len as i64));
        self.li_y = Some(LineInterpolator::new(y1, y2, len as i64));
    }

    /// Whether both coordinates can go one step on.
    pub open spec fn can_step(self) -> bool {
        &&& self.li_x.is_some() ==> self.li_x.unwrap().can_step()
        &&& self.li_y.is_some() ==> self.li_y.unwrap().can_step()
    }

    /// The interpolator one step on.
    pub open spec fn stepped(self) -> Interpolator {
        Interpolator {
            li_x: match self.li_x {
                Some(li) => Some(li.stepped()),
                None => None,
            },
            li_y: match self.li_y {
                Some(li) => Some(li.stepped()),
                None => None,
            },
        }
    }

    /// Goes one pixel on along the span.
    pub fn inc(&mut self)
        requires
            old(self).can_step(),
        ensures
            *final(self) == old(self).stepped(),
    {
        match self.li_x {
            Some(mut li) => {
                li.inc();
                self.li_x = Some(li);
            },
            None => {},
        }
        match self.li_y {
            Some(mut li) => {
                li.inc();
                self.li_y = Some(li);
            },
            None => {},
        }
    }

    /// Returns the current coordinates.
    pub fn coordinates(&self) -> (r: (i64, i64))
        requires
            self.li_x.is_some(),
            self.li_y.is_some(),
        ensures
            r == (self.li_x.unwrap().y, self.li_y.unwrap().y),
    {
        match (self.li_x, self.li_y) {
            (Some(x), Some(y)) => (x.y, y.y),
            _ => (0, 0),
        }
    }
}

/// The index of the color at the position `d` of a gradient that runs from `d1`
/// to `d2` through `n` colors: the share of the way from `d1` to `d2` that `d`
/// has gone, in colors, kept inside the gradient. A gradient that does not run
/// forwards counts as one unit long.
pub open spec fn color_index(d: int, d1: int, d2: int, n: int) -> int {
    let dd = if d2 - d1 < 1 {
        1
    } else {
        d2 - d1
    };
    let i = trunc_div((d - d1) * n, dd);
    if i < 0 {
        0
    } else if i >= n {
        n - 1
    } else {
        i
    }
}

/// Colors along a span, taken from a gradient.
#[derive(Clone, Debug)]
pub struct SpanGradient {
    /// Where the gradient starts, in 16ths of a pixel.
    pub d1: i64,
    /// Where the gradient ends, in 16ths of a pixel.
    pub d2: i64,
    /// The gradient function.
    pub gradient: GradientX,
    /// The colors of the gradient.
    pub color: Vec<Rgb8>,
}

impl SpanGradient {
    /// Whether the gradient has a color, and its ends and the number of its
    /// colors are small enough to compute with.
    pub open spec fn wf(&self) -> bool {
        &&& 0 < self.color@.len() <= GRADIENT_MAX
        &&& -GRADIENT_MAX <= self.d1 <= GRADIENT_MAX
        &&& -GRADIENT_MAX <= self.d2 <= GRADIENT_MAX
    }

    /// Creates a gradient through the colors `color` that runs from `d1` to
    /// `d2`, both in 16ths of a pixel.
    pub fn new(gradient: GradientX, color: &[Rgb8], d1: i64, d2: i64) -> (r: Self)
        ensures
            r.d1 == d1,
            r.d2 == d2,
            r.color@ == color@,
    {
        Self { d1, d2, gradient, color: vstd::slice::slice_to_vec(color) }
    }

    /// Returns the number of bits behind the point of the ends of the gradient.
    pub fn subpixel_shift(&self) -> (r: i64)
        ensures
            r == 4,
    {
        4
    }

    /// Returns the number of units of the ends of the gradient in a pixel.
    pub fn subpixel_scale(&self) -> (r: i64)
        ensures
            r == 16,
    {
        16
    }

    /// Gets the gradient ready for use.
    pub fn prepare(&mut self)
        ensures
            *final(self) == *old(self),
    {
    }

    /// The color of pixel `i` of a span whose horizontal coordinate starts at
    /// `x1` and reaches `x2` after `len` pixels.
    pub open spec fn color_at(&self, x1: i64, x2: i64, len: usize, i: int) -> Rgb8 {
        self.color@[color_index(
            line_mr_spec(li_after(li_start(x1, x2, len as i64), i).y as int),
            self.d1 as int,
            self.d2 as int,
            self.color@.len() as int,
        )]
    }

    /// Returns the colors of a span of `len` pixels that runs from `(x1, y1)` to
    /// `(x2, y2)`, in sub-pixel coordinates: each pixel gets the color at its
    /// place in the gradient.
    pub fn generate(&self, x1: i64, y1: i64, x2: i64, y2: i64, len: usize) -> (span: Vec<Rgb8>)
        requires
            self.wf(),
            coord_ok(x1 as int),
            coord_ok(y1 as int),
            coord_ok(x2 as int),
            coord_ok(y2 as int),
            len <= SPAN_MAX,
        ensures
            span@.len() == len,
            forall|i: int| 0 <= i < len ==> #[trigger] span@[i] == self.color_at(x1, x2, len, i),
    {
        let mut interp = Interpolator::new();
        let downscale_shift = interp.subpixel_shift() - self.subpixel_shift();
        let mut dd = self.d2 - self.d1;
        if dd < 1 {
            dd = 1;
        }
        let ncolors = self.color.len() as i64;
        let mut span: Vec<Rgb8> = Vec::new();
        interp.begin(x1, y1, x2, y2, len);
        let ghost fx = li_start(x1, x2, len as i64);
        let ghost fy = li_start(y1, y2, len as i64);
        let mut k: usize = 0;
        while k < len
            invariant
                k <= len,
                len <= SPAN_MAX,
                self.wf(),
                coord_ok(x1 as int),
                coord_ok(y1 as int),
                coord_ok(x2 as int),
                coord_ok(y2 as int),
                fx == li_start(x1, x2, len as i64),
                fy == li_start(y1, y2, len as i64),
                interp.li_x == Some(li_after(fx, k as int)),
                interp.li_y == Some(li_after(fy, k as int)),
                ncolors == self.color@.len(),
                dd == (if self.d2 - self.d1 < 1 {
                    1
                } else {
                    self.d2 - self.d1
                }),
                downscale_shift == 4,
                span@.len() == k,
                forall|i: int| 0 <= i < k ==> #[trigger] span@[i] == self.color_at(x1, x2, len, i),
            decreases len - k,
        {
            proof {
                lemma_on_way(x1, x2, len as i64, k as int);
                lemma_on_way(y1, y2, len as i64, k as int);
            }
            let (x, y) = interp.coordinates();
            let d = self.gradient.calculate(line_mr(x), line_mr(y), self.d2);
            proof {
                assert(-0x2000_0000 <= d - self.d1 <= 0x2000_0000);
                assert(-0x2000_0000 * 0x1000_0000 <= (d - self.d1) * ncolors <= 0x2000_0000
                    * 0x1000_0000) by (nonlinear_arith)
                    requires
                        -0x2000_0000 <= d - self.d1 <= 0x2000_0000,
                        0 < ncolors <= 0x1000_0000,
                ;
            }
            let mut d = div_trunc((d - self.d1) * ncolors, dd);
            if d < 0 {
                d = 0;
            }
            if d >= ncolors {
                d = ncolors - 1;
            }
            span.push(self.color[d as usize]);
            interp.inc();
            k = k + 1;
        }
        span
    }
}

} // verus!
