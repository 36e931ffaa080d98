//! Renderers: they paint the scanlines of a sweep onto an image. With them
//! stand the line stepping on whole pixels and the clipping of line segments
//! that the outline renderers use.

use crate::base::{max2, min2, RenderingBase};
use crate::cell::{abs, coord_ok, lemma_mul_bounded, pixel_ok, CellStore, MAX_CELLS};
use crate::clip::{clamp_i64, ClipBox, ClipSide, Rectangle};
use crate::color::{Color, Rgba8};
use crate::dist::fits;
use crate::line::{lemma_trunc_exec, trunc_div, LineInterpolator};
use crate::outline::Subpixel;
use crate::paths::{PathCommand, Vertex};
use crate::pixel::{covered, same_pixels, Canvas, Pixel};
use crate::rast::{
    lemma_sweep_keeps_base, lemma_sweep_keeps_row_number, PathStatus, RasterState,
    RasterizerScanline,
};
use crate::scan::{ScanlineU8, ScanlineView, SpanView};
use crate::util::{pixel_floor, pixel_of};
use vstd::prelude::*;

verus! {

/// The scanline that a renderer reads.
#[derive(Clone, Debug, PartialEq, Eq, Hash)]
pub struct RenderData {
    /// The scanline.
    pub sl: ScanlineU8,
}

impl RenderData {
    /// Creates render data with a scanline without spans.
    pub fn new() -> (r: Self)
        ensures
            r.sl@ == ScanlineU8::new_spec(),
            r.sl@.wf(),
    {
        Self { sl: ScanlineU8::new() }
    }
}

impl Default for RenderData {
    fn default() -> (r: Self)
        ensures
            r.sl@ == ScanlineU8::new_spec(),
    {
        Self::new()
    }
}

/// A bilinear filter for line patterns.
#[derive(Debug, Default)]
pub struct PatternFilterBilinear();

impl PatternFilterBilinear {
    /// Creates the filter.
    pub fn new() -> (r: Self) {
        Self {  }
    }

    /// Returns the number of pixels by which a pattern has to be widened on each
    /// side for the filter: 1.
    pub fn dilation(&self) -> (r: u64)
        ensures
            r == 1,
    {
        1
    }
}

/// Steps along a line on whole pixels.
pub struct BresehamInterpolator {
    /// Current pixel column.
    pub x1: i64,
    /// Current pixel row.
    pub y1: i64,
    /// The pixel column that belongs to the current row, for steep lines.
    pub x2: i64,
    /// The pixel row that belongs to the current column, for flat lines.
    pub y2: i64,
    /// Whether the line is steep: higher than it is wide.
    pub ver: bool,
    /// The number of steps.
    pub len: i64,
    /// The direction of a step along the longer axis.
    pub inc: i64,
    /// Steps across the line: the position on the shorter axis.
    pub func: LineInterpolator,
}

impl BresehamInterpolator {
    /// Whether the line from `(x1, y1)` to `(x2, y2)` is steep, in whole pixels.
    pub open spec fn steep(x1: i64, y1: i64, x2: i64, y2: i64) -> bool {
        abs(pixel_of(y2 as int) - pixel_of(y1 as int)) > abs(
            pixel_of(x2 as int) - pixel_of(x1 as int),
        )
    }

    /// The number of steps along the line from `(x1, y1)` to `(x2, y2)`.
    pub open spec fn steps(x1: i64, y1: i64, x2: i64, y2: i64) -> int {
        if Self::steep(x1, y1, x2, y2) {
            abs(pixel_of(y2 as int) - pixel_of(y1 as int))
        } else {
            abs(pixel_of(x2 as int) - pixel_of(x1 as int))
        }
    }

    /// The extent of the line across its longer axis, in sub-pixel units.
    pub open spec fn across(x1: i64, y1: i64, x2: i64, y2: i64) -> int {
        if Self::steep(x1, y1, x2, y2) {
            x2 - x1
        } else {
            y2 - y1
        }
    }

    /// The interpolator at the start of the line from `(x1, y1)` to `(x2, y2)`: it
    /// stands on the pixel of the first point, steps by one pixel along the longer
    /// axis towards the second point, and follows the line across it.
    pub open spec fn start(x1: i64, y1: i64, x2: i64, y2: i64) -> BresehamInterpolator {
        let ver = Self::steep(x1, y1, x2, y2);
        let len = Self::steps(x1, y1, x2, y2) as i64;
        let from = if ver {
            x1
        } else {
            y1
        };
        let begun = LineInterpolator::start_spec(from, Self::across(x1, y1, x2, y2), len);
        let func = LineInterpolator { xmod: (begun.xmod - len) as i64, ..begun };
        BresehamInterpolator {
            x1: pixel_of(x1 as int) as i64,
            y1: pixel_of(y1 as int) as i64,
            x2: pixel_of(func.y as int) as i64,
            y2: pixel_of(func.y as int) as i64,
            ver,
            len,
            inc: if ver {
                if pixel_of(y2 as int) > pixel_of(y1 as int) {
                    1i64
                } else {
                    (-1i64) as i64
                }
            } else if pixel_of(x2 as int) > pixel_of(x1 as int) {
                1i64
            } else {
                (-1i64) as i64
            },
            func,
        }
    }

    /// The pixel on which the interpolator stands.
    pub open spec fn dot(self) -> (int, int) {
        if self.ver {
            (self.x2 as int, self.y1 as int)
        } else {
            (self.x1 as int, self.y2 as int)
        }
    }

    /// The interpolator one step on along its longer axis.
    pub open spec fn stepped(self) -> BresehamInterpolator {
        let func = self.func.stepped();
        if self.ver {
            BresehamInterpolator {
                func,
                y1: (self.y1 + self.inc) as i64,
                x2: pixel_of(func.y as int) as i64,
                ..self
            }
        } else {
            BresehamInterpolator {
                func,
                x1: (self.x1 + self.inc) as i64,
                y2: pixel_of(func.y as int) as i64,
                ..self
            }
        }
    }

    /// The interpolator `k` steps on.
    pub open spec fn after(self, k: int) -> BresehamInterpolator
        decreases k,
    {
        if k <= 0 {
            self
        } else {
            self.after(k - 1).stepped()
        }
    }

    /// Creates the interpolator of the line from `(x1_hr, y1_hr)` to `(x2_hr, y2_hr)`.
    pub fn new(x1_hr: Subpixel, y1_hr: Subpixel, x2_hr: Subpixel, y2_hr: Subpixel) -> (r: Self)
        requires
            LineInterpolator::can_start(
                Self::across(x1_hr.0, y1_hr.0, x2_hr.0, y2_hr.0),
                Self::steps(x1_hr.0, y1_hr.0, x2_hr.0, y2_hr.0) as i64,
            ),
        ensures
            r == Self::start(x1_hr.0, y1_hr.0, x2_hr.0, y2_hr.0),
    {
        let x1 = i64::from(x1_hr);
        let x2 = i64::from(x2_hr);
        let y1 = i64::from(y1_hr);
        let y2 = i64::from(y2_hr);
        let dy = if y2 - y1 < 0 {
            y1 - y2
        } else {
            y2 - y1
        };
        let dx = if x2 - x1 < 0 {
            x1 - x2
        } else {
            x2 - x1
        };
        let ver = dy > dx;
        let len = if ver {
            dy
        } else {
            dx
        };
        let inc: i64 = if ver {
            if y2 > y1 {
                1
            } else {
                -1
            }
        } else if x2 > x1 {
            1
        } else {
            -1
        };
        let (z1, z2) = if ver {
            (x1_hr, x2_hr)
        } else {
            (y1_hr, y2_hr)
        };
        let func = LineInterpolator::new(z1.value(), z2.value(), len);
        let y2 = pixel_floor(func.y);
        let x2 = pixel_floor(func.y);
        Self { x1, y1, x2, y2, ver, len, inc, func }
    }

    /// Whether a step can be computed without any value leaving `i64`.
    pub open spec fn can_step(self, along: i64) -> bool {
        self.func.can_step() && fits(along + self.inc)
    }

    /// Goes one row on along a steep line.
    pub fn vstep(&mut self)
        requires
            old(self).can_step(old(self).y1),
        ensures
            final(self).func == old(self).func.stepped(),
            final(self).y1 == old(self).y1 + old(self).inc,
            final(self).x2 == pixel_of(final(self).func.y as int),
            final(self).x1 == old(self).x1,
            final(self).y2 == old(self).y2,
            final(self).ver == old(self).ver,
            final(self).len == old(self).len,
            final(self).inc == old(self).inc,
            old(self).ver ==> *final(self) == old(self).stepped(),
    {
        self.func.inc();
        self.y1 += self.inc;
        self.x2 = pixel_floor(self.func.y);
    }

    /// Goes one column on along a flat line.
    pub fn hstep(&mut self)
        requires
            old(self).can_step(old(self).x1),
        ensures
            final(self).func == old(self).func.stepped(),
            final(self).x1 == old(self).x1 + old(self).inc,
            final(self).y2 == pixel_of(final(self).func.y as int),
            final(self).y1 == old(self).y1,
            final(self).x2 == old(self).x2,
            final(self).ver == old(self).ver,
            final(self).len == old(self).len,
            final(self).inc == old(self).inc,
            !old(self).ver ==> *final(self) == old(self).stepped(),
    {
        self.func.inc();
        self.x1 += self.inc;
        self.y2 = pixel_floor(self.func.y);
    }
}

/// Where the line through `(a0, b0)` and `(a1, b1)` reaches `a == c`: its `b`
/// there, rounded towards zero and kept inside `i64`.
pub open spec fn slide(c: int, a0: int, b0: int, a1: int, b1: int) -> int {
    clamp_i64(trunc_div((c - a0) * (b1 - b0) + b0 * (a1 - a0), a1 - a0))
}

/// Returns where the line through `(a0, b0)` and `(a1, b1)` reaches `a == c`.
fn slide_to(c: i64, a0: i64, b0: i64, a1: i64, b1: i64) -> (r: i64)
    requires
        coord_ok(c as int),
        coord_ok(a0 as int),
        coord_ok(b0 as int),
        coord_ok(a1 as int),
        coord_ok(b1 as int),
        a0 != a1,
    ensures
        r == slide(c as int, a0 as int, b0 as int, a1 as int, b1 as int),
{
    let d: i128 = (a1 - a0) as i128;
    proof {
        lemma_mul_bounded(c - a0, b1 - b0, 0x1_0000_0000, 0x1_0000_0000);
        lemma_mul_bounded(b0 as int, a1 - a0, 0x1_0000_0000, 0x1_0000_0000);
    }
    let n: i128 = ((c - a0) as i128) * ((b1 - b0) as i128) + (b0 as i128) * d;
    proof {
        lemma_trunc_exec(n as int, d as int);
    }
    let q: i128 = n / d;
    if q < i64::MIN as i128 {
        i64::MIN
    } else if q > i64::MAX as i128 {
        i64::MAX
    } else {
        q as i64
    }
}

/// Where an end point of a segment is moved to when the segment is clipped.
///
/// `flags` are the flags of the point `(x, y)`. A point beside the box gets the
/// height at which the segment reaches the vertical edge on its side. If the
/// point is then above or below the box, it gets the horizontal position at which
/// the segment reaches that horizontal edge. A segment that runs along an edge
/// that it would have to reach has no such point.
pub open spec fn moved_point(
    b: ClipBox,
    x1: int,
    y1: int,
    x2: int,
    y2: int,
    x: int,
    y: int,
    flags: int,
) -> Option<(int, int)> {
    let beside = flags % 4 != 0;
    if beside && x1 == x2 {
        None
    } else {
        let ny = if beside {
            slide(if flags % 2 == 1 {
                b.x1
            } else {
                b.x2
            }, x1, y1, x2, y2)
        } else {
            y
        };
        let side = b.side_y(ny);
        if side != 0 && y1 == y2 {
            None
        } else if side != 0 {
            Some((slide(b.edge_y(side), y1, x1, y2, x2), ny))
        } else {
            Some((x, ny))
        }
    }
}

/// Moves an end point `(x, y)` of the segment from `(x1, y1)` to `(x2, y2)` onto
/// the edges of the clip box.
fn clip_move_point(
    x1: i64,
    y1: i64,
    x2: i64,
    y2: i64,
    clip_box: Rectangle,
    x: i64,
    y: i64,
    flags: u8,
) -> (r: Option<(i64, i64)>)
    requires
        clip_box@.ok(),
        coord_ok(x1 as int),
        coord_ok(y1 as int),
        coord_ok(x2 as int),
        coord_ok(y2 as int),
        coord_ok(x as int),
        coord_ok(y as int),
        flags < 16,
    ensures
        match moved_point(
            clip_box@,
            x1 as int,
            y1 as int,
            x2 as int,
            y2 as int,
            x as int,
            y as int,
            flags as int,
        ) {
            Some(p) => r == Some((p.0 as i64, p.1 as i64)) && fits(p.0) && fits(p.1),
            None => r is None,
        },
{
    let (mut x, mut y) = (x, y);
    assert((flags & (1u8 | 2u8) != 0) == (flags % 4 != 0) && (flags & 1u8 != 0) == (flags % 2 == 1))
        by (bit_vector);
    if flags & (ClipSide::LEFT | ClipSide::RIGHT) != 0 {
        if x1 == x2 {
            return None;
        } else {
            let edge = if flags & ClipSide::LEFT != 0 {
                clip_box.x1()
            } else {
                clip_box.x2()
            };
            y = slide_to(edge, x1, y1, x2, y2);
        }
    }
    if y < clip_box.y1() || y > clip_box.y2() {
        if y1 == y2 {
            return None;
        } else {
            let edge = if y < clip_box.y1() {
                clip_box.y1()
            } else {
                clip_box.y2()
            };
            x = slide_to(edge, y1, x1, y2, x2);
        }
    }
    Some((x, y))
}

/// A quotient rounded towards zero lies between two integers if the exact
/// quotient does.
pub proof fn lemma_trunc_between(n: int, d: int, lo: int, hi: int)
    requires
        d > 0,
        lo * d <= n <= hi * d,
    ensures
        lo <= trunc_div(n, d) <= hi,
{
    let a = abs(n);
    let q = a / d;
    let r = a % d;
    vstd::arithmetic::div_mod::lemma_fundamental_div_mod(a, d);
    vstd::arithmetic::div_mod::lemma_mod_bound(a, d);
    if n >= 0 {
        assert(trunc_div(n, d) == q);
        assert(q <= hi) by (nonlinear_arith)
            requires
                d * q + r == n,
                r >= 0,
                n <= hi * d,
                d > 0,
        ;
        assert(lo <= q) by (nonlinear_arith)
            requires
                d * q + r == n,
                r < d,
                lo * d <= n,
                d > 0,
        ;
    } else {
        assert(trunc_div(n, d) == -q);
        assert(-q <= hi) by (nonlinear_arith)
            requires
                d * q + r == -n,
                r < d,
                n <= hi * d,
                d > 0,
        ;
        assert(lo <= -q) by (nonlinear_arith)
            requires
                d * q + r == -n,
                r >= 0,
                lo * d <= n,
                d > 0,
        ;
    }
}

/// Dividing the negatives gives the same quotient rounded towards zero.
pub proof fn lemma_trunc_negated(n: int, d: int)
    requires
        d != 0,
    ensures
        trunc_div(n, d) == trunc_div(-n, -d),
{
}

/// Between the ends of a segment, `slide` stays between the ends.
pub proof fn lemma_slide_between(c: int, a0: int, b0: int, a1: int, b1: int)
    requires
        a0 != a1,
        (a0 <= c <= a1) || (a1 <= c <= a0),
        fits(b0),
        fits(b1),
    ensures
        b0 <= b1 ==> b0 <= slide(c, a0, b0, a1, b1) <= b1,
        b1 <= b0 ==> b1 <= slide(c, a0, b0, a1, b1) <= b0,
        slide(c, a0, b0, a1, b1) == trunc_div((c - a0) * (b1 - b0) + b0 * (a1 - a0), a1 - a0),
{
    let d = a1 - a0;
    let t = c - a0;
    let n = t * (b1 - b0) + b0 * d;
    let lo = if b0 <= b1 {
        b0
    } else {
        b1
    };
    let hi = if b0 <= b1 {
        b1
    } else {
        b0
    };
    if d > 0 {
        assert(lo * d <= n <= hi * d) by (nonlinear_arith)
            requires
                n == t * (b1 - b0) + b0 * d,
                0 <= t <= d,
                lo <= b0 <= hi,
                lo <= b1 <= hi,
        ;
        lemma_trunc_between(n, d, lo, hi);
    } else {
        assert(lo * (-d) <= -n <= hi * (-d)) by (nonlinear_arith)
            requires
                n == t * (b1 - b0) + b0 * d,
                d <= t <= 0,
                lo <= b0 <= hi,
                lo <= b1 <= hi,
        ;
        lemma_trunc_between(-n, -d, lo, hi);
        lemma_trunc_negated(n, d);
    }
}

/// A segment after clipping: its two end points and flags.
///
/// The flags are 0 if the segment lies inside the box, 4 if nothing of it is to
/// be drawn, and else 1 if the first point was moved plus 2 if the second was.
pub open spec fn clipped_segment(b: ClipBox, x1: int, y1: int, x2: int, y2: int) -> (
    int,
    int,
    int,
    int,
    int,
) {
    let f1 = b.flags(x1, y1);
    let f2 = b.flags(x2, y2);
    if f1 == 0 && f2 == 0 {
        (x1, y1, x2, y2, 0)
    } else if b.x_bits(x1) != 0 && b.x_bits(x1) == b.x_bits(x2) {
        (x1, y1, x2, y2, 4)
    } else if b.y_bits(y1) != 0 && b.y_bits(y1) == b.y_bits(y2) {
        (x1, y1, x2, y2, 4)
    } else {
        let p1 = if f1 != 0 {
            moved_point(b, x1, y1, x2, y2, x1, y1, f1)
        } else {
            Some((x1, y1))
        };
        match p1 {
            None => (x1, y1, x2, y2, 4),
            Some(p) => {
                if f1 != 0 && p.0 == x2 && p.1 == y2 {
                    (p.0, p.1, x2, y2, 4)
                } else {
                    let p2 = if f2 != 0 {
                        moved_point(b, p.0, p.1, x2, y2, x2, y2, f2)
                    } else {
                        Some((x2, y2))
                    };
                    match p2 {
                        None => (p.0, p.1, x2, y2, 4),
                        Some(q) => {
                            if f2 != 0 && p.0 == q.0 && p.1 == q.1 {
                                (p.0, p.1, q.0, q.1, 4)
                            } else {
                                (p.0, p.1, q.0, q.1, (if f1 != 0 {
                                    1int
                                } else {
                                    0int
                                }) + (if f2 != 0 {
                                    2int
                                } else {
                                    0int
                                }))
                            }
                        },
                    }
                }
            },
        }
    }
}

/// Clips the segment from `(x1, y1)` to `(x2, y2)` against the box.
///
/// Returns the end points after clipping and the flags: 0 if the segment lies
/// inside the box, 4 if nothing of it is to be drawn, and else 1 if the first
/// point was moved plus 2 if the second was.
pub fn clip_line_segment(x1: i64, y1: i64, x2: i64, y2: i64, clip_box: Rectangle) -> (r: (
    i64,
    i64,
    i64,
    i64,
    u8,
))
    requires
        clip_box@.ok(),
        coord_ok(x1 as int),
        coord_ok(y1 as int),
        coord_ok(x2 as int),
        coord_ok(y2 as int),
    ensures
        (r.0 as int, r.1 as int, r.2 as int, r.3 as int, r.4 as int) == clipped_segment(
            clip_box@,
            x1 as int,
            y1 as int,
            x2 as int,
            y2 as int,
        ),
{
    let ghost b = clip_box@;
    let f1 = clip_box.clip_flags_i64(x1, y1);
    let f2 = clip_box.clip_flags_i64(x2, y2);
    let mut ret: u8 = 0;
    if f1 == ClipSide::INSIDE && f2 == ClipSide::INSIDE {
        return (x1, y1, x2, y2, 0);
    }
    let x_side = ClipSide::LEFT | ClipSide::RIGHT;
    let y_side = ClipSide::TOP | ClipSide::BOTTOM;
    proof {
        crate::clip::lemma_flags_split(b, x1 as int, y1 as int, f1);
        crate::clip::lemma_flags_split(b, x2 as int, y2 as int, f2);
    }
    if f1 & x_side != 0 && f1 & x_side == f2 & x_side {
        return (x1, y1, x2, y2, 4);
    }
    if f1 & y_side != 0 && f1 & y_side == f2 & y_side {
        return (x1, y1, x2, y2, 4);
    }
    let (mut x1, mut y1) = (x1, y1);
    let (mut x2, mut y2) = (x2, y2);
    if f1 != 0 {
        proof {
            if x1 != x2 {
                if (x1 <= b.x1 <= x2) || (x2 <= b.x1 <= x1) {
                    lemma_slide_between(b.x1, x1 as int, y1 as int, x2 as int, y2 as int);
                }
                if (x1 <= b.x2 <= x2) || (x2 <= b.x2 <= x1) {
                    lemma_slide_between(b.x2, x1 as int, y1 as int, x2 as int, y2 as int);
                }
            }
            if y1 != y2 {
                if (y1 <= b.y1 <= y2) || (y2 <= b.y1 <= y1) {
                    lemma_slide_between(b.y1, y1 as int, x1 as int, y2 as int, x2 as int);
                }
                if (y1 <= b.y2 <= y2) || (y2 <= b.y2 <= y1) {
                    lemma_slide_between(b.y2, y1 as int, x1 as int, y2 as int, x2 as int);
                }
            }
        }
        if let Some((x, y)) = clip_move_point(x1, y1, x2, y2, clip_box, x1, y1, f1) {
            x1 = x;
            y1 = y;
        } else {
            return (x1, y1, x2, y2, 4);
        }
        if x1 == x2 && y1 == y2 {
            return (x1, y1, x2, y2, 4);
        }
        ret = 1;
    }
    if f2 != 0 {
        if let Some((x, y)) = clip_move_point(x1, y1, x2, y2, clip_box, x2, y2, f2) {
            x2 = x;
            y2 = y;
        } else {
            return (x1, y1, x2, y2, 4);
        }
        if x1 == x2 && y1 == y2 {
            return (x1, y1, x2, y2, 4);
        }
        ret = ret + 2;
    }
    (x1, y1, x2, y2, ret)
}

/// Images with the same pixels as a third have the same pixels.
pub proof fn lemma_same_pixels_chain(a: Canvas, b: Canvas, c: Canvas)
    requires
        same_pixels(a, b),
        same_pixels(b, c),
    ensures
        same_pixels(a, c),
{
    assert forall|x: int, y: int| a.holds(x, y) implies #[trigger] (a.at)(x, y) == (c.at)(x, y) by {
        assert((a.at)(x, y) == (b.at)(x, y));
        assert(b.holds(x, y));
        assert((b.at)(x, y) == (c.at)(x, y));
    }
}

/// What the sweep of a row leaves in a scanline are the spans of the row,
/// whatever the scanline held before.
pub proof fn lemma_row_spans(st: RasterState, k: int, sl: ScanlineView)
    ensures
        st.scanline(k, sl).spans == st.row_spans(k, sl.min_x),
        st.scanline(k, sl).min_x == sl.min_x,
        st.row_is_blank(k, sl) == (st.row_spans(k, sl.min_x).len() == 0),
{
    let blank = ScanlineView {
        last_x: crate::scan::LAST_X as int,
        min_x: sl.min_x,
        y: 0,
        spans: Seq::empty(),
    };
    lemma_sweep_keeps_row_number(
        st.outline.rows[k],
        0,
        0,
        blank.cleared(),
        sl.cleared(),
        st.filling_rule,
        st.gamma,
    );
    lemma_sweep_keeps_base(st.outline.rows[k], 0, 0, sl.cleared(), st.filling_rule, st.gamma);
}

/// The coverage values of a span as the renderers take them.
pub open spec fn wide(covers: Seq<u8>) -> Seq<u64> {
    Seq::new(covers.len(), |i: int| covers[i] as u64)
}

/// Returns the coverage values of a span as the renderers take them.
fn widen(covers: &Vec<u8>) -> (r: Vec<u64>)
    ensures
        r@ == wide(covers@),
{
    let mut r: Vec<u64> = Vec::new();
    let n = covers.len();
    let mut i: usize = 0;
    while i < n
        invariant
            i <= n,
            n == covers@.len(),
            r@ == wide(covers@.take(i as int)),
        decreases n - i,
    {
        r.push(covers[i] as u64);
        i = i + 1;
        assert(r@ =~= wide(covers@.take(i as int)));
    }
    assert(covers@.take(n as int) =~= covers@);
    r
}

/// Whether a span can be rendered: it holds a coverage for each of its pixels,
/// or, with a length that is not positive, one coverage for all of them.
pub open spec fn span_ok(span: SpanView) -> bool {
    if span.len > 0 {
        span.covers.len() >= span.len
    } else {
        span.covers.len() >= 1 && span.len > i32::MIN
    }
}

/// The coverage of the pixel in column `px` of a span.
pub open spec fn span_cover_at(span: SpanView, px: int) -> u64 {
    if span.len > 0 {
        span.covers[px - span.x] as u64
    } else {
        span.covers[0] as u64
    }
}

/// Whether the pixel in column `px` belongs to a span: a span with a positive
/// length holds that many pixels from its column on, any other those between
/// its column and the column `-len - 1` places on.
pub open spec fn span_holds(span: SpanView, px: int) -> bool {
    if span.len > 0 {
        span.x <= px < span.x + span.len
    } else {
        min2(span.x, span.x - span.len - 1) <= px <= max2(span.x, span.x - span.len - 1)
    }
}

/// Whether the pixel in column `px` belongs to a span that is filled: the pixels
/// between its column and the column one less than its length on.
pub open spec fn fill_holds(span: SpanView, px: int) -> bool {
    min2(span.x, span.x - 1 + abs(span.len as int)) <= px <= max2(
        span.x,
        span.x - 1 + abs(span.len as int),
    )
}

/// The image after a span of row `y` has been painted in the color with the
/// channels `c`, each pixel with its coverage.
pub open spec fn span_painted<T: Pixel>(cv: Canvas, y: int, span: SpanView, c: (u8, u8, u8, u8)) -> Canvas {
    Canvas {
        at: |px: int, py: int|
            if py == y && span_holds(span, px) {
                covered(
                    (cv.at)(px, py),
                    c.3,
                    span_cover_at(span, px),
                    T::encoded(c),
                    T::blended((cv.at)(px, py), c, span_cover_at(span, px)),
                )
            } else {
                (cv.at)(px, py)
            },
        ..cv
    }
}

/// The image after the spans of row `y` have been painted one after the other.
pub open spec fn spans_painted<T: Pixel>(
    cv: Canvas,
    y: int,
    spans: Seq<SpanView>,
    c: (u8, u8, u8, u8),
) -> Canvas
    decreases spans.len(),
{
    if spans.len() == 0 {
        cv
    } else {
        span_painted::<T>(spans_painted::<T>(cv, y, spans.drop_last(), c), y, spans.last(), c)
    }
}

/// The image after a span of row `y` has been painted in the color with the
/// channels `c`, every pixel fully covered.
pub open spec fn span_filled<T: Pixel>(cv: Canvas, y: int, span: SpanView, c: (u8, u8, u8, u8)) -> Canvas {
    Canvas {
        at: |px: int, py: int|
            if py == y && fill_holds(span, px) {
                covered((cv.at)(px, py), c.3, 255, T::encoded(c), T::blended((cv.at)(px, py), c, 255))
            } else {
                (cv.at)(px, py)
            },
        ..cv
    }
}

/// The image after the spans of row `y` have been painted one after the other,
/// every pixel fully covered.
pub open spec fn spans_filled<T: Pixel>(
    cv: Canvas,
    y: int,
    spans: Seq<SpanView>,
    c: (u8, u8, u8, u8),
) -> Canvas
    decreases spans.len(),
{
    if spans.len() == 0 {
        cv
    } else {
        span_filled::<T>(spans_filled::<T>(cv, y, spans.drop_last(), c), y, spans.last(), c)
    }
}

/// Paints the spans of a scanline in one color, each pixel with its coverage.
pub fn render_scanline_aa_solid<T: Pixel, C: Color>(
    sl: &ScanlineU8,
    ren: &mut RenderingBase<T>,
    color: C,
)
    requires
        old(ren).wf(),
        forall|i: int| 0 <= i < sl@.spans.len() ==> span_ok(#[trigger] sl@.spans[i]),
        color.channels().3 == 255 ==> T::can_setn(1) && forall|i: int|
            0 <= i < sl@.spans.len() ==> (#[trigger] sl@.spans[i]).len > 0,
    ensures
        final(ren).wf(),
        same_pixels(
            final(ren).pixf.canvas(),
            spans_painted::<T>(
                old(ren).pixf.canvas(),
                sl@.y,
                sl@.spans,
                color.channels(),
            ),
        ),
{
    let y = sl.row();
    let n = sl.num_spans();
    let ghost views = sl@.spans;
    let ghost c = color.channels();
    let mut i: usize = 0;
    while i < n
        invariant
            i <= n,
            n == sl@.spans.len(),
            y == sl@.y,
            views == sl@.spans,
            c == color.channels(),
            ren.wf(),
            forall|i: int| 0 <= i < sl@.spans.len() ==> span_ok(#[trigger] sl@.spans[i]),
            color.channels().3 == 255 ==> T::can_setn(1) && forall|i: int|
                0 <= i < sl@.spans.len() ==> (#[trigger] sl@.spans[i]).len > 0,
            same_pixels(
                ren.pixf.canvas(),
                spans_painted::<T>(old(ren).pixf.canvas(), y as int, views.take(i as int), c),
            ),
        decreases n - i,
    {
        let span = sl.span(i);
        let x = span.x;
        let ghost before = ren.pixf.canvas();
        let ghost painted = spans_painted::<T>(old(ren).pixf.canvas(), y as int, views.take(i as int), c);
        proof {
            assert(views.take(i + 1).drop_last() =~= views.take(i as int));
            assert(views.take(i + 1).last() == span@);
        }
        if span.len > 0 {
            let covers = widen(&span.covers);
            ren.blend_solid_hspan(x as i64, y as i64, span.len as i64, color, covers.as_slice());
        } else {
            ren.blend_hline(
                x as i64,
                y as i64,
                x as i64 - span.len as i64 - 1,
                color,
                span.covers[0] as u64,
            );
        }
        proof {
            let after = ren.pixf.canvas();
            let expected = span_painted::<T>(painted, y as int, span@, c);
            assert forall|px: int, py: int| after.holds(px, py) implies #[trigger] (after.at)(
                px,
                py,
            ) == (expected.at)(px, py) by {
                assert((before.at)(px, py) == (painted.at)(px, py));
            }
        }
        i = i + 1;
    }
    proof {
        assert(views.take(n as int) =~= views);
    }
}

/// Paints the spans of a scanline in one color, every pixel fully covered.
pub fn render_scanline_bin_solid<T: Pixel, C: Color>(
    sl: &ScanlineU8,
    ren: &mut RenderingBase<T>,
    color: C,
)
    requires
        old(ren).wf(),
        forall|i: int| 0 <= i < sl@.spans.len() ==> (#[trigger] sl@.spans[i]).len > i32::MIN,
        color.channels().3 == 255 ==> old(ren).pixf.canvas().width > 0 && forall|n: int|
            T::can_setn(n),
    ensures
        final(ren).wf(),
        same_pixels(
            final(ren).pixf.canvas(),
            spans_filled::<T>(
                old(ren).pixf.canvas(),
                sl@.y,
                sl@.spans,
                color.channels(),
            ),
        ),
{
    let cover_full: u64 = 255;
    let y = sl.row();
    let n = sl.num_spans();
    let ghost views = sl@.spans;
    let ghost c = color.channels();
    let mut i: usize = 0;
    while i < n
        invariant
            i <= n,
            n == sl@.spans.len(),
            y == sl@.y,
            cover_full == 255,
            views == sl@.spans,
            c == color.channels(),
            ren.wf(),
            forall|i: int| 0 <= i < sl@.spans.len() ==> (#[trigger] sl@.spans[i]).len > i32::MIN,
            color.channels().3 == 255 ==> ren.pixf.canvas().width > 0 && forall|n: int|
                T::can_setn(n),
            same_pixels(
                ren.pixf.canvas(),
                spans_filled::<T>(old(ren).pixf.canvas(), y as int, views.take(i as int), c),
            ),
        decreases n - i,
    {
        let span = sl.span(i);
        let ghost before = ren.pixf.canvas();
        let ghost painted = spans_filled::<T>(old(ren).pixf.canvas(), y as int, views.take(i as int), c);
        proof {
            assert(views.take(i + 1).drop_last() =~= views.take(i as int));
            assert(views.take(i + 1).last() == span@);
        }
        let len_abs: i64 = if span.len < 0 {
            -(span.len as i64)
        } else {
            span.len as i64
        };
        ren.blend_hline(span.x as i64, y as i64, span.x as i64 - 1 + len_abs, color, cover_full);
        proof {
            let after = ren.pixf.canvas();
            let expected = span_filled::<T>(painted, y as int, span@, c);
            assert forall|px: int, py: int| after.holds(px, py) implies #[trigger] (after.at)(
                px,
                py,
            ) == (expected.at)(px, py) by {
                assert((before.at)(px, py) == (painted.at)(px, py));
            }
        }
        i = i + 1;
    }
    proof {
        assert(views.take(n as int) =~= views);
    }
}

/// The image after the rows from `lo` up to `hi` of a rasterizer have been
/// painted in the color with the channels `c`, each pixel with its coverage.
pub open spec fn rows_painted<T: Pixel>(
    cv: Canvas,
    st: RasterState,
    min_x: int,
    lo: int,
    hi: int,
    c: (u8, u8, u8, u8),
) -> Canvas
    decreases hi - lo,
{
    if hi <= lo {
        cv
    } else {
        spans_painted::<T>(
            rows_painted::<T>(cv, st, min_x, lo, hi - 1, c),
            hi - 1,
            st.row_spans(hi - 1, min_x),
            c,
        )
    }
}

/// Painting the same spans onto images with the same pixels gives images with
/// the same pixels.
pub proof fn lemma_painted_same<T: Pixel>(
    a: Canvas,
    b: Canvas,
    y: int,
    spans: Seq<SpanView>,
    c: (u8, u8, u8, u8),
)
    requires
        same_pixels(a, b),
    ensures
        same_pixels(spans_painted::<T>(a, y, spans, c), spans_painted::<T>(b, y, spans, c)),
        spans_painted::<T>(a, y, spans, c).width == a.width,
        spans_painted::<T>(a, y, spans, c).height == a.height,
    decreases spans.len(),
{
    if spans.len() > 0 {
        lemma_painted_same::<T>(a, b, y, spans.drop_last(), c);
    }
}

/// Rows without spans leave the image as it is.
pub proof fn lemma_blank_rows_painted<T: Pixel>(
    cv: Canvas,
    st: RasterState,
    min_x: int,
    lo: int,
    from: int,
    to: int,
    c: (u8, u8, u8, u8),
)
    requires
        lo <= from <= to,
        forall|k: int| from <= k < to ==> (#[trigger] st.row_spans(k, min_x)).len() == 0,
    ensures
        rows_painted::<T>(cv, st, min_x, lo, to, c) == rows_painted::<T>(cv, st, min_x, lo, from, c),
    decreases to - from,
{
    if from < to {
        lemma_blank_rows_painted::<T>(cv, st, min_x, lo, from, to - 1, c);
        assert(st.row_spans(to - 1, min_x).len() == 0);
    }
}

/// Paints what a rasterizer holds onto an image in one color, each pixel with its coverage.
///
/// The current sub-path is closed and the cells are sorted first. Then the rows
/// from 0 on are swept and painted one after the other.
pub fn render_scanlines_aa_solid<C: Color, T: Pixel>(
    ras: &mut RasterizerScanline,
    ren: &mut RenderingBase<T>,
    color: C,
)
    requires
        old(ras)@.wf(),
        old(ras)@.closed().outline.cells.len() <= MAX_CELLS,
        old(ras)@.rewound().rows_ready(),
        old(ren).wf(),
        color.channels().3 == 255 ==> T::can_setn(1),
    ensures
        final(ras)@ == swept_out(old(ras)@.rewound()),
        final(ras)@.wf(),
        final(ren).wf(),
        same_pixels(
            final(ren).pixf.canvas(),
            if old(ras)@.rewound().outline.cells.len() == 0 {
                old(ren).pixf.canvas()
            } else {
                rows_painted::<T>(
                    old(ren).pixf.canvas(),
                    old(ras)@.rewound(),
                    old(ras)@.rewound().outline.min_x,
                    max2(old(ras)@.rewound().outline.min_y, 0),
                    old(ras)@.rewound().outline.max_y + 1,
                    color.channels(),
                )
            },
        ),
{
    let mut sl = ScanlineU8::new();
    let ghost cv0 = ren.pixf.canvas();
    let ghost c = color.channels();
    if ras.rewind_scanlines() {
        let ghost st = ras@;
        let ghost mx = st.outline.min_x;
        let ghost lo = max2(st.outline.min_y, 0);
        proof {
            reveal(CellStore::cells_within);
            assert(st.outline.cells[0].within_limits());
        }
        sl.reset(ras.min_x(), ras.max_x());
        loop
            invariant_except_break
                st == old(ras)@.rewound(),
                st.wf(),
                st.rows_ready(),
                st.outline.cells.len() > 0,
                mx == st.outline.min_x,
                lo == max2(st.outline.min_y, 0),
                pixel_ok(mx),
                c == color.channels(),
                cv0 == old(ren).pixf.canvas(),
                ras@ == (RasterState { scan_y: ras@.scan_y, ..st }),
                ras@.wf(),
                st.outline.min_y <= ras@.scan_y <= max2(st.outline.max_y + 1, 0),
                sl@.min_x == mx,
                ren.wf(),
                color.channels().3 == 255 ==> T::can_setn(1),
                same_pixels(
                    ren.pixf.canvas(),
                    rows_painted::<T>(cv0, st, mx, lo, max2(ras@.scan_y, lo), c),
                ),
            ensures
                ras@ == (RasterState { scan_y: ras@.scan_y, ..st }),
                ras@.scan_y == max2(st.outline.max_y + 1, 0),
                ras@.wf(),
                ren.wf(),
                same_pixels(
                    ren.pixf.canvas(),
                    rows_painted::<T>(cv0, st, mx, lo, st.outline.max_y + 1, c),
                ),
            decreases max2(st.outline.max_y, 0) + 2 - ras@.scan_y,
        {
            let ghost before = ras@;
            let ghost sl_before = sl@;
            let ghost from = max2(before.scan_y, lo);
            let more = ras.sweep_scanline(&mut sl);
            proof {
                lemma_row_spans(st, ras@.scan_y - 1, sl_before);
                assert forall|k: int|
                    0 <= k <= st.outline.max_y && before.scan_y <= k && before.row_is_blank(
                        k,
                        sl_before,
                    ) implies (#[trigger] st.row_spans(k, mx)).len() == 0 by {
                    lemma_row_spans(st, k, sl_before);
                }
            }
            if !more {
                proof {
                    assert(from <= max2(st.outline.max_y + 1, lo));
                    if from <= st.outline.max_y {
                        lemma_blank_rows_painted::<T>(cv0, st, mx, lo, from, st.outline.max_y + 1, c);
                    }
                }
                break ;
            }
            let ghost y = ras@.scan_y - 1;
            let ghost drawn = ren.pixf.canvas();
            proof {
                lemma_blank_rows_painted::<T>(cv0, st, mx, lo, from, y, c);
                lemma_painted_same::<T>(drawn, rows_painted::<T>(cv0, st, mx, lo, y, c), y, sl@.spans, c);
            }
            render_scanline_aa_solid(&sl, ren, color);
            proof {
                lemma_same_pixels_chain(
                    ren.pixf.canvas(),
                    spans_painted::<T>(drawn, y, sl@.spans, c),
                    rows_painted::<T>(cv0, st, mx, lo, y + 1, c),
                );
            }
        }
    }
}

/// The image after the rows from `lo` up to `hi` of a rasterizer have been
/// painted in the color with the channels `c`, every pixel fully covered.
pub open spec fn rows_filled<T: Pixel>(
    cv: Canvas,
    st: RasterState,
    min_x: int,
    lo: int,
    hi: int,
    c: (u8, u8, u8, u8),
) -> Canvas
    decreases hi - lo,
{
    if hi <= lo {
        cv
    } else {
        spans_filled::<T>(
            rows_filled::<T>(cv, st, min_x, lo, hi - 1, c),
            hi - 1,
            st.row_spans(hi - 1, min_x),
            c,
        )
    }
}

/// Painting the same spans onto images with the same pixels gives images with
/// the same pixels.
pub proof fn lemma_filled_same<T: Pixel>(
    a: Canvas,
    b: Canvas,
    y: int,
    spans: Seq<SpanView>,
    c: (u8, u8, u8, u8),
)
    requires
        same_pixels(a, b),
    ensures
        same_pixels(spans_filled::<T>(a, y, spans, c), spans_filled::<T>(b, y, spans, c)),
        spans_filled::<T>(a, y, spans, c).width == a.width,
        spans_filled::<T>(a, y, spans, c).height == a.height,
    decreases spans.len(),
{
    if spans.len() > 0 {
        lemma_filled_same::<T>(a, b, y, spans.drop_last(), c);
    }
}

/// Rows without spans leave the image as it is.
pub proof fn lemma_blank_rows_filled<T: Pixel>(
    cv: Canvas,
    st: RasterState,
    min_x: int,
    lo: int,
    from: int,
    to: int,
    c: (u8, u8, u8, u8),
)
    requires
        lo <= from <= to,
        forall|k: int| from <= k < to ==> (#[trigger] st.row_spans(k, min_x)).len() == 0,
    ensures
        rows_filled::<T>(cv, st, min_x, lo, to, c) == rows_filled::<T>(cv, st, min_x, lo, from, c),
    decreases to - from,
{
    if from < to {
        lemma_blank_rows_filled::<T>(cv, st, min_x, lo, from, to - 1, c);
        assert(st.row_spans(to - 1, min_x).len() == 0);
    }
}

/// Paints what a rasterizer holds onto an image in one color, every pixel fully covered.
///
/// The current sub-path is closed and the cells are sorted first. Then the rows
/// from 0 on are swept and painted one after the other.
pub fn render_scanlines_bin_solid<C: Color, T: Pixel>(
    ras: &mut RasterizerScanline,
    ren: &mut RenderingBase<T>,
    color: C,
)
    requires
        old(ras)@.wf(),
        old(ras)@.closed().outline.cells.len() <= MAX_CELLS,
        old(ras)@.rewound().rows_ready(),
        old(ren).wf(),
        color.channels().3 == 255 ==> old(ren).pixf.canvas().width > 0 && forall|n: int| T::can_setn(n),
    ensures
        final(ras)@ == swept_out(old(ras)@.rewound()),
        final(ras)@.wf(),
        final(ren).wf(),
        same_pixels(
            final(ren).pixf.canvas(),
            if old(ras)@.rewound().outline.cells.len() == 0 {
                old(ren).pixf.canvas()
            } else {
                rows_filled::<T>(
                    old(ren).pixf.canvas(),
                    old(ras)@.rewound(),
                    old(ras)@.rewound().outline.min_x,
                    max2(old(ras)@.rewound().outline.min_y, 0),
                    old(ras)@.rewound().outline.max_y + 1,
                    color.channels(),
                )
            },
        ),
{
    let mut sl = ScanlineU8::new();
    let ghost cv0 = ren.pixf.canvas();
    let ghost c = color.channels();
    if ras.rewind_scanlines() {
        let ghost st = ras@;
        let ghost mx = st.outline.min_x;
        let ghost lo = max2(st.outline.min_y, 0);
        proof {
            reveal(CellStore::cells_within);
            assert(st.outline.cells[0].within_limits());
        }
        sl.reset(ras.min_x(), ras.max_x());
        loop
            invariant_except_break
                st == old(ras)@.rewound(),
                st.wf(),
                st.rows_ready(),
                st.outline.cells.len() > 0,
                mx == st.outline.min_x,
                lo == max2(st.outline.min_y, 0),
                pixel_ok(mx),
                c == color.channels(),
                cv0 == old(ren).pixf.canvas(),
                ras@ == (RasterState { scan_y: ras@.scan_y, ..st }),
                ras@.wf(),
                st.outline.min_y <= ras@.scan_y <= max2(st.outline.max_y + 1, 0),
                sl@.min_x == mx,
                ren.wf(),
                color.channels().3 == 255 ==> ren.pixf.canvas().width > 0 && forall|n: int| T::can_setn(n),
                same_pixels(
                    ren.pixf.canvas(),
                    rows_filled::<T>(cv0, st, mx, lo, max2(ras@.scan_y, lo), c),
                ),
            ensures
                ras@ == (RasterState { scan_y: ras@.scan_y, ..st }),
                ras@.scan_y == max2(st.outline.max_y + 1, 0),
                ras@.wf(),
                ren.wf(),
                same_pixels(
                    ren.pixf.canvas(),
                    rows_filled::<T>(cv0, st, mx, lo, st.outline.max_y + 1, c),
                ),
            decreases max2(st.outline.max_y, 0) + 2 - ras@.scan_y,
        {
            let ghost before = ras@;
            let ghost sl_before = sl@;
            let ghost from = max2(before.scan_y, lo);
            let more = ras.sweep_scanline(&mut sl);
            proof {
                lemma_row_spans(st, ras@.scan_y - 1, sl_before);
                assert forall|k: int|
                    0 <= k <= st.outline.max_y && before.scan_y <= k && before.row_is_blank(
                        k,
                        sl_before,
                    ) implies (#[trigger] st.row_spans(k, mx)).len() == 0 by {
                    lemma_row_spans(st, k, sl_before);
                }
            }
            if !more {
                proof {
                    assert(from <= max2(st.outline.max_y + 1, lo));
                    if from <= st.outline.max_y {
                        lemma_blank_rows_filled::<T>(cv0, st, mx, lo, from, st.outline.max_y + 1, c);
                    }
                }
                break ;
            }
            let ghost y = ras@.scan_y - 1;
            let ghost drawn = ren.pixf.canvas();
            proof {
                lemma_blank_rows_filled::<T>(cv0, st, mx, lo, from, y, c);
                lemma_filled_same::<T>(drawn, rows_filled::<T>(cv0, st, mx, lo, y, c), y, sl@.spans, c);
            }
            render_scanline_bin_solid(&sl, ren, color);
            proof {
                lemma_same_pixels_chain(
                    ren.pixf.canvas(),
                    spans_filled::<T>(drawn, y, sl@.spans, c),
                    rows_filled::<T>(cv0, st, mx, lo, y + 1, c),
                );
            }
        }
    }
}

/// What turns the scanlines of a sweep into pixels.
pub trait Render: Sized {
    /// The image that is drawn onto.
    spec fn target(&self) -> Canvas;

    /// Whether the renderer and its image are well formed.
    spec fn wf(&self) -> bool;

    /// Whether the scanline `sl` can be rendered.
    spec fn ready(&self, sl: ScanlineView) -> bool;

    /// The image `cv` after the scanline `sl` has been rendered onto it with the
    /// settings of the renderer.
    spec fn paints(&self, cv: Canvas, sl: ScanlineView) -> Canvas;

    /// Whether another renderer has the settings of this one.
    spec fn same_settings(&self, other: &Self) -> bool;

    /// The renderer after its color has been set to the one with the channels
    /// `c`.
    spec fn with_color(&self, c: (u8, u8, u8, u8)) -> Self;

    /// Setting the color leaves the image alone, and gives the same settings to
    /// renderers that had the same before.
    proof fn lemma_with_color(&self, other: &Self, c: (u8, u8, u8, u8))
        requires
            self.same_settings(other),
        ensures
            self.with_color(c).same_settings(&other.with_color(c)),
            self.with_color(c).target() == self.target(),
            self.with_color(c).wf() == self.wf(),
    ;

    /// Renderers with the same settings whose images have the same size are ready
    /// for the same scanlines.
    proof fn lemma_ready(&self, other: &Self, sl: ScanlineView)
        requires
            self.same_settings(other),
            self.target().width == other.target().width,
            self.target().height == other.target().height,
        ensures
            self.ready(sl) == other.ready(sl),
    ;

    /// Having the same settings is reflexive and transitive.
    proof fn lemma_settings(&self, b: &Self, c: &Self)
        ensures
            self.same_settings(self),
            self.same_settings(b) && b.same_settings(c) ==> self.same_settings(c),
    ;

    /// Renderers with the same settings paint alike, and onto images with the
    /// same pixels they paint images with the same pixels.
    proof fn lemma_paints(&self, other: &Self, a: Canvas, b: Canvas, sl: ScanlineView)
        requires
            self.same_settings(other),
            same_pixels(a, b),
        ensures
            same_pixels(self.paints(a, sl), other.paints(b, sl)),
            self.paints(a, sl).width == a.width,
            self.paints(a, sl).height == a.height,
            sl.spans.len() == 0 ==> self.paints(a, sl) == a,
    ;

    /// Renders a scanline.
    fn render(&mut self, data: &RenderData)
        requires
            old(self).wf(),
            old(self).ready(data.sl@),
        ensures
            final(self).wf(),
            old(self).same_settings(final(self)),
            same_pixels(final(self).target(), old(self).paints(old(self).target(), data.sl@)),
            forall|sl: ScanlineView| old(self).ready(sl) ==> #[trigger] final(self).ready(sl),
    ;

    /// Sets the color to draw with.
    fn color<C: Color>(&mut self, color: C)
        requires
            old(self).wf(),
        ensures
            final(self).wf(),
            final(self).target() == old(self).target(),
            old(self).with_color(color.channels()).same_settings(final(self)),
    ;

    /// Gets the renderer ready for a sweep.
    fn prepare(&self) {
    }
}

/// Renders scanlines in one color, every pixel fully covered.
#[derive(Debug)]
pub struct RenderingScanlineBinSolid<'a, T: 'a> {
    /// The rendering base that is drawn onto.
    pub base: &'a mut RenderingBase<T>,
    /// The color.
    pub color: Rgba8,
}

/// Renders scanlines in one color, each pixel with its coverage.
#[derive(Debug)]
pub struct RenderingScanlineAASolid<'a, T: 'a> {
    /// The rendering base that is drawn onto.
    pub base: &'a mut RenderingBase<T>,
    /// The color.
    pub color: Rgba8,
}

impl<'a, T: Pixel> RenderingScanlineBinSolid<'a, T> {
    /// The bytes of the image, row after row.
    pub open spec fn target_bytes(&self) -> Seq<u8> {
        self.base.pixf.bytes()
    }

    /// Creates a renderer that draws onto `base` in black.
    pub fn with_base(base: &'a mut RenderingBase<T>) -> (r: Self)
        ensures
            *r.base == *old(base),
            r.color == (Rgba8 { r: 0, g: 0, b: 0, a: 255 }),
    {
        let color = Rgba8::black();
        Self { base, color }
    }

    /// Returns the bytes of the image, row after row.
    pub fn as_bytes(&self) -> (r: &[u8])
        ensures
            r@ == self.target_bytes(),
    {
        self.base.as_bytes()
    }
}

impl<'a, T: Pixel> RenderingScanlineAASolid<'a, T> {
    /// The bytes of the image, row after row.
    pub open spec fn target_bytes(&self) -> Seq<u8> {
        self.base.pixf.bytes()
    }

    /// Creates a renderer that draws onto `base` in black.
    pub fn with_base(base: &'a mut RenderingBase<T>) -> (r: Self)
        ensures
            *r.base == *old(base),
            r.color == (Rgba8 { r: 0, g: 0, b: 0, a: 255 }),
    {
        let color = Rgba8::black();
        Self { base, color }
    }

    /// Returns the bytes of the image, row after row.
    pub fn as_bytes(&self) -> (r: &[u8])
        ensures
            r@ == self.target_bytes(),
    {
        self.base.as_bytes()
    }
}

impl<T: Pixel> Render for RenderingScanlineAASolid<'_, T> {
    open spec fn target(&self) -> Canvas {
        self.base.pixf.canvas()
    }

    open spec fn wf(&self) -> bool {
        self.base.wf()
    }

    open spec fn ready(&self, sl: ScanlineView) -> bool {
        &&& forall|i: int| 0 <= i < sl.spans.len() ==> span_ok(#[trigger] sl.spans[i])
        &&& self.color.a == 255 ==> T::can_setn(1) && forall|i: int|
            0 <= i < sl.spans.len() ==> (#[trigger] sl.spans[i]).len > 0
    }

    open spec fn paints(&self, cv: Canvas, sl: ScanlineView) -> Canvas {
        spans_painted::<T>(cv, sl.y, sl.spans, self.color.channels())
    }

    open spec fn same_settings(&self, other: &Self) -> bool {
        self.color == other.color
    }

    proof fn lemma_settings(&self, b: &Self, c: &Self) {
    }

    proof fn lemma_paints(&self, other: &Self, a: Canvas, b: Canvas, sl: ScanlineView) {
        lemma_painted_same::<T>(a, b, sl.y, sl.spans, self.color.channels());
    }

    open spec fn with_color(&self, c: (u8, u8, u8, u8)) -> Self {
        RenderingScanlineAASolid { color: Rgba8 { r: c.0, g: c.1, b: c.2, a: c.3 }, ..*self }
    }

    proof fn lemma_with_color(&self, other: &Self, c: (u8, u8, u8, u8)) {
    }

    proof fn lemma_ready(&self, other: &Self, sl: ScanlineView) {
    }

    fn render(&mut self, data: &RenderData) {
        render_scanline_aa_solid(&data.sl, self.base, self.color);
    }

    fn color<C: Color>(&mut self, color: C) {
        self.color = Rgba8::new(color.red8(), color.green8(), color.blue8(), color.alpha8());
    }
}

impl<T: Pixel> Render for RenderingScanlineBinSolid<'_, T> {
    open spec fn target(&self) -> Canvas {
        self.base.pixf.canvas()
    }

    open spec fn wf(&self) -> bool {
        self.base.wf()
    }

    open spec fn ready(&self, sl: ScanlineView) -> bool {
        &&& forall|i: int| 0 <= i < sl.spans.len() ==> (#[trigger] sl.spans[i]).len > i32::MIN
        &&& self.color.a == 255 ==> self.base.pixf.canvas().width > 0 && forall|n: int|
            T::can_setn(n)
    }

    open spec fn paints(&self, cv: Canvas, sl: ScanlineView) -> Canvas {
        spans_filled::<T>(cv, sl.y, sl.spans, self.color.channels())
    }

    open spec fn same_settings(&self, other: &Self) -> bool {
        self.color == other.color
    }

    proof fn lemma_settings(&self, b: &Self, c: &Self) {
    }

    proof fn lemma_paints(&self, other: &Self, a: Canvas, b: Canvas, sl: ScanlineView) {
        lemma_filled_same::<T>(a, b, sl.y, sl.spans, self.color.channels());
    }

    open spec fn with_color(&self, c: (u8, u8, u8, u8)) -> Self {
        RenderingScanlineBinSolid { color: Rgba8 { r: c.0, g: c.1, b: c.2, a: c.3 }, ..*self }
    }

    proof fn lemma_with_color(&self, other: &Self, c: (u8, u8, u8, u8)) {
    }

    proof fn lemma_ready(&self, other: &Self, sl: ScanlineView) {
    }

    fn render(&mut self, data: &RenderData) {
        let ghost before = self.base.pixf.canvas();
        render_scanline_bin_solid(&data.sl, self.base, self.color);
        proof {
            lemma_filled_same::<T>(before, before, data.sl@.y, data.sl@.spans, self.color.channels());
        }
    }

    fn color<C: Color>(&mut self, color: C) {
        self.color = Rgba8::new(color.red8(), color.green8(), color.blue8(), color.alpha8());
    }
}

/// The image `cv` after the rows from `lo` up to `hi` of a rasterizer have been
/// rendered onto it with the settings of `ren`.
pub open spec fn rows_rendered<REN: Render>(
    ren: REN,
    cv: Canvas,
    st: RasterState,
    min_x: int,
    lo: int,
    hi: int,
) -> Canvas
    decreases hi - lo,
{
    if hi <= lo {
        cv
    } else {
        ren.paints(rows_rendered(ren, cv, st, min_x, lo, hi - 1), st.swept(hi - 1, min_x))
    }
}

/// Rows without spans leave the image as it is.
pub proof fn lemma_blank_rows_rendered<REN: Render>(
    ren: REN,
    cv: Canvas,
    st: RasterState,
    min_x: int,
    lo: int,
    from: int,
    to: int,
)
    requires
        lo <= from <= to,
        forall|k: int| from <= k < to ==> (#[trigger] st.row_spans(k, min_x)).len() == 0,
    ensures
        rows_rendered(ren, cv, st, min_x, lo, to) == rows_rendered(ren, cv, st, min_x, lo, from),
    decreases to - from,
{
    if from < to {
        lemma_blank_rows_rendered(ren, cv, st, min_x, lo, from, to - 1);
        assert(st.row_spans(to - 1, min_x).len() == 0);
        let prev = rows_rendered(ren, cv, st, min_x, lo, to - 1);
        ren.lemma_settings(&ren, &ren);
        ren.lemma_paints(&ren, prev, prev, st.swept(to - 1, min_x));
    }
}

/// The state of a rasterizer after all its rows have been swept: the sweep
/// stands behind the last row, or where it stood if there is no cell.
pub open spec fn swept_out(st: RasterState) -> RasterState {
    if st.outline.cells.len() == 0 {
        st
    } else {
        RasterState { scan_y: max2(st.outline.max_y + 1, 0), ..st }
    }
}

/// Renders what a rasterizer holds.
///
/// The current sub-path is closed and the cells are sorted first. Then the rows
/// from 0 on are swept and rendered one after the other.
#[verifier::rlimit(40)]
pub fn render_scanlines<REN: Render>(ras: &mut RasterizerScanline, ren: &mut REN)
    requires
        old(ras)@.wf(),
        old(ras)@.closed().outline.cells.len() <= MAX_CELLS,
        old(ras)@.rewound().rows_ready(),
        old(ren).wf(),
        forall|sl: ScanlineView| sl.wf() ==> #[trigger] old(ren).ready(sl),
    ensures
        final(ras)@ == swept_out(old(ras)@.rewound()),
        final(ras)@.wf(),
        final(ren).wf(),
        old(ren).same_settings(final(ren)),
        same_pixels(
            final(ren).target(),
            if old(ras)@.rewound().outline.cells.len() == 0 {
                old(ren).target()
            } else {
                rows_rendered(
                    *old(ren),
                    old(ren).target(),
                    old(ras)@.rewound(),
                    old(ras)@.rewound().outline.min_x,
                    max2(old(ras)@.rewound().outline.min_y, 0),
                    old(ras)@.rewound().outline.max_y + 1,
                )
            },
        ),
{
    let mut data = RenderData::new();
    let ghost r0 = *ren;
    let ghost cv0 = ren.target();
    proof {
        r0.lemma_settings(&r0, &r0);
    }
    if ras.rewind_scanlines() {
        let ghost st = ras@;
        let ghost mx = st.outline.min_x;
        let ghost lo = max2(st.outline.min_y, 0);
        proof {
            reveal(CellStore::cells_within);
            assert(st.outline.cells[0].within_limits());
        }
        data.sl.reset(ras.min_x(), ras.max_x());
        ren.prepare();
        loop
            invariant_except_break
                st == old(ras)@.rewound(),
                st.wf(),
                st.rows_ready(),
                st.outline.cells.len() > 0,
                mx == st.outline.min_x,
                lo == max2(st.outline.min_y, 0),
                pixel_ok(mx),
                r0 == *old(ren),
                cv0 == old(ren).target(),
                ras@ == (RasterState { scan_y: ras@.scan_y, ..st }),
                ras@.wf(),
                st.outline.min_y <= ras@.scan_y <= max2(st.outline.max_y + 1, 0),
                data.sl@.min_x == mx,
                ren.wf(),
                r0.same_settings(ren),
                forall|sl: ScanlineView| sl.wf() ==> #[trigger] ren.ready(sl),
                same_pixels(
                    ren.target(),
                    rows_rendered(r0, cv0, st, mx, lo, max2(ras@.scan_y, lo)),
                ),
            ensures
                ras@ == (RasterState { scan_y: ras@.scan_y, ..st }),
                ras@.scan_y == max2(st.outline.max_y + 1, 0),
                ras@.wf(),
                ren.wf(),
                r0.same_settings(ren),
                same_pixels(ren.target(), rows_rendered(r0, cv0, st, mx, lo, st.outline.max_y + 1)),
            decreases max2(st.outline.max_y, 0) + 2 - ras@.scan_y,
        {
            let ghost before = ras@;
            let ghost sl_before = data.sl@;
            let ghost from = max2(before.scan_y, lo);
            let more = ras.sweep_scanline(&mut data.sl);
            proof {
                lemma_row_spans(st, ras@.scan_y - 1, sl_before);
                lemma_sweep_keeps_row_number(
                    st.outline.rows[ras@.scan_y - 1],
                    0,
                    0,
                    (ScanlineView {
                        last_x: crate::scan::LAST_X as int,
                        min_x: mx,
                        y: 0,
                        spans: Seq::empty(),
                    }).cleared(),
                    sl_before.cleared(),
                    st.filling_rule,
                    st.gamma,
                );
                assert forall|k: int|
                    0 <= k <= st.outline.max_y && before.scan_y <= k && before.row_is_blank(
                        k,
                        sl_before,
                    ) implies (#[trigger] st.row_spans(k, mx)).len() == 0 by {
                    lemma_row_spans(st, k, sl_before);
                }
            }
            if !more {
                proof {
                    assert(from <= max2(st.outline.max_y + 1, lo));
                    if from <= st.outline.max_y {
                        lemma_blank_rows_rendered(r0, cv0, st, mx, lo, from, st.outline.max_y + 1);
                    }
                }
                break ;
            }
            let ghost y = ras@.scan_y - 1;
            let ghost drawn = ren.target();
            let ghost r1 = *ren;
            proof {
                lemma_blank_rows_rendered(r0, cv0, st, mx, lo, from, y);
                assert(data.sl@ == st.swept(y, mx));
                r0.lemma_paints(&r1, rows_rendered(r0, cv0, st, mx, lo, y), drawn, data.sl@);
            }
            ren.render(&data);
            proof {
                r0.lemma_settings(&r1, ren);
                lemma_same_pixels_chain(
                    ren.target(),
                    r1.paints(drawn, data.sl@),
                    rows_rendered(r0, cv0, st, mx, lo, y + 1),
                );
            }
        }
    }
}

/// Images with the same pixels have them either way round.
pub proof fn lemma_same_pixels_turned(a: Canvas, b: Canvas)
    requires
        same_pixels(a, b),
    ensures
        same_pixels(b, a),
{
    assert forall|x: int, y: int| b.holds(x, y) implies #[trigger] (b.at)(x, y) == (a.at)(x, y) by {
        assert(a.holds(x, y));
        assert((a.at)(x, y) == (b.at)(x, y));
    }
}

/// Renderers with the same settings render the rows of a rasterizer alike: onto
/// images with the same pixels they give images with the same pixels, of the
/// same size.
pub proof fn lemma_rows_rendered_same<REN: Render>(
    a: REN,
    b: REN,
    cva: Canvas,
    cvb: Canvas,
    st: RasterState,
    min_x: int,
    lo: int,
    hi: int,
)
    requires
        a.same_settings(&b),
        same_pixels(cva, cvb),
    ensures
        same_pixels(
            rows_rendered(a, cva, st, min_x, lo, hi),
            rows_rendered(b, cvb, st, min_x, lo, hi),
        ),
        rows_rendered(a, cva, st, min_x, lo, hi).width == cva.width,
        rows_rendered(a, cva, st, min_x, lo, hi).height == cva.height,
    decreases hi - lo,
{
    if hi > lo {
        lemma_rows_rendered_same(a, b, cva, cvb, st, min_x, lo, hi - 1);
        a.lemma_paints(
            &b,
            rows_rendered(a, cva, st, min_x, lo, hi - 1),
            rows_rendered(b, cvb, st, min_x, lo, hi - 1),
            st.swept(hi - 1, min_x),
        );
    }
}

/// The state of a rasterizer after it has been reset and has taken a path.
pub open spec fn loaded(st: RasterState, path: Seq<Vertex<i64>>) -> RasterState {
    (RasterState { outline: CellStore::empty(), status: PathStatus::Initial, ..st }).with_vertices(
        path,
    )
}

/// The image `cv` after what the rasterizer holds has been rendered onto it with
/// the settings of `ren`: its rows from 0 on, swept one after the other.
pub open spec fn all_rendered<REN: Render>(ren: REN, cv: Canvas, st: RasterState) -> Canvas {
    let r = st.rewound();
    if r.outline.cells.len() == 0 {
        cv
    } else {
        rows_rendered(ren, cv, r, r.outline.min_x, max2(r.outline.min_y, 0), r.outline.max_y + 1)
    }
}

/// Whether what the rasterizer holds can be rendered: its cells can be sorted,
/// and the renderer is ready for every well-formed scanline.
pub open spec fn can_render<REN: Render>(ren: REN, st: RasterState) -> bool {
    &&& st.closed().outline.cells.len() <= MAX_CELLS
    &&& st.rewound().rows_ready()
    &&& forall|sl: ScanlineView| sl.wf() ==> #[trigger] ren.ready(sl)
}

/// Whether the vertices of a path lie in the drawable range and none ends the
/// path.
pub open spec fn path_ok(path: Seq<Vertex<i64>>) -> bool {
    forall|i: int|
        0 <= i < path.len() ==> coord_ok((#[trigger] path[i]).x as int) && coord_ok(
            path[i].y as int,
        ) && path[i].cmd != PathCommand::Stop
}

/// The state of the rasterizer after the first `k` paths have been rendered.
pub open spec fn ras_after(st: RasterState, paths: Seq<Vec<Vertex<i64>>>, k: int) -> RasterState
    decreases k,
{
    if k <= 0 {
        st
    } else {
        swept_out(loaded(ras_after(st, paths, k - 1), paths[k - 1]@).rewound())
    }
}

/// The renderer after the first `k` colors have been set one after the other.
pub open spec fn ren_after<REN: Render, C: Color>(ren: REN, colors: Seq<C>, k: int) -> REN
    decreases k,
{
    if k <= 0 {
        ren
    } else {
        ren_after(ren, colors, k - 1).with_color(colors[k - 1].channels())
    }
}

/// The image after the first `k` paths have been rendered, each in its color.
pub open spec fn paths_rendered<REN: Render, C: Color>(
    ren: REN,
    cv: Canvas,
    st: RasterState,
    paths: Seq<Vec<Vertex<i64>>>,
    colors: Seq<C>,
    k: int,
) -> Canvas
    decreases k,
{
    if k <= 0 {
        cv
    } else {
        all_rendered(
            ren_after(ren, colors, k),
            paths_rendered(ren, cv, st, paths, colors, k - 1),
            loaded(ras_after(st, paths, k - 1), paths[k - 1]@),
        )
    }
}

/// Whether each of the paths can be rendered in its turn.
pub open spec fn can_render_paths<REN: Render, C: Color>(
    ren: REN,
    st: RasterState,
    paths: Seq<Vec<Vertex<i64>>>,
    colors: Seq<C>,
) -> bool {
    forall|j: int|
        0 <= j < paths.len() ==> path_ok(#[trigger] paths[j]@) && can_render(
            ren_after(ren, colors, j + 1),
            loaded(ras_after(st, paths, j), paths[j]@),
        )
}

/// Renderers with the same settings render what a rasterizer holds alike.
pub proof fn lemma_all_rendered_same<REN: Render>(
    a: REN,
    b: REN,
    cva: Canvas,
    cvb: Canvas,
    st: RasterState,
)
    requires
        a.same_settings(&b),
        same_pixels(cva, cvb),
    ensures
        same_pixels(all_rendered(a, cva, st), all_rendered(b, cvb, st)),
        all_rendered(a, cva, st).width == cva.width,
        all_rendered(a, cva, st).height == cva.height,
{
    let r = st.rewound();
    lemma_rows_rendered_same(
        a,
        b,
        cva,
        cvb,
        r,
        r.outline.min_x,
        max2(r.outline.min_y, 0),
        r.outline.max_y + 1,
    );
}

/// Renderers with the same settings and images of the same size can render the
/// same.
pub proof fn lemma_can_render_same<REN: Render>(a: REN, b: REN, st: RasterState)
    requires
        a.same_settings(&b),
        a.target().width == b.target().width,
        a.target().height == b.target().height,
        can_render(a, st),
    ensures
        can_render(b, st),
{
    assert forall|sl: ScanlineView| sl.wf() implies #[trigger] b.ready(sl) by {
        a.lemma_ready(&b, sl);
    }
}

/// Renders one path in one color: the rasterizer is reset and takes the path,
/// the renderer gets the color, and what the rasterizer holds is rendered.
fn render_path<REN: Render, C: Color>(
    ras: &mut RasterizerScanline,
    ren: &mut REN,
    path: &Vec<Vertex<i64>>,
    color: C,
)
    requires
        old(ras)@.wf(),
        old(ren).wf(),
        path_ok(path@),
        can_render(old(ren).with_color(color.channels()), loaded(old(ras)@, path@)),
    ensures
        final(ras)@ == swept_out(loaded(old(ras)@, path@).rewound()),
        final(ras)@.wf(),
        final(ren).wf(),
        old(ren).with_color(color.channels()).same_settings(final(ren)),
        final(ren).target().width == old(ren).target().width,
        final(ren).target().height == old(ren).target().height,
        same_pixels(
            final(ren).target(),
            all_rendered(
                old(ren).with_color(color.channels()),
                old(ren).target(),
                loaded(old(ras)@, path@),
            ),
        ),
{
    let ghost tinted = ren.with_color(color.channels());
    let ghost cv = ren.target();
    ras.reset();
    ras.add_path(path);
    let ghost st = ras@;
    proof {
        ren.lemma_settings(ren, ren);
        ren.lemma_with_color(ren, color.channels());
    }
    ren.color(color);
    let ghost r2 = *ren;
    proof {
        lemma_can_render_same(tinted, r2, st);
    }
    render_scanlines(ras, ren);
    proof {
        lemma_same_pixels_chain(cv, cv, cv);
        lemma_all_rendered_same(tinted, r2, cv, cv, st);
        lemma_same_pixels_turned(all_rendered(tinted, cv, st), all_rendered(r2, cv, st));
        lemma_same_pixels_chain(ren.target(), all_rendered(r2, cv, st), all_rendered(tinted, cv, st));
        tinted.lemma_settings(&r2, ren);
    }
}

/// Renders paths one after the other, each in its own color.
///
/// For each path the rasterizer is reset and takes the path, the renderer gets
/// the color, and what the rasterizer holds is rendered.
pub fn render_all_paths<REN: Render, C: Color>(
    ras: &mut RasterizerScanline,
    ren: &mut REN,
    paths: &Vec<Vec<Vertex<i64>>>,
    colors: &Vec<C>,
)
    requires
        old(ras)@.wf(),
        old(ren).wf(),
        paths@.len() == colors@.len(),
        can_render_paths(*old(ren), old(ras)@, paths@, colors@),
    ensures
        final(ras)@ == ras_after(old(ras)@, paths@, paths@.len() as int),
        final(ras)@.wf(),
        final(ren).wf(),
        ren_after(*old(ren), colors@, colors@.len() as int).same_settings(final(ren)),
        same_pixels(
            final(ren).target(),
            paths_rendered(
                *old(ren),
                old(ren).target(),
                old(ras)@,
                paths@,
                colors@,
                paths@.len() as int,
            ),
        ),
{
    let ghost r0 = *ren;
    let ghost cv0 = ren.target();
    let ghost st0 = ras@;
    let n = paths.len();
    let mut i: usize = 0;
    proof {
        r0.lemma_settings(&r0, &r0);
        lemma_same_pixels_chain(cv0, cv0, cv0);
    }
    while i < n
        invariant
            i <= n,
            n == paths@.len(),
            n == colors@.len(),
            r0 == *old(ren),
            cv0 == old(ren).target(),
            st0 == old(ras)@,
            can_render_paths(r0, st0, paths@, colors@),
            ras@ == ras_after(st0, paths@, i as int),
            ras@.wf(),
            ren.wf(),
            ren_after(r0, colors@, i as int).same_settings(ren),
            ren.target().width == cv0.width,
            ren.target().height == cv0.height,
            ren_after(r0, colors@, i as int).target() == cv0,
            same_pixels(ren.target(), paths_rendered(r0, cv0, st0, paths@, colors@, i as int)),
        decreases n - i,
    {
        let ghost model = ren_after(r0, colors@, i as int);
        let ghost next = ren_after(r0, colors@, i + 1);
        let ghost drawn = paths_rendered(r0, cv0, st0, paths@, colors@, i as int);
        let ghost st = loaded(ras_after(st0, paths@, i as int), paths@[i as int]@);
        let ghost c = colors@[i as int].channels();
        let ghost r1 = *ren;
        let ghost cv = ren.target();
        proof {
            assert(path_ok(paths@[i as int]@) && can_render(next, st));
            assert(next == model.with_color(c));
            model.lemma_with_color(&r1, c);
            r1.lemma_settings(&r1, &r1);
            r1.lemma_with_color(&r1, c);
            lemma_can_render_same(next, r1.with_color(c), st);
        }
        render_path(ras, ren, &paths[i], colors[i]);
        proof {
            lemma_same_pixels_turned(cv, drawn);
            lemma_all_rendered_same(next, r1.with_color(c), drawn, cv, st);
            lemma_same_pixels_turned(
                all_rendered(next, drawn, st),
                all_rendered(r1.with_color(c), cv, st),
            );
            lemma_same_pixels_chain(
                ren.target(),
                all_rendered(r1.with_color(c), cv, st),
                all_rendered(next, drawn, st),
            );
            next.lemma_settings(&r1.with_color(c), ren);
            assert(paths_rendered(r0, cv0, st0, paths@, colors@, i + 1) == all_rendered(
                next,
                drawn,
                st,
            ));
            assert(ras_after(st0, paths@, i + 1) == swept_out(st.rewound()));
        }
        i = i + 1;
    }
}

} // verus!
