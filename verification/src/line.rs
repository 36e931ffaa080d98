//! Line parameters and the interpolators that step along a line.

use crate::cell::{abs, coord_ok, lemma_mul_bounded};
use crate::clip::{div_round, round_div_clamped};
use crate::dist::{fits, sign, DistanceInterpolator};
use crate::util::{pixel_floor, pixel_of, to_subpixel, MAX_HALF_WIDTH, POLY_SUBPIXEL_SCALE};
use vstd::prelude::*;

verus! {

/// The quotient `n / d` rounded towards zero.
pub open spec fn trunc_div(n: int, d: int) -> int {
    if (n >= 0) == (d > 0) {
        abs(n) / abs(d)
    } else {
        -(abs(n) / abs(d))
    }
}

/// What is left of `n` after the division by `d` that rounds towards zero.
pub open spec fn trunc_rem(n: int, d: int) -> int {
    n - d * trunc_div(n, d)
}

/// Lines of at most this length are drawn in one piece.
pub const LINE_MAX_LENGTH: i64 = 0x4_0000;

/// A line segment in sub-pixel coordinates, with what is known of its direction.
#[derive(Clone, Copy, Debug, Default, PartialEq, Eq, Hash)]
pub struct LineParameters {
    /// Horizontal start.
    pub x1: i64,
    /// Vertical start.
    pub y1: i64,
    /// Horizontal end.
    pub x2: i64,
    /// Vertical end.
    pub y2: i64,
    /// Horizontal extent.
    pub dx: i64,
    /// Vertical extent.
    pub dy: i64,
    /// Horizontal direction: 1 to the right, -1 if not.
    pub sx: i64,
    /// Vertical direction: 1 downwards, -1 if not.
    pub sy: i64,
    /// Whether the line is at least as high as it is wide.
    pub vertical: bool,
    /// The direction along the longer axis.
    pub inc: i64,
    /// The length of the line.
    pub len: i64,
    /// The octant of the direction: 1 if vertical, plus 2 if `sx` is negative,
    /// plus 4 if `sy` is negative.
    pub octant: usize,
}

impl LineParameters {
    /// Whether the extents of the line from `(x1, y1)` to `(x2, y2)` can be computed.
    pub open spec fn can_new(x1: int, y1: int, x2: int, y2: int) -> bool {
        fits(x2 - x1) && fits(x1 - x2) && fits(y2 - y1) && fits(y1 - y2)
    }

    /// The parameters of the line from `(x1, y1)` to `(x2, y2)` with length `len`.
    pub open spec fn new_spec(x1: i64, y1: i64, x2: i64, y2: i64, len: i64) -> LineParameters {
        let dx = abs(x2 - x1);
        let dy = abs(y2 - y1);
        let vertical = dy >= dx;
        let sx: i64 = if x2 > x1 {
            1i64
        } else {
            (-1i64) as i64
        };
        let sy: i64 = if y2 > y1 {
            1i64
        } else {
            (-1i64) as i64
        };
        LineParameters {
            x1,
            y1,
            x2,
            y2,
            len,
            dx: dx as i64,
            dy: dy as i64,
            vertical,
            sx,
            sy,
            inc: if vertical {
                sy
            } else {
                sx
            },
            octant: ((if sy < 0 {
                4int
            } else {
                0int
            }) + (if sx < 0 {
                2int
            } else {
                0int
            }) + (if vertical {
                1int
            } else {
                0int
            })) as usize,
        }
    }

    /// Creates the parameters of the line from `(x1, y1)` to `(x2, y2)` with
    /// length `len`.
    pub fn new(x1: i64, y1: i64, x2: i64, y2: i64, len: i64) -> (r: Self)
        requires
            Self::can_new(x1 as int, y1 as int, x2 as int, y2 as int),
        ensures
            r == Self::new_spec(x1, y1, x2, y2, len),
            r.octant < 8,
    {
        let dx = if x2 - x1 < 0 {
            x1 - x2
        } else {
            x2 - x1
        };
        let dy = if y2 - y1 < 0 {
            y1 - y2
        } else {
            y2 - y1
        };
        let vertical = dy >= dx;
        let sx: i64 = if x2 > x1 {
            1
        } else {
            -1
        };
        let sy: i64 = if y2 > y1 {
            1
        } else {
            -1
        };
        let inc = if vertical {
            sy
        } else {
            sx
        };
        let b4: usize = if sy < 0 {
            4
        } else {
            0
        };
        let b2: usize = if sx < 0 {
            2
        } else {
            0
        };
        let b1: usize = if vertical {
            1
        } else {
            0
        };
        let octant = b4 + b2 + b1;
        Self { x1, y1, x2, y2, len, dx, dy, vertical, sx, sy, inc, octant }
    }

    /// The quadrant, cut along the diagonals, in which the octant `octant` lies:
    /// 0 right, 1 below, 2 left, 3 above.
    pub open spec fn quadrant_of(octant: int) -> int {
        if octant == 0 || octant == 4 {
            0
        } else if octant == 1 || octant == 3 {
            1
        } else if octant == 2 || octant == 6 {
            2
        } else {
            3
        }
    }

    /// Returns the quadrant, cut along the diagonals, in which the line runs.
    pub fn diagonal_quadrant(&self) -> (r: u8)
        requires
            self.octant < 8,
        ensures
            r == Self::quadrant_of(self.octant as int),
    {
        let quads: [u8; 8] = [0, 1, 2, 1, 0, 3, 2, 3];
        quads[self.octant]
    }

    /// The middle of the line, each coordinate rounded towards zero.
    pub open spec fn middle(self) -> (int, int) {
        (trunc_div(self.x1 + self.x2, 2), trunc_div(self.y1 + self.y2, 2))
    }

    /// Whether the line can be cut in two at its middle.
    pub open spec fn can_divide(self) -> bool {
        &&& fits(self.x1 + self.x2)
        &&& fits(self.y1 + self.y2)
        &&& Self::can_new(self.x1 as int, self.y1 as int, self.middle().0, self.middle().1)
        &&& Self::can_new(self.middle().0, self.middle().1, self.x2 as int, self.y2 as int)
    }

    /// Cuts the line in two at its middle; each half gets half the length.
    pub fn divide(&self) -> (r: (LineParameters, LineParameters))
        requires
            self.can_divide(),
        ensures
            r.0 == Self::new_spec(
                self.x1,
                self.y1,
                self.middle().0 as i64,
                self.middle().1 as i64,
                trunc_div(self.len as int, 2) as i64,
            ),
            r.1 == Self::new_spec(
                self.middle().0 as i64,
                self.middle().1 as i64,
                self.x2,
                self.y2,
                trunc_div(self.len as int, 2) as i64,
            ),
    {
        let xmid = (self.x1 + self.x2) / 2;
        let ymid = (self.y1 + self.y2) / 2;
        let len2 = self.len / 2;
        let lp1 = LineParameters::new(self.x1, self.y1, xmid, ymid, len2);
        let lp2 = LineParameters::new(xmid, ymid, self.x2, self.y2, len2);
        (lp1, lp2)
    }

    /// Whether the line and the point `(x, y)` lie in the drawable range.
    pub open spec fn in_range(self, x: int, y: int) -> bool {
        &&& coord_ok(self.x1 as int)
        &&& coord_ok(self.y1 as int)
        &&& coord_ok(self.x2 as int)
        &&& coord_ok(self.y2 as int)
        &&& coord_ok(x)
        &&& coord_ok(y)
    }

    /// The distance of `(x, y)` from the line, taken from the end of the line and
    /// rounded to the nearest integer.
    pub open spec fn bisectrix_dist(self, x: int, y: int) -> int {
        round_div_clamped(
            (x - self.x2) * (self.y2 - self.y1) - (y - self.y2) * (self.x2 - self.x1),
            self.len as int,
        )
    }

    /// Returns the distance of `(x, y)` from the line.
    fn fix_degenerate_bisectrix_setup(&self, x: i64, y: i64) -> (d: i64)
        requires
            self.in_range(x as int, y as int),
        ensures
            d == self.bisectrix_dist(x as int, y as int),
    {
        let dx = (self.x2 - self.x1) as i128;
        let dy = (self.y2 - self.y1) as i128;
        let dx0 = (x - self.x2) as i128;
        let dy0 = (y - self.y2) as i128;
        proof {
            lemma_mul_bounded(dx0 as int, dy as int, 0x1_0000_0000, 0x1_0000_0000);
            lemma_mul_bounded(dy0 as int, dx as int, 0x1_0000_0000, 0x1_0000_0000);
        }
        div_round(dx0 * dy - dy0 * dx, self.len)
    }

    /// Returns the point that bounds the end of the line: `(x, y)` itself, or, if
    /// it lies less than half a pixel from the line, the point at the end of the
    /// line turned by a right angle.
    pub fn fix_degenerate_bisectrix_end(&self, x: i64, y: i64) -> (r: (i64, i64))
        requires
            self.in_range(x as int, y as int),
        ensures
            r == (if self.bisectrix_dist(x as int, y as int) < 128 {
                (
                    (self.x2 + (self.y2 - self.y1)) as i64,
                    (self.y2 - (self.x2 - self.x1)) as i64,
                )
            } else {
                (x, y)
            }),
    {
        let d = self.fix_degenerate_bisectrix_setup(x, y);
        if d < POLY_SUBPIXEL_SCALE / 2 {
            (self.x2 + (self.y2 - self.y1), self.y2 - (self.x2 - self.x1))
        } else {
            (x, y)
        }
    }

    /// Returns the point that bounds the start of the line: `(x, y)` itself, or,
    /// if it lies less than half a pixel from the line, the point at the start of
    /// the line turned by a right angle.
    pub fn fix_degenerate_bisectrix_start(&self, x: i64, y: i64) -> (r: (i64, i64))
        requires
            self.in_range(x as int, y as int),
        ensures
            r == (if self.bisectrix_dist(x as int, y as int) < 128 {
                (
                    (self.x1 + (self.y2 - self.y1)) as i64,
                    (self.y1 - (self.x2 - self.x1)) as i64,
                )
            } else {
                (x, y)
            }),
    {
        let d = self.fix_degenerate_bisectrix_setup(x, y);
        if d < POLY_SUBPIXEL_SCALE / 2 {
            (self.x1 + (self.y2 - self.y1), self.y1 - (self.x2 - self.x1))
        } else {
            (x, y)
        }
    }
}

/// Steps from one value to another in a given number of steps, each step the
/// same but for the remainders, which are spread evenly.
#[derive(Clone, Copy, Debug, PartialEq, Eq, Hash)]
pub struct LineInterpolator {
    /// The number of steps, at least one.
    pub count: i64,
    /// What every step adds.
    pub left: i64,
    /// What every step adds to `xmod`.
    pub rem: i64,
    /// The remainders gathered so far, less `count`.
    pub xmod: i64,
    /// The current value.
    pub y: i64,
}

impl LineInterpolator {
    /// The interpolator that starts at `y` and covers the distance `d` in `count`
    /// steps, before the remainders are set back by `count`.
    ///
    /// With a positive `count`, `left` is the largest step such that `count`
    /// steps fall short of `d`, and `rem` is what they fall short by.
    pub open spec fn start_spec(y: i64, d: int, count: i64) -> LineInterpolator {
        let cnt: i64 = if count > 1 {
            count
        } else {
            1
        };
        let q = trunc_div(d, cnt as int);
        let r = trunc_rem(d, cnt as int);
        if r <= 0 {
            LineInterpolator {
                y,
                left: (q - 1) as i64,
                rem: (r + count) as i64,
                xmod: (r + count) as i64,
                count: cnt,
            }
        } else {
            LineInterpolator { y, left: q as i64, rem: r as i64, xmod: r as i64, count: cnt }
        }
    }

    /// Whether the start values for the distance `d` are values of type `i64`.
    pub open spec fn can_start(d: int, count: i64) -> bool {
        &&& fits(d)
        &&& fits(d - 1)
        &&& fits(trunc_rem(d, if count > 1 {
            count as int
        } else {
            1
        }) + count)
        &&& fits(-(count as int))
    }

    /// Creates the interpolator that goes from `y1` to `y2` in `count` steps.
    pub fn new(y1: i64, y2: i64, count: i64) -> (r: Self)
        requires
            Self::can_start(y2 - y1, count),
        ensures
            r == (LineInterpolator {
                xmod: (Self::start_spec(y1, y2 - y1, count).xmod - count) as i64,
                ..Self::start_spec(y1, y2 - y1, count)
            }),
    {
        let cnt = if count > 1 {
            count
        } else {
            1
        };
        let mut left = (y2 - y1) / cnt;
        let mut rem = (y2 - y1) % cnt;
        let mut xmod = rem;
        let y = y1;
        proof {
            lemma_trunc_rem_bounds(y2 - y1, cnt as int);
        }
        if xmod <= 0 {
            xmod += count;
            rem += count;
            left -= 1;
        }
        xmod -= count;
        Self { y, left, rem, xmod, count: cnt }
    }

    /// Sets the remainders back by one whole step.
    pub fn adjust_forward(&mut self)
        requires
            fits(old(self).xmod - old(self).count),
        ensures
            *final(self) == (LineInterpolator {
                xmod: (old(self).xmod - old(self).count) as i64,
                ..*old(self)
            }),
    {
        self.xmod -= self.count;
    }

    /// Creates the interpolator that goes from `y1` to `y2` in `count` steps.
    pub fn new_foward_adjusted(y1: i64, y2: i64, count: i64) -> (r: Self)
        requires
            Self::can_start(y2 - y1, count),
        ensures
            r == (LineInterpolator {
                xmod: (Self::start_spec(y1, y2 - y1, count).xmod - count) as i64,
                ..Self::start_spec(y1, y2 - y1, count)
            }),
    {
        Self::new(y1, y2, count)
    }

    /// Creates the interpolator that goes from 0 to `y` in `count` steps, with
    /// the remainders not yet set back.
    pub fn new_back_adjusted_2(y: i64, count: i64) -> (r: Self)
        requires
            Self::can_start(y as int, count),
        ensures
            r == Self::start_spec(0, y as int, count),
    {
        let cnt = if count > 1 {
            count
        } else {
            1
        };
        let mut left = y / cnt;
        let mut rem = y % cnt;
        let mut xmod = rem;
        let m_y: i64 = 0;
        proof {
            lemma_trunc_rem_bounds(y as int, cnt as int);
        }
        if xmod <= 0 {
            xmod += count;
            rem += count;
            left -= 1;
        }
        Self { y: m_y, left, rem, xmod, count: cnt }
    }

    /// The interpolator one step on: the value grows by `left`, and by one more
    /// when the remainders have gathered to a whole.
    pub open spec fn stepped(self) -> LineInterpolator {
        if self.xmod + self.rem > 0 {
            LineInterpolator {
                xmod: (self.xmod + self.rem - self.count) as i64,
                y: (self.y + self.left + 1) as i64,
                ..self
            }
        } else {
            LineInterpolator {
                xmod: (self.xmod + self.rem) as i64,
                y: (self.y + self.left) as i64,
                ..self
            }
        }
    }

    /// Whether one step on all values are values of type `i64`.
    pub open spec fn can_step(self) -> bool {
        &&& fits(self.xmod + self.rem)
        &&& fits(self.xmod + self.rem - self.count)
        &&& fits(self.y + self.left)
        &&& fits(self.y + self.left + 1)
    }

    /// Goes one step on.
    pub fn inc(&mut self)
        requires
            old(self).can_step(),
        ensures
            *final(self) == old(self).stepped(),
    {
        self.xmod += self.rem;
        self.y += self.left;
        if self.xmod > 0 {
            self.xmod -= self.count;
            self.y += 1;
        }
    }

    /// The interpolator one step back.
    pub open spec fn stepped_back(self) -> LineInterpolator {
        if self.xmod <= self.rem {
            LineInterpolator {
                xmod: (self.xmod + self.count - self.rem) as i64,
                y: (self.y - 1 - self.left) as i64,
                ..self
            }
        } else {
            LineInterpolator {
                xmod: (self.xmod - self.rem) as i64,
                y: (self.y - self.left) as i64,
                ..self
            }
        }
    }

    /// Whether one step back all values are values of type `i64`.
    pub open spec fn can_step_back(self) -> bool {
        &&& fits(self.xmod + self.count)
        &&& fits(self.xmod - self.rem)
        &&& fits(self.xmod + self.count - self.rem)
        &&& fits(self.y - 1)
        &&& fits(self.y - self.left)
        &&& fits(self.y - 1 - self.left)
    }

    /// Goes one step back.
    pub fn dec(&mut self)
        requires
            old(self).can_step_back(),
        ensures
            *final(self) == old(self).stepped_back(),
    {
        if self.xmod <= self.rem {
            self.xmod += self.count;
            self.y -= 1;
        }
        self.xmod -= self.rem;
        self.y -= self.left;
    }

    /// Returns the remainders gathered so far, less `count`.
    pub fn xmod(&self) -> (r: i64)
        ensures
            r == self.xmod,
    {
        self.xmod
    }

    /// Returns the number of steps.
    pub fn count(&self) -> (r: i64)
        ensures
            r == self.count,
    {
        self.count
    }

    /// Returns what every step adds.
    pub fn left(&self) -> (r: i64)
        ensures
            r == self.left,
    {
        self.left
    }

    /// Returns what every step adds to the remainders.
    pub fn rem(&self) -> (r: i64)
        ensures
            r == self.rem,
    {
        self.rem
    }
}

/// The quotient that rounds towards zero is no larger in magnitude than the
/// dividend, and its remainder is smaller in magnitude than the divisor.
pub proof fn lemma_trunc_rem_bounds(n: int, d: int)
    requires
        d >= 1,
    ensures
        -abs(n) <= trunc_div(n, d) <= abs(n),
        -d < trunc_rem(n, d) < d,
        n >= 0 ==> trunc_rem(n, d) >= 0 && trunc_div(n, d) >= 0,
        n <= 0 ==> trunc_rem(n, d) <= 0 && trunc_div(n, d) <= 0,
        n >= 0 ==> trunc_rem(n, d) == n % d && trunc_div(n, d) == n / d,
        n < 0 ==> trunc_rem(n, d) == -((-n) % d) && trunc_div(n, d) == -((-n) / d),
{
    let a = abs(n);
    vstd::arithmetic::div_mod::lemma_fundamental_div_mod(a, d);
    vstd::arithmetic::div_mod::lemma_mod_bound(a, d);
    vstd::arithmetic::div_mod::lemma_div_pos_is_pos(a, d);
    let q = a / d;
    assert(q <= a) by (nonlinear_arith)
        requires
            a == d * q + a % d,
            a % d >= 0,
            d >= 1,
            q >= 0,
    ;
    assert(d * (-q) == -(d * q)) by (nonlinear_arith);
}

/// The interpolator after `k` steps.
pub open spec fn li_after(li: LineInterpolator, k: int) -> LineInterpolator
    decreases k,
{
    if k <= 0 {
        li
    } else {
        li_after(li, k - 1).stepped()
    }
}

/// Whether one of the first `k` values of the interpolator has reached `stop`.
pub open spec fn stopped_before(li: LineInterpolator, stop: int, k: int) -> bool
    decreases k,
{
    k > 0 && (stopped_before(li, stop, k - 1) || li_after(li, k - 1).y >= stop)
}

/// The value that ends the table of distances.
pub const DIST_END: i64 = 0x7FFF_0000;

/// The state of an anti-aliased line while it is drawn pixel by pixel along its
/// longer axis.
#[derive(Clone, Debug)]
pub struct LineInterpolatorAA {
    /// The line.
    pub lp: LineParameters,
    /// Steps across the line: the position on the shorter axis.
    pub li: LineInterpolator,
    /// The length of the line, negative if the distance has to change its sign.
    pub len: i64,
    /// Current pixel column.
    pub x: i64,
    /// Current pixel row.
    pub y: i64,
    /// Pixel column before the last step.
    pub old_x: i64,
    /// Pixel row before the last step.
    pub old_y: i64,
    /// The number of steps along the longer axis.
    pub count: i64,
    /// The width of the line in sub-pixel units.
    pub width: i64,
    /// The width of the line in whole pixels, rounded up.
    pub max_extent: i64,
    /// The number of steps taken.
    pub step: i64,
    /// The distances from the line of the pixels beside it, ended by `DIST_END`.
    pub dist: Vec<i64>,
    /// Room for the coverage of the pixels across the line.
    pub covers: Vec<u64>,
}

/// What the interpolator of an anti-aliased line holds.
pub struct AAView {
    /// The line.
    pub lp: LineParameters,
    /// Steps across the line: the position on the shorter axis.
    pub li: LineInterpolator,
    /// The length of the line, negative if the distance has to change its sign.
    pub len: i64,
    /// Current pixel column.
    pub x: i64,
    /// Current pixel row.
    pub y: i64,
    /// Pixel column before the last step.
    pub old_x: i64,
    /// Pixel row before the last step.
    pub old_y: i64,
    /// The number of steps along the longer axis.
    pub count: i64,
    /// The width of the line in sub-pixel units.
    pub width: i64,
    /// The width of the line in whole pixels, rounded up.
    pub max_extent: i64,
    /// The number of steps taken.
    pub step: i64,
    /// The distances from the line of the pixels beside it.
    pub dist: Seq<i64>,
    /// The coverage of the pixels across the line.
    pub covers: Seq<u64>,
}

impl View for LineInterpolatorAA {
    type V = AAView;

    open spec fn view(&self) -> AAView {
        AAView {
            lp: self.lp,
            li: self.li,
            len: self.len,
            x: self.x,
            y: self.y,
            old_x: self.old_x,
            old_y: self.old_y,
            count: self.count,
            width: self.width,
            max_extent: self.max_extent,
            step: self.step,
            dist: self.dist@,
            covers: self.covers@,
        }
    }
}

impl AAView {
    /// The pixel row after a step along the horizontal axis.
    pub open spec fn hor_y(self) -> int {
        pixel_of(self.lp.y1 + self.li.stepped().y)
    }

    /// The pixel column after a step along the vertical axis.
    pub open spec fn ver_x(self) -> int {
        pixel_of(self.lp.x1 + self.li.stepped().y)
    }

    /// The state after a step along the horizontal axis.
    pub open spec fn moved_hor(self) -> AAView {
        AAView {
            li: self.li.stepped(),
            x: (self.x + self.lp.inc) as i64,
            y: self.hor_y() as i64,
            old_y: self.hor_y() as i64,
            ..self
        }
    }

    /// The state after a step along the vertical axis.
    pub open spec fn moved_ver(self) -> AAView {
        AAView {
            li: self.li.stepped(),
            y: (self.y + self.lp.inc) as i64,
            x: self.ver_x() as i64,
            old_x: self.ver_x() as i64,
            ..self
        }
    }

    /// The distance interpolator after a step along the horizontal axis.
    pub open spec fn di_hor<DI: DistanceInterpolator>(self, di: DI) -> DI {
        di.moved(sign(self.lp.inc as int), sign(self.hor_y() - self.old_y))
    }

    /// The distance interpolator after a step along the vertical axis.
    pub open spec fn di_ver<DI: DistanceInterpolator>(self, di: DI) -> DI {
        di.moved(sign(self.ver_x() - self.old_x), sign(self.lp.inc as int))
    }

    /// The pixel row after a step back along the horizontal axis.
    pub open spec fn back_y(self) -> int {
        pixel_of(self.lp.y1 + self.li.stepped_back().y)
    }

    /// The pixel column after a step back along the vertical axis.
    pub open spec fn back_x(self) -> int {
        pixel_of(self.lp.x1 + self.li.stepped_back().y)
    }

    /// The state after a step back along the horizontal axis.
    pub open spec fn backed_hor(self) -> AAView {
        AAView {
            li: self.li.stepped_back(),
            x: (self.x - self.lp.inc) as i64,
            y: self.back_y() as i64,
            old_y: self.back_y() as i64,
            ..self
        }
    }

    /// The state after a step back along the vertical axis.
    pub open spec fn backed_ver(self) -> AAView {
        AAView {
            li: self.li.stepped_back(),
            y: (self.y - self.lp.inc) as i64,
            x: self.back_x() as i64,
            old_x: self.back_x() as i64,
            ..self
        }
    }

    /// The direction of a step back along the longer axis.
    pub open spec fn back_dir(self) -> int {
        if self.lp.inc > 0 {
            -1
        } else {
            1
        }
    }

    /// The distance interpolator after a step back along the horizontal axis.
    pub open spec fn di_back_hor<DI: DistanceInterpolator>(self, di: DI) -> DI {
        di.moved(self.back_dir(), sign(self.back_y() - self.old_y))
    }

    /// The distance interpolator after a step back along the vertical axis.
    pub open spec fn di_back_ver<DI: DistanceInterpolator>(self, di: DI) -> DI {
        di.moved(sign(self.back_x() - self.old_x), self.back_dir())
    }

    /// Whether a step back along the horizontal axis can be computed without
    /// any value leaving `i64`.
    pub open spec fn can_back_hor<DI: DistanceInterpolator>(self, di: DI) -> bool {
        &&& self.li.can_step_back()
        &&& fits(self.x - self.lp.inc)
        &&& fits(self.lp.y1 + self.li.stepped_back().y)
        &&& fits(self.back_y() - self.old_y)
        &&& di.can_step(self.back_dir(), sign(self.back_y() - self.old_y))
    }

    /// Whether a step back along the vertical axis can be computed without any
    /// value leaving `i64`.
    pub open spec fn can_back_ver<DI: DistanceInterpolator>(self, di: DI) -> bool {
        &&& self.li.can_step_back()
        &&& fits(self.y - self.lp.inc)
        &&& fits(self.lp.x1 + self.li.stepped_back().y)
        &&& fits(self.back_x() - self.old_x)
        &&& di.can_step(sign(self.back_x() - self.old_x), self.back_dir())
    }

    /// Whether a step along the horizontal axis can be computed: no value leaves
    /// `i64` and the length is not zero.
    pub open spec fn can_step_hor<DI: DistanceInterpolator>(self, di: DI) -> bool {
        &&& self.li.can_step()
        &&& fits(self.x + self.lp.inc)
        &&& fits(self.lp.y1 + self.li.stepped().y)
        &&& fits(self.hor_y() - self.old_y)
        &&& di.can_step(sign(self.lp.inc as int), sign(self.hor_y() - self.old_y))
        &&& self.lp.inc != 0
        &&& self.len != 0
        &&& !(self.len == -1 && self.di_hor(di).dist_spec() == i64::MIN)
    }

    /// Whether a step along the vertical axis can be computed: no value leaves
    /// `i64` and the length is not zero.
    pub open spec fn can_step_ver<DI: DistanceInterpolator>(self, di: DI) -> bool {
        &&& self.li.can_step()
        &&& fits(self.y + self.lp.inc)
        &&& fits(self.lp.x1 + self.li.stepped().y)
        &&& fits(self.ver_x() - self.old_x)
        &&& di.can_step(sign(self.ver_x() - self.old_x), sign(self.lp.inc as int))
        &&& self.lp.inc != 0
        &&& self.len != 0
        &&& !(self.len == -1 && self.di_ver(di).dist_spec() == i64::MIN)
    }
}

impl LineInterpolatorAA {
    /// Whether the line and the width are small enough for all values of the
    /// interpolator to be computed.
    pub open spec fn usable(lp: LineParameters, width: i64) -> bool {
        &&& coord_ok(lp.x1 as int)
        &&& coord_ok(lp.y1 as int)
        &&& coord_ok(lp.x2 as int)
        &&& coord_ok(lp.y2 as int)
        &&& 0 <= lp.dx <= 0x1_0000_0000
        &&& 0 <= lp.dy <= 0x1_0000_0000
        &&& -0x100_0000_0000 <= lp.len <= 0x100_0000_0000
        &&& -0x100_0000_0000 <= width <= 0x100_0000_0000
    }

    /// The extent of the line across its longer axis, in 256ths of a sub-pixel unit.
    pub open spec fn across(lp: LineParameters) -> int {
        if lp.vertical {
            256 * (lp.x2 - lp.x1)
        } else {
            256 * (lp.y2 - lp.y1)
        }
    }

    /// The number of steps in which `across` is covered.
    pub open spec fn along(lp: LineParameters) -> int {
        if lp.vertical {
            abs(lp.y2 - lp.y1)
        } else {
            abs(lp.x2 - lp.x1) + 1
        }
    }

    /// The interpolator that gives the distances of the pixels beside the line.
    pub open spec fn dist_steps(lp: LineParameters) -> LineInterpolator {
        let s = LineInterpolator::start_spec(0, 256 * (if lp.vertical {
            lp.dy as int
        } else {
            lp.dx as int
        }), lp.len);
        LineInterpolator { xmod: (s.xmod - lp.len) as i64, ..s }
    }

    /// What a new interpolator of a line of the width `subpixel_width` holds.
    ///
    /// The table of distances holds the values of `dist_steps` up to the first
    /// one that reaches the width and two pixels more, then zeros, and `DIST_END`
    /// at its end.
    pub open spec fn new_spec(lp: LineParameters, subpixel_width: i64) -> AAView {
        AAView {
            lp,
            li: LineInterpolator::start_spec(0, Self::across(lp), Self::along(lp) as i64),
            len: if lp.vertical == (lp.inc > 0) {
                (-lp.len) as i64
            } else {
                lp.len
            },
            x: pixel_of(lp.x1 as int) as i64,
            y: pixel_of(lp.y1 as int) as i64,
            old_x: pixel_of(lp.x1 as int) as i64,
            old_y: pixel_of(lp.y1 as int) as i64,
            count: (if lp.vertical {
                abs(pixel_of(lp.y2 as int) - pixel_of(lp.y1 as int))
            } else {
                abs(pixel_of(lp.x2 as int) - pixel_of(lp.x1 as int))
            }) as i64,
            width: subpixel_width,
            max_extent: pixel_of(subpixel_width + 255) as i64,
            step: 0,
            dist: Seq::new(
                (MAX_HALF_WIDTH + 1) as nat,
                |k: int|
                    if k == MAX_HALF_WIDTH {
                        DIST_END
                    } else if stopped_before(Self::dist_steps(lp), subpixel_width + 512, k) {
                        0i64
                    } else {
                        li_after(Self::dist_steps(lp), k).y
                    },
            ),
            covers: Seq::new((MAX_HALF_WIDTH * 2 + 4) as nat, |i: int| 0u64),
        }
    }

    /// Creates the interpolator of a line of the width `subpixel_width`.
    pub fn new(lp: LineParameters, subpixel_width: i64) -> (r: Self)
        requires
            Self::usable(lp, subpixel_width),
        ensures
            r@ == Self::new_spec(lp, subpixel_width),
    {
        let len = if lp.vertical == (lp.inc > 0) {
            -lp.len
        } else {
            lp.len
        };
        let x = pixel_floor(lp.x1);
        let y = pixel_floor(lp.y1);
        let old_x = x;
        let old_y = y;
        let count = if lp.vertical {
            let d = pixel_floor(lp.y2) - y;
            if d < 0 {
                -d
            } else {
                d
            }
        } else {
            let d = pixel_floor(lp.x2) - x;
            if d < 0 {
                -d
            } else {
                d
            }
        };
        let width = subpixel_width;
        let max_extent = pixel_floor(width + crate::util::POLY_SUBPIXEL_MASK);
        let step: i64 = 0;
        let y1 = if lp.vertical {
            to_subpixel(lp.x2 - lp.x1)
        } else {
            to_subpixel(lp.y2 - lp.y1)
        };
        let n = if lp.vertical {
            let d = lp.y2 - lp.y1;
            if d < 0 {
                -d
            } else {
                d
            }
        } else {
            let d = lp.x2 - lp.x1;
            (if d < 0 {
                -d
            } else {
                d
            }) + 1
        };
        proof {
            lemma_trunc_rem_bounds(y1 as int, if n > 1 {
                n as int
            } else {
                1
            });
        }
        let m_li = LineInterpolator::new_back_adjusted_2(y1, n);
        let dd = to_subpixel(
            if lp.vertical {
                lp.dy
            } else {
                lp.dx
            },
        );
        proof {
            lemma_trunc_rem_bounds(dd as int, if lp.len > 1 {
                lp.len as int
            } else {
                1
            });
        }
        let mut li = LineInterpolator::new_foward_adjusted(0, dd, lp.len);
        let ghost li0 = li;
        let ghost bound: int = 0x400_0000_0000;
        let stop = width + POLY_SUBPIXEL_SCALE * 2;
        let mut dist: Vec<i64> = Vec::new();
        let mut k: usize = 0;
        let mut stopped = false;
        while k < MAX_HALF_WIDTH
            invariant
                k <= MAX_HALF_WIDTH,
                dist@.len() == k,
                li0 == Self::dist_steps(lp),
                stop == subpixel_width + 512,
                bound == 0x400_0000_0000,
                stopped == stopped_before(li0, stop as int, k as int),
                !stopped ==> li == li_after(li0, k as int),
                -bound <= li.left <= bound,
                -bound <= li.rem <= bound,
                -bound <= li.count <= bound,
                -(2 * k + 1) * bound <= li.xmod <= (2 * k + 1) * bound,
                -k * (bound + 1) <= li.y <= k * (bound + 1),
                forall|j: int|
                    0 <= j < k ==> (#[trigger] dist@[j]) == (if stopped_before(li0, stop as int, j) {
                        0
                    } else {
                        li_after(li0, j).y as int
                    }),
            decreases MAX_HALF_WIDTH - k,
        {
            if stopped {
                dist.push(0);
            } else {
                dist.push(li.y);
                if li.y >= stop {
                    stopped = true;
                } else {
                    li.inc();
                }
            }
            k = k + 1;
        }
        dist.push(DIST_END);
        let mut covers: Vec<u64> = Vec::new();
        let mut c: usize = 0;
        while c < MAX_HALF_WIDTH * 2 + 4
            invariant
                c <= MAX_HALF_WIDTH * 2 + 4,
                covers@ == Seq::new(c as nat, |i: int| 0u64),
            decreases MAX_HALF_WIDTH * 2 + 4 - c,
        {
            covers.push(0);
            c = c + 1;
            assert(covers@ =~= Seq::new(c as nat, |i: int| 0u64));
        }
        let r = Self {
            lp,
            li: m_li,
            len,
            x,
            y,
            old_x,
            old_y,
            count,
            width,
            max_extent,
            step,
            dist,
            covers,
        };
        assert(r@.dist =~= Self::new_spec(lp, subpixel_width).dist);
        r
    }

    /// Goes one pixel on along the horizontal axis and returns the distance of the
    /// new pixel from the line, divided by the length of the line.
    pub fn step_hor_base<DI: DistanceInterpolator>(&mut self, di: &mut DI) -> (r: i64)
        requires
            old(self)@.can_step_hor(*old(di)),
        ensures
            final(self)@ == old(self)@.moved_hor(),
            *final(di) == old(self)@.di_hor(*old(di)),
            r == trunc_div(final(di).dist_spec(), old(self).len as int),
    {
        self.li.inc();
        self.x += self.lp.inc;
        self.y = pixel_floor(self.lp.y1 + self.li.y);
        if self.lp.inc > 0 {
            di.inc_x(self.y - self.old_y);
        } else {
            di.dec_x(self.y - self.old_y);
        }
        self.old_y = self.y;
        div_trunc(di.dist(), self.len)
    }

    /// Goes one pixel back along the horizontal axis.
    pub fn back_hor<DI: DistanceInterpolator>(&mut self, di: &mut DI)
        requires
            old(self)@.can_back_hor(*old(di)),
        ensures
            final(self)@ == old(self)@.backed_hor(),
            *final(di) == old(self)@.di_back_hor(*old(di)),
    {
        self.li.dec();
        self.x -= self.lp.inc;
        self.y = pixel_floor(self.lp.y1 + self.li.y);
        if self.lp.inc > 0 {
            di.dec_x(self.y - self.old_y);
        } else {
            di.inc_x(self.y - self.old_y);
        }
        self.old_y = self.y;
    }

    /// Goes one pixel back along the vertical axis.
    pub fn back_ver<DI: DistanceInterpolator>(&mut self, di: &mut DI)
        requires
            old(self)@.can_back_ver(*old(di)),
        ensures
            final(self)@ == old(self)@.backed_ver(),
            *final(di) == old(self)@.di_back_ver(*old(di)),
    {
        self.li.dec();
        self.y -= self.lp.inc;
        self.x = pixel_floor(self.lp.x1 + self.li.y);
        if self.lp.inc > 0 {
            di.dec_y(self.x - self.old_x);
        } else {
            di.inc_y(self.x - self.old_x);
        }
        self.old_x = self.x;
    }

    /// Goes one pixel on along the vertical axis and returns the distance of the
    /// new pixel from the line, divided by the length of the line.
    pub fn step_ver_base<DI: DistanceInterpolator>(&mut self, di: &mut DI) -> (r: i64)
        requires
            old(self)@.can_step_ver(*old(di)),
        ensures
            final(self)@ == old(self)@.moved_ver(),
            *final(di) == old(self)@.di_ver(*old(di)),
            r == trunc_div(final(di).dist_spec(), old(self).len as int),
    {
        self.li.inc();
        self.y += self.lp.inc;
        self.x = pixel_floor(self.lp.x1 + self.li.y);
        if self.lp.inc > 0 {
            di.inc_y(self.x - self.old_x);
        } else {
            di.dec_y(self.x - self.old_x);
        }
        self.old_x = self.x;
        div_trunc(di.dist(), self.len)
    }
}

/// Divides `n` by `d`, rounding towards zero.
pub fn div_trunc(n: i64, d: i64) -> (r: i64)
    requires
        d != 0,
        !(n == i64::MIN && d == -1),
    ensures
        r == trunc_div(n as int, d as int),
{
    proof {
        lemma_trunc_exec(n as int, d as int);
        if n == i64::MIN && d < -1 {
            vstd::arithmetic::div_mod::lemma_div_is_ordered_by_denominator(
                abs(n as int),
                2,
                abs(d as int),
            );
        }
    }
    n / d
}

/// Dividing by a negative number gives the negative of dividing by its magnitude.
pub proof fn lemma_div_by_negative(n: int, d: int)
    by (nonlinear_arith)
    requires
        d < 0,
    ensures
        n / d == -(n / (-d)),
{
}

/// The division that rounds towards zero: the magnitudes are divided and the
/// sign is put back.
pub proof fn lemma_trunc_exec(n: int, d: int)
    requires
        d != 0,
    ensures
        n >= 0 ==> trunc_div(n, d) == n / d,
        n < 0 ==> trunc_div(n, d) == -((-n) / d),
        -abs(n) <= trunc_div(n, d) <= abs(n),
{
    if d < 0 {
        lemma_div_by_negative(n, d);
        lemma_div_by_negative(-n, d);
    }
    lemma_trunc_rem_bounds(abs(n), abs(d));
}

} // verus!
