//! Distance interpolators: they follow the distance of a moving pixel from a line.

use crate::cell::coord_ok;
use crate::clip::clamp_i64;
use crate::util::{mr_to_subpixel, to_subpixel, POLY_SUBPIXEL_SCALE};
use vstd::prelude::*;

verus! {

/// The mid-range coordinate of the sub-pixel coordinate `x`: `x / 16` rounded down.
pub open spec fn line_mr_spec(x: int) -> int {
    x / 16
}

/// Converts a sub-pixel coordinate to mid-range precision.
pub fn line_mr(x: i64) -> (r: i64)
    ensures
        r == line_mr_spec(x as int),
{
    assert(x >> 4 == x / 16) by (bit_vector);
    x >> 4
}

/// Whether `v` is a value of type `i64`.
pub open spec fn fits(v: int) -> bool {
    i64::MIN <= v <= i64::MAX
}

/// `v` with the sign of `s`, and zero if `s` is zero.
pub open spec fn signed(v: int, s: int) -> int {
    if s > 0 {
        v
    } else if s < 0 {
        -v
    } else {
        0
    }
}

/// The distance after the pixel has moved by `mx` columns and `my` rows, each
/// of them -1, 0 or 1, from a line with the direction `(dx, dy)`.
pub open spec fn moved(dist: int, dx: int, dy: int, mx: int, my: int) -> int {
    dist + signed(dy, mx) - signed(dx, my)
}

/// Whether the distance after a move, and what is computed on the way to it,
/// are values of type `i64`.
pub open spec fn can_move(dist: int, dx: int, dy: int, mx: int, my: int) -> bool {
    &&& fits(dist + signed(dy, mx))
    &&& fits(dist - signed(dx, my))
    &&& fits(moved(dist, dx, dy, mx, my))
}

/// The sign of `v`: -1, 0 or 1.
pub open spec fn sign(v: int) -> int {
    if v > 0 {
        1
    } else if v < 0 {
        -1
    } else {
        0
    }
}

/// The distance, in mid-range units, of the centre of the pixel at `(x, y)`
/// from the line through `(px, py)` with the direction `(dx, dy)`.
pub open spec fn mr_dist(x: int, y: int, px: int, py: int, dx: int, dy: int) -> int {
    (line_mr_spec(x + 128) - line_mr_spec(px)) * dy - (line_mr_spec(y + 128) - line_mr_spec(py))
        * dx
}

/// The distance, in sub-pixel units, of the centre of the pixel at `(x, y)` from
/// the line through `(px, py)` with the direction `(dx, dy)`, kept inside `i64`.
pub open spec fn full_dist(x: int, y: int, px: int, py: int, dx: int, dy: int) -> int {
    clamp_i64((x + 128 - px) * dy - (y + 128 - py) * dx)
}

/// Returns the mid-range distance of the centre of the pixel at `(x, y)` from
/// the line through `(px, py)` with the mid-range direction `(dx, dy)`.
fn mr_distance(x: i64, y: i64, px: i64, py: i64, dx: i64, dy: i64) -> (r: i64)
    requires
        coord_ok(x as int),
        coord_ok(y as int),
        coord_ok(px as int),
        coord_ok(py as int),
        -0x2000_0000 <= dx <= 0x2000_0000,
        -0x2000_0000 <= dy <= 0x2000_0000,
    ensures
        r == mr_dist(x as int, y as int, px as int, py as int, dx as int, dy as int),
{
    let a = line_mr(x + POLY_SUBPIXEL_SCALE / 2) - line_mr(px);
    let b = line_mr(y + POLY_SUBPIXEL_SCALE / 2) - line_mr(py);
    proof {
        crate::cell::lemma_mul_bounded(a as int, dy as int, 0x2000_0000, 0x2000_0000);
        crate::cell::lemma_mul_bounded(b as int, dx as int, 0x2000_0000, 0x2000_0000);
    }
    a * dy - b * dx
}

/// Returns the distance of the centre of the pixel at `(x, y)` from the line
/// through `(px, py)` with the direction `(dx, dy)`, kept inside `i64`.
fn full_distance(x: i64, y: i64, px: i64, py: i64, dx: i64, dy: i64) -> (r: i64)
    requires
        coord_ok(x as int),
        coord_ok(y as int),
        coord_ok(px as int),
        coord_ok(py as int),
        -0x1_0000_0000 <= dx <= 0x1_0000_0000,
        -0x1_0000_0000 <= dy <= 0x1_0000_0000,
    ensures
        r == full_dist(x as int, y as int, px as int, py as int, dx as int, dy as int),
{
    let a: i128 = (x + POLY_SUBPIXEL_SCALE / 2 - px) as i128;
    let b: i128 = (y + POLY_SUBPIXEL_SCALE / 2 - py) as i128;
    proof {
        crate::cell::lemma_mul_bounded(a as int, dy as int, 0x2_0000_0000, 0x1_0000_0000);
        crate::cell::lemma_mul_bounded(b as int, dx as int, 0x2_0000_0000, 0x1_0000_0000);
    }
    let d: i128 = a * (dy as i128) - b * (dx as i128);
    if d < i64::MIN as i128 {
        i64::MIN
    } else if d > i64::MAX as i128 {
        i64::MAX
    } else {
        d as i64
    }
}

/// What all distance interpolators that follow a line have in common.
pub trait DistanceInterpolator: Sized {
    /// The current distance.
    spec fn dist_spec(&self) -> int;

    /// Whether the pixel can move by `mx` columns and `my` rows without any
    /// distance leaving `i64`.
    spec fn can_step(&self, mx: int, my: int) -> bool;

    /// The interpolator after the pixel has moved by `mx` columns and `my` rows.
    spec fn moved(&self, mx: int, my: int) -> Self;

    /// Returns the current distance.
    fn dist(&self) -> (r: i64)
        ensures
            r == self.dist_spec(),
    ;

    /// Moves one pixel to the right, and one row in the direction of `dy`.
    fn inc_x(&mut self, dy: i64)
        requires
            old(self).can_step(1, sign(dy as int)),
        ensures
            *final(self) == old(self).moved(1, sign(dy as int)),
    ;

    /// Moves one pixel to the left, and one row in the direction of `dy`.
    fn dec_x(&mut self, dy: i64)
        requires
            old(self).can_step(-1, sign(dy as int)),
        ensures
            *final(self) == old(self).moved(-1, sign(dy as int)),
    ;

    /// Moves one pixel down, and one column in the direction of `dx`.
    fn inc_y(&mut self, dx: i64)
        requires
            old(self).can_step(sign(dx as int), 1),
        ensures
            *final(self) == old(self).moved(sign(dx as int), 1),
    ;

    /// Moves one pixel up, and one column in the direction of `dx`.
    fn dec_y(&mut self, dx: i64)
        requires
            old(self).can_step(sign(dx as int), -1),
        ensures
            *final(self) == old(self).moved(sign(dx as int), -1),
    ;
}

/// Follows the distances from two lines through a common centre.
#[derive(Clone, Copy, Debug, PartialEq, Eq, Hash)]
pub struct DistanceInterpolator00 {
    /// Horizontal direction of the first line.
    pub dx1: i64,
    /// Vertical direction of the first line.
    pub dy1: i64,
    /// Horizontal direction of the second line.
    pub dx2: i64,
    /// Vertical direction of the second line.
    pub dy2: i64,
    /// Distance from the first line.
    pub dist1: i64,
    /// Distance from the second line.
    pub dist2: i64,
}

/// Follows the distance from one line, in mid-range precision.
#[derive(Clone, Copy, Debug, PartialEq, Eq, Hash)]
pub struct DistanceInterpolator0 {
    /// Horizontal direction of the line.
    pub dx: i64,
    /// Vertical direction of the line.
    pub dy: i64,
    /// Distance from the line.
    pub dist: i64,
}

/// Follows the distance from one line.
#[derive(Clone, Copy, Debug, PartialEq, Eq, Hash)]
pub struct DistanceInterpolator1 {
    /// Horizontal direction of the line.
    pub dx: i64,
    /// Vertical direction of the line.
    pub dy: i64,
    /// Distance from the line.
    pub dist: i64,
}

/// Follows the distances from a line and from the line that bounds one of its ends.
#[derive(Clone, Copy, Debug, PartialEq, Eq, Hash)]
pub struct DistanceInterpolator2 {
    /// Horizontal direction of the line.
    pub dx: i64,
    /// Vertical direction of the line.
    pub dy: i64,
    /// Horizontal direction of the bounding line.
    pub dx_start: i64,
    /// Vertical direction of the bounding line.
    pub dy_start: i64,
    /// Distance from the line.
    pub dist: i64,
    /// Distance from the bounding line.
    pub dist_start: i64,
}

/// Follows the distances from a line and from the lines that bound its two ends.
#[derive(Clone, Copy, Debug, PartialEq, Eq, Hash)]
pub struct DistanceInterpolator3 {
    /// Horizontal direction of the line.
    pub dx: i64,
    /// Vertical direction of the line.
    pub dy: i64,
    /// Horizontal direction of the line that bounds the start.
    pub dx_start: i64,
    /// Vertical direction of the line that bounds the start.
    pub dy_start: i64,
    /// Horizontal direction of the line that bounds the end.
    pub dx_end: i64,
    /// Vertical direction of the line that bounds the end.
    pub dy_end: i64,
    /// Distance from the line.
    pub dist: i64,
    /// Distance from the line that bounds the start.
    pub dist_start: i64,
    /// Distance from the line that bounds the end.
    pub dist_end: i64,
}

/// Follows the distances from a line, from the lines that bound its two ends, and along a pattern.
#[derive(Clone, Copy, Debug, PartialEq, Eq, Hash)]
pub struct DistanceInterpolator4 {
    /// Horizontal direction of the line.
    pub dx: i64,
    /// Vertical direction of the line.
    pub dy: i64,
    /// Horizontal direction of the line that bounds the start.
    pub dx_start: i64,
    /// Vertical direction of the line that bounds the start.
    pub dy_start: i64,
    /// Horizontal direction of the pattern.
    pub dx_pict: i64,
    /// Vertical direction of the pattern.
    pub dy_pict: i64,
    /// Horizontal direction of the line that bounds the end.
    pub dx_end: i64,
    /// Vertical direction of the line that bounds the end.
    pub dy_end: i64,
    /// Distance from the line.
    pub dist: i64,
    /// Distance from the line that bounds the start.
    pub dist_start: i64,
    /// Distance along the pattern.
    pub dist_pict: i64,
    /// Distance from the line that bounds the end.
    pub dist_end: i64,
    /// Length of the pattern.
    pub len: i64,
}

impl DistanceInterpolator00 {
    /// Creates an interpolator for the pixel at `(x, y)` and the lines from the
    /// centre `(xc, yc)` to `(x1, y1)` and to `(x2, y2)`.
    pub fn new(xc: i64, yc: i64, x1: i64, y1: i64, x2: i64, y2: i64, x: i64, y: i64) -> (r: Self)
        requires
            coord_ok(xc as int),
            coord_ok(yc as int),
            coord_ok(x1 as int),
            coord_ok(y1 as int),
            coord_ok(x2 as int),
            coord_ok(y2 as int),
            coord_ok(x as int),
            coord_ok(y as int),
        ensures
            r.dx1 == 16 * (line_mr_spec(x1 as int) - line_mr_spec(xc as int)),
            r.dy1 == 16 * (line_mr_spec(y1 as int) - line_mr_spec(yc as int)),
            r.dx2 == 16 * (line_mr_spec(x2 as int) - line_mr_spec(xc as int)),
            r.dy2 == 16 * (line_mr_spec(y2 as int) - line_mr_spec(yc as int)),
            r.dist1 == mr_dist(
                x as int,
                y as int,
                x1 as int,
                y1 as int,
                line_mr_spec(x1 as int) - line_mr_spec(xc as int),
                line_mr_spec(y1 as int) - line_mr_spec(yc as int),
            ),
            r.dist2 == mr_dist(
                x as int,
                y as int,
                x2 as int,
                y2 as int,
                line_mr_spec(x2 as int) - line_mr_spec(xc as int),
                line_mr_spec(y2 as int) - line_mr_spec(yc as int),
            ),
    {
        let dx1 = line_mr(x1) - line_mr(xc);
        let dy1 = line_mr(y1) - line_mr(yc);
        let dx2 = line_mr(x2) - line_mr(xc);
        let dy2 = line_mr(y2) - line_mr(yc);
        let dist1 = mr_distance(x, y, x1, y1, dx1, dy1);
        let dist2 = mr_distance(x, y, x2, y2, dx2, dy2);
        let dx1 = mr_to_subpixel(dx1);
        let dy1 = mr_to_subpixel(dy1);
        let dx2 = mr_to_subpixel(dx2);
        let dy2 = mr_to_subpixel(dy2);
        Self { dx1, dy1, dx2, dy2, dist1, dist2 }
    }

    /// Moves one pixel to the right.
    pub fn inc_x(&mut self)
        requires
            fits(old(self).dist1 + old(self).dy1),
            fits(old(self).dist2 + old(self).dy2),
        ensures
            *final(self) == (DistanceInterpolator00 {
                dist1: (old(self).dist1 + old(self).dy1) as i64,
                dist2: (old(self).dist2 + old(self).dy2) as i64,
                ..*old(self)
            }),
    {
        self.dist1 += self.dy1;
        self.dist2 += self.dy2;
    }
}

impl DistanceInterpolator0 {
    /// Creates an interpolator for the pixel at `(x, y)` and the line from
    /// `(x1, y1)` to `(x2, y2)`.
    pub fn new(x1: i64, y1: i64, x2: i64, y2: i64, x: i64, y: i64) -> (r: Self)
        requires
            coord_ok(x1 as int),
            coord_ok(y1 as int),
            coord_ok(x2 as int),
            coord_ok(y2 as int),
            coord_ok(x as int),
            coord_ok(y as int),
        ensures
            r.dx == 16 * (line_mr_spec(x2 as int) - line_mr_spec(x1 as int)),
            r.dy == 16 * (line_mr_spec(y2 as int) - line_mr_spec(y1 as int)),
            r.dist == mr_dist(
                x as int,
                y as int,
                x2 as int,
                y2 as int,
                line_mr_spec(x2 as int) - line_mr_spec(x1 as int),
                line_mr_spec(y2 as int) - line_mr_spec(y1 as int),
            ),
    {
        let dx = line_mr(x2) - line_mr(x1);
        let dy = line_mr(y2) - line_mr(y1);
        let dist = mr_distance(x, y, x2, y2, dx, dy);
        let dx = mr_to_subpixel(dx);
        let dy = mr_to_subpixel(dy);
        Self { dx, dy, dist }
    }

    /// Moves one pixel to the right.
    pub fn inc_x(&mut self)
        requires
            fits(old(self).dist + old(self).dy),
        ensures
            *final(self) == (DistanceInterpolator0 {
                dist: (old(self).dist + old(self).dy) as i64,
                ..*old(self)
            }),
    {
        self.dist += self.dy;
    }
}

impl DistanceInterpolator1 {
    /// Creates an interpolator for the pixel at `(x, y)` and the line from
    /// `(x1, y1)` to `(x2, y2)`.
    pub fn new(x1: i64, y1: i64, x2: i64, y2: i64, x: i64, y: i64) -> (r: Self)
        requires
            coord_ok(x1 as int),
            coord_ok(y1 as int),
            coord_ok(x2 as int),
            coord_ok(y2 as int),
            coord_ok(x as int),
            coord_ok(y as int),
        ensures
            r == Self::new_spec(x1, y1, x2, y2, x, y),
    {
        let dx = x2 - x1;
        let dy = y2 - y1;
        let dist = full_distance(x, y, x2, y2, dx, dy);
        let dx = to_subpixel(dx);
        let dy = to_subpixel(dy);
        Self { dist, dx, dy }
    }

    /// The interpolator for the pixel at `(x, y)` and the line from `(x1, y1)` to
    /// `(x2, y2)`.
    pub open spec fn new_spec(x1: i64, y1: i64, x2: i64, y2: i64, x: i64, y: i64) -> Self {
        DistanceInterpolator1 {
            dx: (256 * (x2 - x1)) as i64,
            dy: (256 * (y2 - y1)) as i64,
            dist: full_dist(x as int, y as int, x2 as int, y2 as int, x2 - x1, y2 - y1) as i64,
        }
    }

    /// Returns the horizontal direction of the line.
    pub fn dx(&self) -> (r: i64)
        ensures
            r == self.dx,
    {
        self.dx
    }

    /// Returns the vertical direction of the line.
    pub fn dy(&self) -> (r: i64)
        ensures
            r == self.dy,
    {
        self.dy
    }

    /// Whether the pixel can move by `mx` columns and `my` rows without any
    /// distance leaving `i64`.
    pub open spec fn can_move_by(self, mx: int, my: int) -> bool {
        &&& can_move(self.dist as int, self.dx as int, self.dy as int, mx, my)
    }

    /// The interpolator after the pixel has moved by `mx` columns and `my` rows:
    /// each distance grows by `mx` times its `dy` less `my` times its `dx`.
    pub open spec fn moved_by(self, mx: int, my: int) -> Self {
        DistanceInterpolator1 {
            dist: moved(self.dist as int, self.dx as int, self.dy as int, mx, my) as i64,
            ..self
        }
    }

    /// Moves one pixel to the right, and one row in the direction of `dy`.
    pub fn inc_x_by(&mut self, dy: i64)
        requires
            old(self).can_move_by(1, sign(dy as int)),
        ensures
            *final(self) == old(self).moved_by(1, sign(dy as int)),
    {
        self.dist += self.dy;
        if dy > 0 {
            self.dist -= self.dx;
        } else if dy < 0 {
            self.dist += self.dx;
        }
    }

    /// Moves one pixel to the left, and one row in the direction of `dy`.
    pub fn dec_x_by(&mut self, dy: i64)
        requires
            old(self).can_move_by(-1, sign(dy as int)),
        ensures
            *final(self) == old(self).moved_by(-1, sign(dy as int)),
    {
        self.dist -= self.dy;
        if dy > 0 {
            self.dist -= self.dx;
        } else if dy < 0 {
            self.dist += self.dx;
        }
    }

    /// Moves one pixel down, and one column in the direction of `dx`.
    pub fn inc_y_by(&mut self, dx: i64)
        requires
            old(self).can_move_by(sign(dx as int), 1),
        ensures
            *final(self) == old(self).moved_by(sign(dx as int), 1),
    {
        self.dist -= self.dx;
        if dx > 0 {
            self.dist += self.dy;
        } else if dx < 0 {
            self.dist -= self.dy;
        }
    }

    /// Moves one pixel up, and one column in the direction of `dx`.
    pub fn dec_y_by(&mut self, dx: i64)
        requires
            old(self).can_move_by(sign(dx as int), -1),
        ensures
            *final(self) == old(self).moved_by(sign(dx as int), -1),
    {
        self.dist += self.dx;
        if dx > 0 {
            self.dist += self.dy;
        } else if dx < 0 {
            self.dist -= self.dy;
        }
    }
}

impl DistanceInterpolator for DistanceInterpolator1 {
    open spec fn dist_spec(&self) -> int {
        self.dist as int
    }

    open spec fn can_step(&self, mx: int, my: int) -> bool {
        self.can_move_by(mx, my)
    }

    open spec fn moved(&self, mx: int, my: int) -> Self {
        self.moved_by(mx, my)
    }

    fn dist(&self) -> (r: i64) {
        self.dist
    }

    fn inc_x(&mut self, dy: i64) {
        self.inc_x_by(dy)
    }

    fn dec_x(&mut self, dy: i64) {
        self.dec_x_by(dy)
    }

    fn inc_y(&mut self, dx: i64) {
        self.inc_y_by(dx)
    }

    fn dec_y(&mut self, dx: i64) {
        self.dec_y_by(dx)
    }
}

impl DistanceInterpolator2 {
    /// The interpolator for the pixel at `(x, y)` and the line from `(x1, y1)` to
    /// `(x2, y2)`, with the bounding line through `(sx, sy)`.
    pub open spec fn new_spec(
        x1: i64,
        y1: i64,
        x2: i64,
        y2: i64,
        sx: i64,
        sy: i64,
        x: i64,
        y: i64,
        start: bool,
    ) -> Self {
        let dxs = line_mr_spec(sx as int) - line_mr_spec(
            if start {
                x1 as int
            } else {
                x2 as int
            },
        );
        let dys = line_mr_spec(sy as int) - line_mr_spec(
            if start {
                y1 as int
            } else {
                y2 as int
            },
        );
        DistanceInterpolator2 {
            dx: (256 * (x2 - x1)) as i64,
            dy: (256 * (y2 - y1)) as i64,
            dx_start: (16 * dxs) as i64,
            dy_start: (16 * dys) as i64,
            dist: full_dist(x as int, y as int, x2 as int, y2 as int, x2 - x1, y2 - y1) as i64,
            dist_start: mr_dist(x as int, y as int, sx as int, sy as int, dxs, dys) as i64,
        }
    }

    /// Creates an interpolator for the pixel at `(x, y)` and the line from
    /// `(x1, y1)` to `(x2, y2)`. The bounding line runs from the start of the line
    /// to `(sx, sy)` if `start` holds, and from its end if not.
    pub fn new(
        x1: i64,
        y1: i64,
        x2: i64,
        y2: i64,
        sx: i64,
        sy: i64,
        x: i64,
        y: i64,
        start: bool,
    ) -> (r: Self)
        requires
            coord_ok(x1 as int),
            coord_ok(y1 as int),
            coord_ok(x2 as int),
            coord_ok(y2 as int),
            coord_ok(sx as int),
            coord_ok(sy as int),
            coord_ok(x as int),
            coord_ok(y as int),
        ensures
            r == Self::new_spec(x1, y1, x2, y2, sx, sy, x, y, start),
    {
        let dx = x2 - x1;
        let dy = y2 - y1;
        let (dx_start, dy_start) = if start {
            (line_mr(sx) - line_mr(x1), line_mr(sy) - line_mr(y1))
        } else {
            (line_mr(sx) - line_mr(x2), line_mr(sy) - line_mr(y2))
        };
        let dist = full_distance(x, y, x2, y2, dx, dy);
        let dist_start = mr_distance(x, y, sx, sy, dx_start, dy_start);
        let dx = to_subpixel(dx);
        let dy = to_subpixel(dy);
        let dx_start = mr_to_subpixel(dx_start);
        let dy_start = mr_to_subpixel(dy_start);
        Self { dx, dy, dx_start, dy_start, dist, dist_start }
    }

    /// Whether the pixel can move by `mx` columns and `my` rows without any
    /// distance leaving `i64`.
    pub open spec fn can_move_by(self, mx: int, my: int) -> bool {
        &&& can_move(self.dist as int, self.dx as int, self.dy as int, mx, my)
        &&& can_move(self.dist_start as int, self.dx_start as int, self.dy_start as int, mx, my)
    }

    /// The interpolator after the pixel has moved by `mx` columns and `my` rows:
    /// each distance grows by `mx` times its `dy` less `my` times its `dx`.
    pub open spec fn moved_by(self, mx: int, my: int) -> Self {
        DistanceInterpolator2 {
            dist: moved(self.dist as int, self.dx as int, self.dy as int, mx, my) as i64,
            dist_start: moved(
                self.dist_start as int,
                self.dx_start as int,
                self.dy_start as int,
                mx,
                my,
            ) as i64,
            ..self
        }
    }

    /// Moves one pixel to the right, and one row in the direction of `dy`.
    pub fn inc_x_by(&mut self, dy: i64)
        requires
            old(self).can_move_by(1, sign(dy as int)),
        ensures
            *final(self) == old(self).moved_by(1, sign(dy as int)),
    {
        self.dist += self.dy;
        self.dist_start += self.dy_start;
        if dy > 0 {
            self.dist -= self.dx;
            self.dist_start -= self.dx_start;
        } else if dy < 0 {
            self.dist += self.dx;
            self.dist_start += self.dx_start;
        }
    }

    /// Moves one pixel to the left, and one row in the direction of `dy`.
    pub fn dec_x_by(&mut self, dy: i64)
        requires
            old(self).can_move_by(-1, sign(dy as int)),
        ensures
            *final(self) == old(self).moved_by(-1, sign(dy as int)),
    {
        self.dist -= self.dy;
        self.dist_start -= self.dy_start;
        if dy > 0 {
            self.dist -= self.dx;
            self.dist_start -= self.dx_start;
        } else if dy < 0 {
            self.dist += self.dx;
            self.dist_start += self.dx_start;
        }
    }

    /// Moves one pixel down, and one column in the direction of `dx`.
    pub fn inc_y_by(&mut self, dx: i64)
        requires
            old(self).can_move_by(sign(dx as int), 1),
        ensures
            *final(self) == old(self).moved_by(sign(dx as int), 1),
    {
        self.dist -= self.dx;
        self.dist_start -= self.dx_start;
        if dx > 0 {
            self.dist += self.dy;
            self.dist_start += self.dy_start;
        } else if dx < 0 {
            self.dist -= self.dy;
            self.dist_start -= self.dy_start;
        }
    }

    /// Moves one pixel up, and one column in the direction of `dx`.
    pub fn dec_y_by(&mut self, dx: i64)
        requires
            old(self).can_move_by(sign(dx as int), -1),
        ensures
            *final(self) == old(self).moved_by(sign(dx as int), -1),
    {
        self.dist += self.dx;
        self.dist_start += self.dx_start;
        if dx > 0 {
            self.dist += self.dy;
            self.dist_start += self.dy_start;
        } else if dx < 0 {
            self.dist -= self.dy;
            self.dist_start -= self.dy_start;
        }
    }
}

impl DistanceInterpolator for DistanceInterpolator2 {
    open spec fn dist_spec(&self) -> int {
        self.dist as int
    }

    open spec fn can_step(&self, mx: int, my: int) -> bool {
        self.can_move_by(mx, my)
    }

    open spec fn moved(&self, mx: int, my: int) -> Self {
        self.moved_by(mx, my)
    }

    fn dist(&self) -> (r: i64) {
        self.dist
    }

    fn inc_x(&mut self, dy: i64) {
        self.inc_x_by(dy)
    }

    fn dec_x(&mut self, dy: i64) {
        self.dec_x_by(dy)
    }

    fn inc_y(&mut self, dx: i64) {
        self.inc_y_by(dx)
    }

    fn dec_y(&mut self, dx: i64) {
        self.dec_y_by(dx)
    }
}

impl DistanceInterpolator3 {
    /// The interpolator for the pixel at `(x, y)` and the line from `(x1, y1)` to
    /// `(x2, y2)`, bounded by the lines through `(sx, sy)` and `(ex, ey)`.
    pub open spec fn new_spec(
        x1: i64,
        y1: i64,
        x2: i64,
        y2: i64,
        sx: i64,
        sy: i64,
        ex: i64,
        ey: i64,
        x: i64,
        y: i64,
    ) -> Self {
        let dxs = line_mr_spec(sx as int) - line_mr_spec(x1 as int);
        let dys = line_mr_spec(sy as int) - line_mr_spec(y1 as int);
        let dxe = line_mr_spec(ex as int) - line_mr_spec(x2 as int);
        let dye = line_mr_spec(ey as int) - line_mr_spec(y2 as int);
        DistanceInterpolator3 {
            dx: (256 * (x2 - x1)) as i64,
            dy: (256 * (y2 - y1)) as i64,
            dx_start: (16 * dxs) as i64,
            dy_start: (16 * dys) as i64,
            dx_end: (16 * dxe) as i64,
            dy_end: (16 * dye) as i64,
            dist: full_dist(x as int, y as int, x2 as int, y2 as int, x2 - x1, y2 - y1) as i64,
            dist_start: mr_dist(x as int, y as int, sx as int, sy as int, dxs, dys) as i64,
            dist_end: mr_dist(x as int, y as int, ex as int, ey as int, dxe, dye) as i64,
        }
    }

    /// Creates an interpolator for the pixel at `(x, y)` and the line from
    /// `(x1, y1)` to `(x2, y2)`, bounded at its start by the line to `(sx, sy)`
    /// and at its end by the line to `(ex, ey)`.
    pub fn new(
        x1: i64,
        y1: i64,
        x2: i64,
        y2: i64,
        sx: i64,
        sy: i64,
        ex: i64,
        ey: i64,
        x: i64,
        y: i64,
    ) -> (r: Self)
        requires
            coord_ok(x1 as int),
            coord_ok(y1 as int),
            coord_ok(x2 as int),
            coord_ok(y2 as int),
            coord_ok(sx as int),
            coord_ok(sy as int),
            coord_ok(ex as int),
            coord_ok(ey as int),
            coord_ok(x as int),
            coord_ok(y as int),
        ensures
            r == Self::new_spec(x1, y1, x2, y2, sx, sy, ex, ey, x, y),
    {
        let dx = x2 - x1;
        let dy = y2 - y1;
        let dx_start = line_mr(sx) - line_mr(x1);
        let dy_start = line_mr(sy) - line_mr(y1);
        let dx_end = line_mr(ex) - line_mr(x2);
        let dy_end = line_mr(ey) - line_mr(y2);
        let dist = full_distance(x, y, x2, y2, dx, dy);
        let dist_start = mr_distance(x, y, sx, sy, dx_start, dy_start);
        let dist_end = mr_distance(x, y, ex, ey, dx_end, dy_end);
        let dx = to_subpixel(dx);
        let dy = to_subpixel(dy);
        let dx_start = mr_to_subpixel(dx_start);
        let dy_start = mr_to_subpixel(dy_start);
        let dx_end = mr_to_subpixel(dx_end);
        let dy_end = mr_to_subpixel(dy_end);
        Self { dx, dy, dx_start, dy_start, dx_end, dy_end, dist_start, dist_end, dist }
    }

    /// Whether the pixel can move by `mx` columns and `my` rows without any
    /// distance leaving `i64`.
    pub open spec fn can_move_by(self, mx: int, my: int) -> bool {
        &&& can_move(self.dist as int, self.dx as int, self.dy as int, mx, my)
        &&& can_move(self.dist_start as int, self.dx_start as int, self.dy_start as int, mx, my)
        &&& can_move(self.dist_end as int, self.dx_end as int, self.dy_end as int, mx, my)
    }

    /// The interpolator after the pixel has moved by `mx` columns and `my` rows:
    /// each distance grows by `mx` times its `dy` less `my` times its `dx`.
    pub open spec fn moved_by(self, mx: int, my: int) -> Self {
        DistanceInterpolator3 {
            dist: moved(self.dist as int, self.dx as int, self.dy as int, mx, my) as i64,
            dist_start: moved(
                self.dist_start as int,
                self.dx_start as int,
                self.dy_start as int,
                mx,
                my,
            ) as i64,
            dist_end: moved(self.dist_end as int, self.dx_end as int, self.dy_end as int, mx, my) as i64,
            ..self
        }
    }

    /// Moves one pixel to the right, and one row in the direction of `dy`.
    pub fn inc_x_by(&mut self, dy: i64)
        requires
            old(self).can_move_by(1, sign(dy as int)),
        ensures
            *final(self) == old(self).moved_by(1, sign(dy as int)),
    {
        self.dist += self.dy;
        self.dist_start += self.dy_start;
        self.dist_end += self.dy_end;
        if dy > 0 {
            self.dist -= self.dx;
            self.dist_start -= self.dx_start;
            self.dist_end -= self.dx_end;
        } else if dy < 0 {
            self.dist += self.dx;
            self.dist_start += self.dx_start;
            self.dist_end += self.dx_end;
        }
    }

    /// Moves one pixel to the left, and one row in the direction of `dy`.
    pub fn dec_x_by(&mut self, dy: i64)
        requires
            old(self).can_move_by(-1, sign(dy as int)),
        ensures
            *final(self) == old(self).moved_by(-1, sign(dy as int)),
    {
        self.dist -= self.dy;
        self.dist_start -= self.dy_start;
        self.dist_end -= self.dy_end;
        if dy > 0 {
            self.dist -= self.dx;
            self.dist_start -= self.dx_start;
            self.dist_end -= self.dx_end;
        } else if dy < 0 {
            self.dist += self.dx;
            self.dist_start += self.dx_start;
            self.dist_end += self.dx_end;
        }
    }

    /// Moves one pixel down, and one column in the direction of `dx`.
    pub fn inc_y_by(&mut self, dx: i64)
        requires
            old(self).can_move_by(sign(dx as int), 1),
        ensures
            *final(self) == old(self).moved_by(sign(dx as int), 1),
    {
        self.dist -= self.dx;
        self.dist_start -= self.dx_start;
        self.dist_end -= self.dx_end;
        if dx > 0 {
            self.dist += self.dy;
            self.dist_start += self.dy_start;
            self.dist_end += self.dy_end;
        } else if dx < 0 {
            self.dist -= self.dy;
            self.dist_start -= self.dy_start;
            self.dist_end -= self.dy_end;
        }
    }

    /// Moves one pixel up, and one column in the direction of `dx`.
    pub fn dec_y_by(&mut self, dx: i64)
        requires
            old(self).can_move_by(sign(dx as int), -1),
        ensures
            *final(self) == old(self).moved_by(sign(dx as int), -1),
    {
        self.dist += self.dx;
        self.dist_start += self.dx_start;
        self.dist_end += self.dx_end;
        if dx > 0 {
            self.dist += self.dy;
            self.dist_start += self.dy_start;
            self.dist_end += self.dy_end;
        } else if dx < 0 {
            self.dist -= self.dy;
            self.dist_start -= self.dy_start;
            self.dist_end -= self.dy_end;
        }
    }
}

impl DistanceInterpolator for DistanceInterpolator3 {
    open spec fn dist_spec(&self) -> int {
        self.dist as int
    }

    open spec fn can_step(&self, mx: int, my: int) -> bool {
        self.can_move_by(mx, my)
    }

    open spec fn moved(&self, mx: int, my: int) -> Self {
        self.moved_by(mx, my)
    }

    fn dist(&self) -> (r: i64) {
        self.dist
    }

    fn inc_x(&mut self, dy: i64) {
        self.inc_x_by(dy)
    }

    fn dec_x(&mut self, dy: i64) {
        self.dec_x_by(dy)
    }

    fn inc_y(&mut self, dx: i64) {
        self.inc_y_by(dx)
    }

    fn dec_y(&mut self, dx: i64) {
        self.dec_y_by(dx)
    }
}

impl DistanceInterpolator4 {
    /// The interpolator for the pixel at `(x, y)` and the line from `(x1, y1)` to
    /// `(x2, y2)`, bounded by the lines through `(sx, sy)` and `(ex, ey)`, with a
    /// pattern of the length `len` laid along the line in the direction
    /// `(tdx, tdy)`.
    pub open spec fn new_spec(
        x1: i64,
        y1: i64,
        x2: i64,
        y2: i64,
        sx: i64,
        sy: i64,
        ex: i64,
        ey: i64,
        len: i64,
        tdx: i64,
        tdy: i64,
        x: i64,
        y: i64,
    ) -> Self {
        let dxs = line_mr_spec(sx as int) - line_mr_spec(x1 as int);
        let dys = line_mr_spec(sy as int) - line_mr_spec(y1 as int);
        let dxe = line_mr_spec(ex as int) - line_mr_spec(x2 as int);
        let dye = line_mr_spec(ey as int) - line_mr_spec(y2 as int);
        DistanceInterpolator4 {
            dx: (256 * (x2 - x1)) as i64,
            dy: (256 * (y2 - y1)) as i64,
            dx_start: (16 * dxs) as i64,
            dy_start: (16 * dys) as i64,
            dx_pict: (-tdy) as i64,
            dy_pict: tdx,
            dx_end: (16 * dxe) as i64,
            dy_end: (16 * dye) as i64,
            dist: full_dist(x as int, y as int, x2 as int, y2 as int, x2 - x1, y2 - y1) as i64,
            dist_start: mr_dist(x as int, y as int, sx as int, sy as int, dxs, dys) as i64,
            dist_pict: (((x + 128 - (x1 - tdy)) * tdx + (y + 128 - (y1 + tdx)) * tdy) / 256) as i64,
            dist_end: mr_dist(x as int, y as int, ex as int, ey as int, dxe, dye) as i64,
            len,
        }
    }

    /// Creates an interpolator for the pixel at `(x, y)` and the line from
    /// `(x1, y1)` to `(x2, y2)`, bounded at its start by the line to `(sx, sy)`
    /// and at its end by the line to `(ex, ey)`, with a pattern of the length
    /// `len` laid along the line in the direction `(tdx, tdy)`.
    pub fn new(
        x1: i64,
        y1: i64,
        x2: i64,
        y2: i64,
        sx: i64,
        sy: i64,
        ex: i64,
        ey: i64,
        len: i64,
        tdx: i64,
        tdy: i64,
        x: i64,
        y: i64,
    ) -> (r: Self)
        requires
            coord_ok(x1 as int),
            coord_ok(y1 as int),
            coord_ok(x2 as int),
            coord_ok(y2 as int),
            coord_ok(sx as int),
            coord_ok(sy as int),
            coord_ok(ex as int),
            coord_ok(ey as int),
            coord_ok(tdx as int),
            coord_ok(tdy as int),
            coord_ok(x as int),
            coord_ok(y as int),
        ensures
            r == Self::new_spec(x1, y1, x2, y2, sx, sy, ex, ey, len, tdx, tdy, x, y),
    {
        let dx = x2 - x1;
        let dy = y2 - y1;
        let dx_start = line_mr(sx) - line_mr(x1);
        let dy_start = line_mr(sy) - line_mr(y1);
        let dx_end = line_mr(ex) - line_mr(x2);
        let dy_end = line_mr(ey) - line_mr(y2);
        let dist = full_distance(x, y, x2, y2, dx, dy);
        let dist_start = mr_distance(x, y, sx, sy, dx_start, dy_start);
        let dist_end = mr_distance(x, y, ex, ey, dx_end, dy_end);
        let dx_pict = -tdy;
        let dy_pict = tdx;
        let a: i128 = (x + POLY_SUBPIXEL_SCALE / 2 - (x1 - tdy)) as i128;
        let b: i128 = (y + POLY_SUBPIXEL_SCALE / 2 - (y1 + tdx)) as i128;
        proof {
            crate::cell::lemma_mul_bounded(a as int, dy_pict as int, 0x2_0000_0000, 0x1_0000_0000);
            crate::cell::lemma_mul_bounded(b as int, dx_pict as int, 0x2_0000_0000, 0x1_0000_0000);
            assert(b * dx_pict == -(b * tdy)) by (nonlinear_arith)
                requires
                    dx_pict == -tdy,
            ;
        }
        let d: i128 = a * (dy_pict as i128) - b * (dx_pict as i128);
        assert(d >> 8 == d / 256) by (bit_vector);
        let dist_pict = (d >> 8) as i64;
        let dx = to_subpixel(dx);
        let dy = to_subpixel(dy);
        let dx_start = mr_to_subpixel(dx_start);
        let dy_start = mr_to_subpixel(dy_start);
        let dx_end = mr_to_subpixel(dx_end);
        let dy_end = mr_to_subpixel(dy_end);
        Self {
            dx,
            dy,
            dx_start,
            dx_end,
            dy_start,
            dy_end,
            dx_pict,
            dy_pict,
            dist,
            dist_pict,
            dist_start,
            dist_end,
            len,
        }
    }


    /// Whether the pixel can move by `mx` columns and `my` rows without any
    /// distance leaving `i64`.
    pub open spec fn can_move_by(self, mx: int, my: int) -> bool {
        &&& can_move(self.dist as int, self.dx as int, self.dy as int, mx, my)
        &&& can_move(self.dist_start as int, self.dx_start as int, self.dy_start as int, mx, my)
        &&& can_move(self.dist_pict as int, self.dx_pict as int, self.dy_pict as int, mx, my)
        &&& can_move(self.dist_end as int, self.dx_end as int, self.dy_end as int, mx, my)
    }

    /// The interpolator after the pixel has moved by `mx` columns and `my` rows:
    /// each distance grows by `mx` times its `dy` less `my` times its `dx`.
    pub open spec fn moved_by(self, mx: int, my: int) -> Self {
        DistanceInterpolator4 {
            dist: moved(self.dist as int, self.dx as int, self.dy as int, mx, my) as i64,
            dist_start: moved(
                self.dist_start as int,
                self.dx_start as int,
                self.dy_start as int,
                mx,
                my,
            ) as i64,
            dist_pict: moved(self.dist_pict as int, self.dx_pict as int, self.dy_pict as int, mx, my) as i64,
            dist_end: moved(self.dist_end as int, self.dx_end as int, self.dy_end as int, mx, my) as i64,
            ..self
        }
    }

    /// Moves one pixel to the right, and one row in the direction of `dy`.
    pub fn inc_x_by(&mut self, dy: i64)
        requires
            old(self).can_move_by(1, sign(dy as int)),
        ensures
            *final(self) == old(self).moved_by(1, sign(dy as int)),
    {
        self.dist += self.dy;
        self.dist_start += self.dy_start;
        self.dist_pict += self.dy_pict;
        self.dist_end += self.dy_end;
        if dy > 0 {
            self.dist -= self.dx;
            self.dist_start -= self.dx_start;
            self.dist_pict -= self.dx_pict;
            self.dist_end -= self.dx_end;
        } else if dy < 0 {
            self.dist += self.dx;
            self.dist_start += self.dx_start;
            self.dist_pict += self.dx_pict;
            self.dist_end += self.dx_end;
        }
    }

    /// Moves one pixel to the left, and one row in the direction of `dy`.
    pub fn dec_x_by(&mut self, dy: i64)
        requires
            old(self).can_move_by(-1, sign(dy as int)),
        ensures
            *final(self) == old(self).moved_by(-1, sign(dy as int)),
    {
        self.dist -= self.dy;
        self.dist_start -= self.dy_start;
        self.dist_pict -= self.dy_pict;
        self.dist_end -= self.dy_end;
        if dy > 0 {
            self.dist -= self.dx;
            self.dist_start -= self.dx_start;
            self.dist_pict -= self.dx_pict;
            self.dist_end -= self.dx_end;
        } else if dy < 0 {
            self.dist += self.dx;
            self.dist_start += self.dx_start;
            self.dist_pict += self.dx_pict;
            self.dist_end += self.dx_end;
        }
    }

    /// Moves one pixel down, and one column in the direction of `dx`.
    pub fn inc_y_by(&mut self, dx: i64)
        requires
            old(self).can_move_by(sign(dx as int), 1),
        ensures
            *final(self) == old(self).moved_by(sign(dx as int), 1),
    {
        self.dist -= self.dx;
        self.dist_start -= self.dx_start;
        self.dist_pict -= self.dx_pict;
        self.dist_end -= self.dx_end;
        if dx > 0 {
            self.dist += self.dy;
            self.dist_start += self.dy_start;
            self.dist_pict += self.dy_pict;
            self.dist_end += self.dy_end;
        } else if dx < 0 {
            self.dist -= self.dy;
            self.dist_start -= self.dy_start;
            self.dist_pict -= self.dy_pict;
            self.dist_end -= self.dy_end;
        }
    }

    /// Moves one pixel up, and one column in the direction of `dx`.
    pub fn dec_y_by(&mut self, dx: i64)
        requires
            old(self).can_move_by(sign(dx as int), -1),
        ensures
            *final(self) == old(self).moved_by(sign(dx as int), -1),
    {
        self.dist += self.dx;
        self.dist_start += self.dx_start;
        self.dist_pict += self.dx_pict;
        self.dist_end += self.dx_end;
        if dx > 0 {
            self.dist += self.dy;
            self.dist_start += self.dy_start;
            self.dist_pict += self.dy_pict;
            self.dist_end += self.dy_end;
        } else if dx < 0 {
            self.dist -= self.dy;
            self.dist_start -= self.dy_start;
            self.dist_pict -= self.dy_pict;
            self.dist_end -= self.dy_end;
        }
    }
}

impl DistanceInterpolator for DistanceInterpolator4 {
    open spec fn dist_spec(&self) -> int {
        self.dist as int
    }

    open spec fn can_step(&self, mx: int, my: int) -> bool {
        self.can_move_by(mx, my)
    }

    open spec fn moved(&self, mx: int, my: int) -> Self {
        self.moved_by(mx, my)
    }

    fn dist(&self) -> (r: i64) {
        self.dist
    }

    fn inc_x(&mut self, dy: i64) {
        self.inc_x_by(dy)
    }

    fn dec_x(&mut self, dy: i64) {
        self.dec_x_by(dy)
    }

    fn inc_y(&mut self, dx: i64) {
        self.inc_y_by(dx)
    }

    fn dec_y(&mut self, dx: i64) {
        self.dec_y_by(dx)
    }
}

} // verus!
