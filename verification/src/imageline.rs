//! Lines drawn with an image as their pattern: the steps along the line, and
//! the colors that each step reads from the pattern across the line.

use crate::base::RenderingBase;
use crate::color::{Color, Rgba8};
use crate::cell::abs;
use crate::dist::{fits, sign, DistanceInterpolator4};
use crate::gradient::li_start;
use crate::line::{
    div_trunc, li_after, stopped_before, trunc_div, LineInterpolator, LineParameters,
};
use crate::pattern::LineImagePatternPow2;
use crate::pixel::{changed, color_put, Pixel};
use crate::util::{pixel_floor, pixel_of, to_subpixel};
use vstd::prelude::*;

verus! {

/// The number of distances that an interpolator keeps across a line.
pub const DIST_LEN: usize = 65;

/// The number of colors that an interpolator keeps across a line.
pub const COLORS_LEN: usize = 132;

/// The place of the centre of a line among the colors across it.
pub const MIDDLE: usize = 66;

/// The value `v` after `j` steps of `step`.
pub open spec fn lin(v: int, step: int, j: int) -> int
    decreases j,
{
    if j <= 0 {
        v
    } else {
        lin(v, step, j - 1) + step
    }
}

/// What a step needs to read the colors across a line at one pixel of it.
#[derive(Clone, Copy, Debug)]
pub struct Across {
    /// The distance of the pixel from the line that bounds the start.
    pub ds: i64,
    /// The distance of the pixel along the pattern.
    pub dp: i64,
    /// The distance of the pixel from the line that bounds the end.
    pub de: i64,
    /// What one pixel across the line adds to `ds`.
    pub ss: i64,
    /// What one pixel across the line adds to `dp`.
    pub sp: i64,
    /// What one pixel across the line adds to `de`.
    pub se: i64,
    /// How far the pixel lies off the line, seen in the direction of travel.
    pub s1: i64,
    /// How far the pixel lies off the line.
    pub s2: i64,
    /// Half the width of the line.
    pub width: i64,
    /// Whether the distances across the line count downwards.
    pub negate: bool,
    /// Whether the pixels on the first side lie at larger rows of the pattern.
    pub plus: bool,
}

impl Across {
    /// The three distances `j` pixels from the centre: to the first side for a
    /// positive `j`, to the other side for a negative one.
    pub open spec fn at(self, j: int) -> (int, int, int) {
        if j >= 0 {
            (
                lin(self.ds as int, self.ss as int, j),
                lin(self.dp as int, self.sp as int, j),
                lin(self.de as int, self.se as int, j),
            )
        } else {
            (
                lin(self.ds as int, -self.ss, -j),
                lin(self.dp as int, -self.sp, -j),
                lin(self.de as int, -self.se, -j),
            )
        }
    }

    /// Whether the pixel `j` places from the centre lies between the lines that
    /// bound the start and the end, so that it takes a color from the pattern.
    pub open spec fn taken(self, j: int) -> bool {
        self.at(j).2 > 0 && self.at(j).0 <= 0
    }

    /// The row of the pattern that the pixel `j` places from the centre reads.
    pub open spec fn row(self, dist: Seq<i64>, j: int) -> int {
        if j == 0 {
            self.s2 as int
        } else {
            let d = if j > 0 {
                dist[j] as int
            } else {
                dist[-j] as int
            };
            let d2 = if self.negate {
                -d
            } else {
                d
            };
            if (j > 0) == self.plus {
                self.s2 + d2
            } else {
                self.s2 - d2
            }
        }
    }

    /// The color of the pixel `j` places from the centre: that of the pattern
    /// where the pixel is taken, and none elsewhere.
    pub open spec fn color(self, pat: &LineImagePatternPow2, dist: Seq<i64>, j: int) -> Rgba8 {
        if self.taken(j) {
            pat.color_at(self.at(j).1 as i64, self.row(dist, j) as i64)
        } else {
            Rgba8 { r: 0, g: 0, b: 0, a: 0 }
        }
    }

    /// The first place from `k` on whose distance, less `s`, is beyond the width
    /// of the line; the length of the table if there is none.
    pub open spec fn end(self, dist: Seq<i64>, s: int, k: int) -> int
        decreases dist.len() - k,
    {
        if k < 0 || k >= dist.len() || dist[k] - s > self.width {
            k
        } else {
            self.end(dist, s, k + 1)
        }
    }

    /// The number of pixels on the first side of the centre.
    pub open spec fn n_fore(self, dist: Seq<i64>) -> int {
        self.end(dist, self.s1 as int, 1) - 1
    }

    /// The number of pixels on the other side of the centre.
    pub open spec fn n_back(self, dist: Seq<i64>) -> int {
        self.end(dist, -self.s1, 1) - 1
    }

    /// The number of pixels taken among the first `n` on the first side, or on
    /// the other side if `back` holds.
    pub open spec fn count(self, back: bool, n: int) -> int
        decreases n,
    {
        if n <= 0 {
            0
        } else {
            self.count(back, n - 1) + (if self.taken(
                if back {
                    -n
                } else {
                    n
                },
            ) {
                1int
            } else {
                0int
            })
        }
    }

    /// The number of pixels that count as drawn: the centre if it lies before
    /// the end of the line, and every other pixel that is taken.
    pub open spec fn npix(self, dist: Seq<i64>) -> int {
        (if self.de > 0 {
            1int
        } else {
            0int
        }) + self.count(false, self.n_fore(dist)) + self.count(true, self.n_back(dist))
    }

    /// Whether the colors across the line can be read: both runs end inside the
    /// table, no value that is computed on the way leaves `i64`, and every row
    /// that is read lies in the pattern.
    pub open spec fn ok(self, pat: &LineImagePatternPow2, dist: Seq<i64>) -> bool {
        &&& dist.len() == DIST_LEN
        &&& pat.ready()
        &&& self.end(dist, self.s1 as int, 1) < DIST_LEN
        &&& self.end(dist, -self.s1, 1) < DIST_LEN
        &&& fits(-self.s1)
        &&& forall|j: int| 1 <= j <= self.n_fore(dist) + 1 ==> fits(#[trigger] dist[j] - self.s1)
        &&& forall|j: int| 1 <= j <= self.n_back(dist) + 1 ==> fits(#[trigger] dist[j] + self.s1)
        &&& forall|j: int|
            -self.n_back(dist) <= j <= self.n_fore(dist) ==> fits((#[trigger] self.at(j)).0) && fits(
                self.at(j).1,
            ) && fits(self.at(j).2)
        &&& forall|j: int|
            -self.n_back(dist) <= j <= self.n_fore(dist) && #[trigger] self.taken(j) ==> fits(
                -dist[abs(j)],
            ) && fits(self.row(dist, j)) && pat.holds_row(self.row(dist, j) as i64)
    }
}

/// The end of a run lies at or behind the place from which it is looked for.
pub proof fn lemma_end(a: Across, dist: Seq<i64>, s: int, k: int)
    requires
        0 <= k,
    ensures
        a.end(dist, s, k) >= k,
        k < dist.len() && dist[k] - s <= a.width ==> a.end(dist, s, k) == a.end(dist, s, k + 1),
        k < dist.len() && dist[k] - s > a.width ==> a.end(dist, s, k) == k,
    decreases dist.len() - k,
{
    if k < dist.len() && dist[k] - s <= a.width {
        lemma_end(a, dist, s, k + 1);
    }
}

/// Fills the colors across the line: the centre and the pixels on both sides of
/// it as far as the line is wide. Returns the places of the first color and
/// behind the last one, and the number of pixels that count as drawn.
pub fn colors_across(
    a: Across,
    pat: &LineImagePatternPow2,
    dist_pos: &Vec<i64>,
    colors: &mut Vec<Rgba8>,
) -> (r: (usize, usize, i64))
    requires
        a.ok(pat, dist_pos@),
        old(colors)@.len() == COLORS_LEN,
    ensures
        final(colors)@.len() == COLORS_LEN,
        r.0 == MIDDLE - a.n_back(dist_pos@),
        r.1 == MIDDLE + 1 + a.n_fore(dist_pos@),
        0 <= a.n_back(dist_pos@) < DIST_LEN - 1,
        0 <= a.n_fore(dist_pos@) < DIST_LEN - 1,
        r.2 == a.npix(dist_pos@),
        forall|p: int|
            r.0 <= p < r.1 ==> #[trigger] final(colors)@[p] == a.color(pat, dist_pos@, p - MIDDLE),
        forall|p: int|
            0 <= p < COLORS_LEN && !(r.0 <= p < r.1) ==> #[trigger] final(colors)@[p] == old(
                colors,
            )@[p],
{
    let ghost dist = dist_pos@;
    let ghost start = colors@;
    let none = Rgba8::new(0, 0, 0, 0);
    let mut npix: i64 = 0;
    let mut c = none;
    proof {
        assert(a.at(0) == (a.ds as int, a.dp as int, a.de as int));
        lemma_end(a, dist, a.s1 as int, 1);
        lemma_end(a, dist, -a.s1, 1);
    }
    if a.de > 0 {
        if a.ds <= 0 {
            assert(a.taken(0));
            c = pat.pixel(a.dp, a.s2);
        }
        npix += 1;
    }
    colors.set(MIDDLE, c);
    let mut p1: usize = MIDDLE + 1;
    let mut dsv = a.ds;
    let mut dpv = a.dp;
    let mut dev = a.de;
    let mut dx: usize = 1;
    while dist_pos[dx] - a.s1 <= a.width
        invariant
            1 <= dx < DIST_LEN,
            p1 == MIDDLE + dx,
            dist == dist_pos@,
            a.ok(pat, dist),
            colors@.len() == COLORS_LEN,
            (dsv as int, dpv as int, dev as int) == a.at(dx - 1),
            a.end(dist, a.s1 as int, dx as int) == a.end(dist, a.s1 as int, 1),
            0 <= a.n_back(dist),
            0 <= a.n_fore(dist),
            dx <= a.n_fore(dist) + 1,
            npix == (if a.de > 0 {
                1int
            } else {
                0int
            }) + a.count(false, dx - 1),
            0 <= npix <= dx,
            none == (Rgba8 { r: 0, g: 0, b: 0, a: 0 }),
            forall|p: int|
                MIDDLE <= p < p1 ==> #[trigger] colors@[p] == a.color(pat, dist, p - MIDDLE),
            forall|p: int| 0 <= p < COLORS_LEN && !(MIDDLE <= p < p1) ==> #[trigger] colors@[p] == start[p],
        decreases DIST_LEN - dx,
    {
        proof {
            lemma_end(a, dist, a.s1 as int, dx as int);
            lemma_end(a, dist, a.s1 as int, dx + 1);
            assert(a.at(dx as int) == (dsv + a.ss, dpv + a.sp, dev + a.se));
            assert(dx <= a.n_fore(dist));
        }
        dsv += a.ss;
        dpv += a.sp;
        dev += a.se;
        let mut c = none;
        if dev > 0 && dsv <= 0 {
            assert(a.taken(dx as int));
            let mut d = dist_pos[dx];
            if a.negate {
                d = -d;
            }
            let row = if a.plus {
                a.s2 + d
            } else {
                a.s2 - d
            };
            assert(row == a.row(dist, dx as int));
            c = pat.pixel(dpv, row);
            npix += 1;
        }
        colors.set(p1, c);
        p1 += 1;
        dx += 1;
    }
    proof {
        lemma_end(a, dist, a.s1 as int, dx as int);
    }
    let ghost full = colors@;
    let mut p0: usize = MIDDLE;
    let mut dsv = a.ds;
    let mut dpv = a.dp;
    let mut dev = a.de;
    let mut dy: usize = 1;
    while dist_pos[dy] + a.s1 <= a.width
        invariant
            1 <= dy < DIST_LEN,
            p0 == MIDDLE + 1 - dy,
            p1 == MIDDLE + 1 + a.n_fore(dist),
            0 <= a.n_fore(dist) < DIST_LEN - 1,
            dist == dist_pos@,
            a.ok(pat, dist),
            colors@.len() == COLORS_LEN,
            (dsv as int, dpv as int, dev as int) == a.at(1 - dy),
            a.end(dist, -a.s1, dy as int) == a.end(dist, -a.s1, 1),
            0 <= a.n_back(dist),
            dy <= a.n_back(dist) + 1,
            npix == (if a.de > 0 {
                1int
            } else {
                0int
            }) + a.count(false, a.n_fore(dist)) + a.count(true, dy - 1),
            0 <= npix <= DIST_LEN + dy,
            none == (Rgba8 { r: 0, g: 0, b: 0, a: 0 }),
            forall|p: int| p0 <= p < p1 ==> #[trigger] colors@[p] == a.color(pat, dist, p - MIDDLE),
            forall|p: int| 0 <= p < COLORS_LEN && !(p0 <= p < p1) ==> #[trigger] colors@[p] == start[p],
        decreases DIST_LEN - dy,
    {
        proof {
            lemma_end(a, dist, -a.s1, dy as int);
            lemma_end(a, dist, -a.s1, dy + 1);
            assert(lin(a.ds as int, -a.ss, 0) == a.ds);
            assert(lin(a.dp as int, -a.sp, 0) == a.dp);
            assert(lin(a.de as int, -a.se, 0) == a.de);
            assert(lin(a.ds as int, -a.ss, dy as int) == lin(a.ds as int, -a.ss, dy - 1) - a.ss);
            assert(lin(a.dp as int, -a.sp, dy as int) == lin(a.dp as int, -a.sp, dy - 1) - a.sp);
            assert(lin(a.de as int, -a.se, dy as int) == lin(a.de as int, -a.se, dy - 1) - a.se);
            assert(a.at(-(dy as int)) == (dsv - a.ss, dpv - a.sp, dev - a.se));
            assert(dy <= a.n_back(dist));
        }
        dsv -= a.ss;
        dpv -= a.sp;
        dev -= a.se;
        p0 -= 1;
        let mut c = none;
        if dev > 0 && dsv <= 0 {
            assert(a.taken(-(dy as int)));
            let mut d = dist_pos[dy];
            if a.negate {
                d = -d;
            }
            let row = if a.plus {
                a.s2 - d
            } else {
                a.s2 + d
            };
            assert(row == a.row(dist, -(dy as int)));
            c = pat.pixel(dpv, row);
            npix += 1;
        }
        colors.set(p0, c);
        dy += 1;
    }
    proof {
        lemma_end(a, dist, -a.s1, dy as int);
    }
    (p0, p1, npix)
}

/// Whether the pixel `(px, py)` belongs to the run across a line at the pixel
/// `(x, y)` of it: a run along the row for a steep line, and along the column
/// for a flat one, from `n_back` pixels before `(x, y)` to `n_fore` behind it.
pub open spec fn run_holds(
    steep: bool,
    x: int,
    y: int,
    n_back: int,
    n_fore: int,
    px: int,
    py: int,
) -> bool {
    if steep {
        py == y && x - n_back <= px <= x + n_fore
    } else {
        px == x && y - n_back <= py <= y + n_fore
    }
}

/// An anti-aliased line that takes its colors from an image: the state of the
/// line while it is drawn pixel by pixel along its longer axis.
#[derive(Clone, Debug)]
pub struct LineInterpolatorImage {
    /// The line.
    pub lp: LineParameters,
    /// Steps across the line: the position on the shorter axis.
    pub li: LineInterpolator,
    /// The distances of the current pixel.
    pub di: DistanceInterpolator4,
    /// The column of the current pixel.
    pub x: i64,
    /// The row of the current pixel.
    pub y: i64,
    /// The column of the pixel before.
    pub old_x: i64,
    /// The row of the pixel before.
    pub old_y: i64,
    /// The number of steps of the line.
    pub count: i64,
    /// Half the width of the line, in sub-pixel units.
    pub width: i64,
    /// How far the line reaches to each side, in pixels.
    pub max_extent: i64,
    /// Where in the pattern the line starts.
    pub start: i64,
    /// The number of steps made.
    pub step: i64,
    /// The distances of the pixels across the line from its centre.
    pub dist_pos: Vec<i64>,
    /// The colors across the line at the current pixel.
    pub colors: Vec<Rgba8>,
}

impl LineInterpolatorImage {
    /// Whether the tables have their lengths.
    pub open spec fn wf(&self) -> bool {
        self.dist_pos@.len() == DIST_LEN && self.colors@.len() == COLORS_LEN
    }

    /// Reports whether the line is steep.
    pub fn vertical(&self) -> (r: bool)
        ensures
            r == self.lp.vertical,
    {
        self.lp.vertical
    }

    /// The column of the pixel that a step along a steep line goes to.
    pub open spec fn ver_x(&self) -> int {
        pixel_of(self.lp.x1 + self.li.stepped().y)
    }

    /// The distances after a step along a steep line.
    pub open spec fn di_ver(&self) -> DistanceInterpolator4 {
        if self.lp.inc > 0 {
            self.di.moved_by(sign(self.ver_x() - self.old_x), 1)
        } else {
            self.di.moved_by(sign(self.ver_x() - self.old_x), -1)
        }
    }

    /// The interpolator after a step along a steep line, with the colors of
    /// the step before.
    pub open spec fn moved_ver(&self) -> LineInterpolatorImage {
        LineInterpolatorImage {
            li: self.li.stepped(),
            y: (self.y + self.lp.inc) as i64,
            x: self.ver_x() as i64,
            old_x: self.ver_x() as i64,
            di: self.di_ver(),
            step: (self.step + 1) as i64,
            ..*self
        }
    }

    /// What the step along a steep line reads the colors across the line
    /// with.
    pub open spec fn across_ver(&self) -> Across {
        let di = self.di_ver();
        let s = trunc_div(di.dist as int, self.lp.len as int);
        Across {
            ds: di.dist_start,
            dp: (di.dist_pict + self.start) as i64,
            de: di.dist_end,
            ss: di.dy_start,
            sp: di.dy_pict,
            se: di.dy_end,
            s1: (if self.lp.inc > 0 {
                -s
            } else {
                s
            }) as i64,
            s2: (-s) as i64,
            width: self.width,
            negate: self.lp.inc > 0,
            plus: true,
        }
    }

    /// Whether a step along a steep line can be made: the tables have their
    /// lengths, no value leaves `i64`, the line has a length, and the colors
    /// across the line can be read.
    pub open spec fn can_step_ver(&self, pat: &LineImagePatternPow2) -> bool {
        &&& self.wf()
        &&& self.li.can_step()
        &&& fits(self.y + self.lp.inc)
        &&& fits(self.lp.x1 + self.li.stepped().y)
        &&& fits(self.ver_x() - self.old_x)
        &&& if self.lp.inc > 0 {
            self.di.can_move_by(sign(self.ver_x() - self.old_x), 1)
        } else {
            self.di.can_move_by(sign(self.ver_x() - self.old_x), -1)
        }
        &&& self.lp.len != 0
        &&& !(self.di_ver().dist == i64::MIN && self.lp.len == -1)
        &&& fits(-trunc_div(self.di_ver().dist as int, self.lp.len as int))
        &&& fits(self.di_ver().dist_pict + self.start)
        &&& self.across_ver().ok(pat, self.dist_pos@)
        &&& i64::MIN < self.ver_x() - self.across_ver().n_back(self.dist_pos@) - 1
        &&& self.ver_x() + self.across_ver().n_fore(self.dist_pos@) + 1 <= i64::MAX
        &&& fits(self.step + 1)
    }

    /// Goes one row on along a steep line, reads the colors across the
    /// line from the pattern and blends them onto the image as a run along the
    /// row of the new pixel. Returns whether the line goes on: whether a pixel
    /// was drawn and steps are left.
    pub fn step_ver<T: Pixel>(
        &mut self,
        pat: &LineImagePatternPow2,
        ren: &mut RenderingBase<T>,
    ) -> (r: bool)
        requires
            old(self).can_step_ver(pat),
            old(ren).wf(),
        ensures
            *final(self) == (LineInterpolatorImage {
                colors: final(self).colors,
                ..old(self).moved_ver()
            }),
            final(self).wf(),
            forall|p: int|
                MIDDLE - old(self).across_ver().n_back(old(self).dist_pos@) <= p <= MIDDLE + old(
                    self,
                ).across_ver().n_fore(old(self).dist_pos@) ==> #[trigger] final(self).colors@[p]
                    == old(self).across_ver().color(pat, old(self).dist_pos@, p - MIDDLE),
            forall|p: int|
                0 <= p < COLORS_LEN && !(MIDDLE - old(self).across_ver().n_back(
                    old(self).dist_pos@,
                ) <= p <= MIDDLE + old(self).across_ver().n_fore(old(self).dist_pos@))
                    ==> #[trigger] final(self).colors@[p] == old(self).colors@[p],
            final(ren).wf(),
            changed(
                old(ren).pixf.canvas(),
                final(ren).pixf.canvas(),
                |px: int, py: int|
                    run_holds(
                        true,
                        final(self).x as int,
                        final(self).y as int,
                        old(self).across_ver().n_back(old(self).dist_pos@),
                        old(self).across_ver().n_fore(old(self).dist_pos@),
                        px,
                        py,
                    ),
                |px: int, py: int, p: Seq<u8>|
                    color_put(
                        p,
                        old(self).across_ver().color(
                            pat,
                            old(self).dist_pos@,
                            px - final(self).x,
                        ).a,
                        255,
                        true,
                        T::encoded(
                            old(self).across_ver().color(
                                pat,
                                old(self).dist_pos@,
                                px - final(self).x,
                            ).channels(),
                        ),
                        T::blended(
                            p,
                            old(self).across_ver().color(
                                pat,
                                old(self).dist_pos@,
                                px - final(self).x,
                            ).channels(),
                            255,
                        ),
                    ),
            ),
            r == (old(self).across_ver().npix(old(self).dist_pos@) != 0 && old(self).step + 1 < old(
                self,
            ).count),
    {
        let ghost a0 = self.across_ver();
        let ghost dist = self.dist_pos@;
        self.li.inc();
        self.y += self.lp.inc;
        self.x = pixel_floor(self.lp.x1 + self.li.y);
        if self.lp.inc > 0 {
            self.di.inc_y_by(self.x - self.old_x);
        } else {
            self.di.dec_y_by(self.x - self.old_x);
        }
        self.old_x = self.x;
        let mut s1 = div_trunc(self.di.dist, self.lp.len);
        let s2 = -s1;
        if self.lp.inc > 0 {
            s1 = -s1;
        }
        let a = Across {
            ds: self.di.dist_start,
            dp: self.di.dist_pict + self.start,
            de: self.di.dist_end,
            ss: self.di.dy_start,
            sp: self.di.dy_pict,
            se: self.di.dy_end,
            s1,
            s2,
            width: self.width,
            negate: self.lp.inc > 0,
            plus: true,
        };
        assert(a == a0);
        let (p0, p1, npix) = colors_across(a, pat, &self.dist_pos, &mut self.colors);
        let back = (MIDDLE - p0) as i64;
        let no_covers: Vec<u64> = Vec::new();
        let run = vstd::slice::slice_subrange(self.colors.as_slice(), p0, p1);
        ren.blend_color_hspan(
            self.x - (back + 1) + 1,
            self.y,
            (p1 - p0) as i64,
            run,
            no_covers.as_slice(),
            255,
        );
        self.step += 1;
        npix != 0 && self.step < self.count
    }

    /// The row of the pixel that a step along a flat line goes to.
    pub open spec fn hor_y(&self) -> int {
        pixel_of(self.lp.y1 + self.li.stepped().y)
    }

    /// The distances after a step along a flat line.
    pub open spec fn di_hor(&self) -> DistanceInterpolator4 {
        if self.lp.inc > 0 {
            self.di.moved_by(1, sign(self.hor_y() - self.old_y))
        } else {
            self.di.moved_by(-1, sign(self.hor_y() - self.old_y))
        }
    }

    /// The interpolator after a step along a flat line, with the colors of
    /// the step before.
    pub open spec fn moved_hor(&self) -> LineInterpolatorImage {
        LineInterpolatorImage {
            li: self.li.stepped(),
            x: (self.x + self.lp.inc) as i64,
            y: self.hor_y() as i64,
            old_y: self.hor_y() as i64,
            di: self.di_hor(),
            step: (self.step + 1) as i64,
            ..*self
        }
    }

    /// What the step along a flat line reads the colors across the line
    /// with.
    pub open spec fn across_hor(&self) -> Across {
        let di = self.di_hor();
        let s = trunc_div(di.dist as int, self.lp.len as int);
        Across {
            ds: di.dist_start,
            dp: (di.dist_pict + self.start) as i64,
            de: di.dist_end,
            ss: (-di.dx_start) as i64,
            sp: (-di.dx_pict) as i64,
            se: (-di.dx_end) as i64,
            s1: (if self.lp.inc < 0 {
                -s
            } else {
                s
            }) as i64,
            s2: (-s) as i64,
            width: self.width,
            negate: self.lp.inc > 0,
            plus: false,
        }
    }

    /// Whether a step along a flat line can be made: the tables have their
    /// lengths, no value leaves `i64`, the line has a length, and the colors
    /// across the line can be read.
    pub open spec fn can_step_hor(&self, pat: &LineImagePatternPow2) -> bool {
        &&& self.wf()
        &&& self.li.can_step()
        &&& fits(self.x + self.lp.inc)
        &&& fits(self.lp.y1 + self.li.stepped().y)
        &&& fits(self.hor_y() - self.old_y)
        &&& if self.lp.inc > 0 {
            self.di.can_move_by(1, sign(self.hor_y() - self.old_y))
        } else {
            self.di.can_move_by(-1, sign(self.hor_y() - self.old_y))
        }
        &&& self.lp.len != 0
        &&& !(self.di_hor().dist == i64::MIN && self.lp.len == -1)
        &&& fits(-trunc_div(self.di_hor().dist as int, self.lp.len as int))
        &&& fits(self.di_hor().dist_pict + self.start)
        &&& fits(-self.di_hor().dx_start)
        &&& fits(-self.di_hor().dx_pict)
        &&& fits(-self.di_hor().dx_end)
        &&& self.across_hor().ok(pat, self.dist_pos@)
        &&& i64::MIN < self.hor_y() - self.across_hor().n_back(self.dist_pos@) - 1
        &&& self.hor_y() + self.across_hor().n_fore(self.dist_pos@) + 1 <= i64::MAX
        &&& fits(self.step + 1)
    }

    /// Goes one column on along a flat line, reads the colors across the
    /// line from the pattern and blends them onto the image as a run along the
    /// column of the new pixel. Returns whether the line goes on: whether a pixel
    /// was drawn and steps are left.
    pub fn step_hor<T: Pixel>(
        &mut self,
        pat: &LineImagePatternPow2,
        ren: &mut RenderingBase<T>,
    ) -> (r: bool)
        requires
            old(self).can_step_hor(pat),
            old(ren).wf(),
        ensures
            *final(self) == (LineInterpolatorImage {
                colors: final(self).colors,
                ..old(self).moved_hor()
            }),
            final(self).wf(),
            forall|p: int|
                MIDDLE - old(self).across_hor().n_back(old(self).dist_pos@) <= p <= MIDDLE + old(
                    self,
                ).across_hor().n_fore(old(self).dist_pos@) ==> #[trigger] final(self).colors@[p]
                    == old(self).across_hor().color(pat, old(self).dist_pos@, p - MIDDLE),
            forall|p: int|
                0 <= p < COLORS_LEN && !(MIDDLE - old(self).across_hor().n_back(
                    old(self).dist_pos@,
                ) <= p <= MIDDLE + old(self).across_hor().n_fore(old(self).dist_pos@))
                    ==> #[trigger] final(self).colors@[p] == old(self).colors@[p],
            final(ren).wf(),
            changed(
                old(ren).pixf.canvas(),
                final(ren).pixf.canvas(),
                |px: int, py: int|
                    run_holds(
                        false,
                        final(self).x as int,
                        final(self).y as int,
                        old(self).across_hor().n_back(old(self).dist_pos@),
                        old(self).across_hor().n_fore(old(self).dist_pos@),
                        px,
                        py,
                    ),
                |px: int, py: int, p: Seq<u8>|
                    color_put(
                        p,
                        old(self).across_hor().color(
                            pat,
                            old(self).dist_pos@,
                            py - final(self).y,
                        ).a,
                        255,
                        true,
                        T::encoded(
                            old(self).across_hor().color(
                                pat,
                                old(self).dist_pos@,
                                py - final(self).y,
                            ).channels(),
                        ),
                        T::blended(
                            p,
                            old(self).across_hor().color(
                                pat,
                                old(self).dist_pos@,
                                py - final(self).y,
                            ).channels(),
                            255,
                        ),
                    ),
            ),
            r == (old(self).across_hor().npix(old(self).dist_pos@) != 0 && old(self).step + 1 < old(
                self,
            ).count),
    {
        let ghost a0 = self.across_hor();
        let ghost dist = self.dist_pos@;
        self.li.inc();
        self.x += self.lp.inc;
        self.y = pixel_floor(self.lp.y1 + self.li.y);
        if self.lp.inc > 0 {
            self.di.inc_x_by(self.y - self.old_y);
        } else {
            self.di.dec_x_by(self.y - self.old_y);
        }
        self.old_y = self.y;
        let mut s1 = div_trunc(self.di.dist, self.lp.len);
        let s2 = -s1;
        if self.lp.inc < 0 {
            s1 = -s1;
        }
        let a = Across {
            ds: self.di.dist_start,
            dp: self.di.dist_pict + self.start,
            de: self.di.dist_end,
            ss: -self.di.dx_start,
            sp: -self.di.dx_pict,
            se: -self.di.dx_end,
            s1,
            s2,
            width: self.width,
            negate: self.lp.inc > 0,
            plus: false,
        };
        assert(a == a0);
        let (p0, p1, npix) = colors_across(a, pat, &self.dist_pos, &mut self.colors);
        let back = (MIDDLE - p0) as i64;
        let no_covers: Vec<u64> = Vec::new();
        let run = vstd::slice::slice_subrange(self.colors.as_slice(), p0, p1);
        ren.blend_color_vspan(
            self.x,
            self.y - (back + 1) + 1,
            (p1 - p0) as i64,
            run,
            no_covers.as_slice(),
            255,
        );
        self.step += 1;
        npix != 0 && self.step < self.count
    }
}

/// The value that ends the table of distances.
pub const TABLE_END: i64 = 0x7FFF_0000;

/// The table of distances across a line whose longer extent is `dd` and whose
/// length is `len`: the distance of each pixel across the line from its centre,
/// up to the first that reaches the width of the line and two pixels more;
/// behind that the table holds zeros, and its last entry ends it.
pub open spec fn table(dd: i64, len: i64, width: i64) -> Seq<i64> {
    Seq::new(
        DIST_LEN as nat,
        |j: int|
            if j == DIST_LEN - 1 {
                TABLE_END
            } else if stopped_before(li_start(0, dd, len), width + 512, j) {
                0i64
            } else {
                li_after(li_start(0, dd, len), j).y
            },
    )
}

/// Whether the table of distances can be computed without any value leaving
/// `i64`.
pub open spec fn can_tabulate(dd: i64, len: i64, width: i64) -> bool {
    &&& LineInterpolator::can_start(dd as int, len)
    &&& fits(width + 512)
    &&& forall|j: int|
        0 <= j < DIST_LEN - 1 && !stopped_before(li_start(0, dd, len), width + 512, j + 1)
            ==> (#[trigger] li_after(li_start(0, dd, len), j)).can_step()
}

/// Returns the table of distances across a line.
pub fn distances(dd: i64, len: i64, width: i64) -> (r: Vec<i64>)
    requires
        can_tabulate(dd, len, width),
    ensures
        r@ == table(dd, len, width),
{
    let mut li = LineInterpolator::new(0, dd, len);
    let ghost li0 = li;
    let stop = width + 512;
    let mut dist: Vec<i64> = Vec::new();
    let mut k: usize = 0;
    let mut stopped = false;
    while k < DIST_LEN - 1
        invariant
            k <= DIST_LEN - 1,
            dist@.len() == k,
            li0 == li_start(0, dd, len),
            stop == width + 512,
            can_tabulate(dd, len, width),
            stopped == stopped_before(li0, stop as int, k as int),
            !stopped ==> li == li_after(li0, k as int),
            forall|j: int| 0 <= j < k ==> (#[trigger] dist@[j]) == table(dd, len, width)[j],
        decreases DIST_LEN - 1 - k,
    {
        if stopped {
            dist.push(0);
        } else {
            dist.push(li.y);
            if li.y >= stop {
                stopped = true;
            } else {
                assert(!stopped_before(li0, stop as int, k + 1));
                assert(li_after(li0, k as int).can_step());
                li.inc();
            }
        }
        k = k + 1;
    }
    dist.push(TABLE_END);
    assert(dist@ =~= table(dd, len, width));
    dist
}

/// The first place from `k` on whose distance is beyond the width of the line;
/// the length of the table if there is none.
pub open spec fn reach(dist: Seq<i64>, width: int, k: int) -> int
    decreases dist.len() - k,
{
    if k < 0 || k >= dist.len() || dist[k] > width {
        k
    } else {
        reach(dist, width, k + 1)
    }
}

/// The number of pixels among the centre and `n` pixels on each side of it at
/// which a distance that is `value` at the centre and grows by `step` from
/// pixel to pixel is negative.
pub open spec fn below(value: int, step: int, n: int) -> int
    decreases n,
{
    if n <= 0 {
        if value < 0 {
            1
        } else {
            0
        }
    } else {
        below(value, step, n - 1) + (if lin(value, step, n) < 0 {
            1int
        } else {
            0int
        }) + (if lin(value, -step, n) < 0 {
            1int
        } else {
            0int
        })
    }
}

/// Whether the pixels before the start of a line can be counted: the table
/// reaches across the line and no value leaves `i64`.
pub open spec fn can_count(dist: Seq<i64>, width: int, value: int, step: int) -> bool {
    &&& dist.len() == DIST_LEN
    &&& reach(dist, width, 1) < DIST_LEN
    &&& forall|k: int|
        0 <= k <= reach(dist, width, 1) ==> fits(#[trigger] lin(value, step, k)) && fits(
            lin(value, -step, k),
        )
}

/// The end of the reach lies at or behind the place from which it is looked for.
pub proof fn lemma_reach(dist: Seq<i64>, width: int, k: int)
    requires
        0 <= k,
    ensures
        reach(dist, width, k) >= k,
        k < dist.len() && dist[k] <= width ==> reach(dist, width, k) == reach(dist, width, k + 1),
        k < dist.len() && dist[k] > width ==> reach(dist, width, k) == k,
    decreases dist.len() - k,
{
    if k < dist.len() && dist[k] <= width {
        lemma_reach(dist, width, k + 1);
    }
}

/// Returns the number of pixels across the line at which the distance from the
/// line that bounds its start is negative: such pixels lie before the start.
pub fn count_before_start(dist_pos: &Vec<i64>, width: i64, value: i64, step: i64) -> (npix: i64)
    requires
        can_count(dist_pos@, width as int, value as int, step as int),
    ensures
        npix == below(value as int, step as int, reach(dist_pos@, width as int, 1)),
        0 <= npix <= 2 * DIST_LEN,
{
    let ghost dist = dist_pos@;
    let mut npix: i64 = 0;
    let mut dist1 = value;
    let mut dist2 = value;
    let mut dx: usize = 0;
    if dist1 < 0 {
        npix += 1;
    }
    proof {
        lemma_reach(dist, width as int, 1);
        assert(lin(value as int, step as int, 0) == value);
        assert(lin(value as int, -step, 0) == value);
    }
    loop
        invariant_except_break
            0 <= dx < DIST_LEN - 1,
            dist == dist_pos@,
            can_count(dist, width as int, value as int, step as int),
            dist1 == lin(value as int, step as int, dx as int),
            dist2 == lin(value as int, -step, dx as int),
            npix == below(value as int, step as int, dx as int),
            0 <= npix <= 2 * dx + 1,
            reach(dist, width as int, dx + 1) == reach(dist, width as int, 1),
        ensures
            npix == below(value as int, step as int, reach(dist, width as int, 1)),
            0 <= npix <= 2 * DIST_LEN,
        decreases DIST_LEN - dx,
    {
        proof {
            assert(lin(value as int, step as int, dx + 1) == dist1 + step);
            assert(lin(value as int, -step, dx + 1) == dist2 - step);
            lemma_reach(dist, width as int, dx + 1);
            lemma_reach(dist, width as int, dx + 2);
        }
        dist1 += step;
        dist2 -= step;
        if dist1 < 0 {
            npix += 1;
        }
        if dist2 < 0 {
            npix += 1;
        }
        dx += 1;
        if dist_pos[dx] > width {
            break ;
        }
    }
    npix
}

/// What an interpolator of a line with an image as its pattern holds.
pub struct ImageView {
    /// The line.
    pub lp: LineParameters,
    /// Steps across the line.
    pub li: LineInterpolator,
    /// The distances of the current pixel.
    pub di: DistanceInterpolator4,
    /// The column of the current pixel.
    pub x: i64,
    /// The row of the current pixel.
    pub y: i64,
    /// The column of the pixel before.
    pub old_x: i64,
    /// The row of the pixel before.
    pub old_y: i64,
    /// The number of steps of the line.
    pub count: i64,
    /// Half the width of the line.
    pub width: i64,
    /// How far the line reaches to each side, in pixels.
    pub max_extent: i64,
    /// Where in the pattern the line starts.
    pub start: i64,
    /// The number of steps made.
    pub step: i64,
    /// The distances of the pixels across the line.
    pub dist: Seq<i64>,
    /// The colors across the line.
    pub colors: Seq<Rgba8>,
}

impl View for LineInterpolatorImage {
    type V = ImageView;

    open spec fn view(&self) -> ImageView {
        ImageView {
            lp: self.lp,
            li: self.li,
            di: self.di,
            x: self.x,
            y: self.y,
            old_x: self.old_x,
            old_y: self.old_y,
            count: self.count,
            width: self.width,
            max_extent: self.max_extent,
            start: self.start,
            step: self.step,
            dist: self.dist_pos@,
            colors: self.colors@,
        }
    }
}

impl ImageView {
    /// The interpolator of the line `lp` with the distances `di` before it backs
    /// off from the start of the line.
    pub open spec fn first(
        lp: LineParameters,
        di: DistanceInterpolator4,
        width: i64,
        pattern_start: i64,
        pattern_width: i64,
    ) -> ImageView {
        let max_extent = pixel_of(width + 256);
        ImageView {
            lp,
            li: LineInterpolator::start_spec(0, Self::across(lp), Self::along(lp) as i64),
            di,
            x: pixel_of(lp.x1 as int) as i64,
            y: pixel_of(lp.y1 as int) as i64,
            old_x: pixel_of(lp.x1 as int) as i64,
            old_y: pixel_of(lp.y1 as int) as i64,
            count: (if lp.vertical {
                abs(pixel_of(lp.y2 as int) - pixel_of(lp.y1 as int))
            } else {
                abs(pixel_of(lp.x2 as int) - pixel_of(lp.x1 as int))
            }) as i64,
            width,
            max_extent: max_extent as i64,
            start: (pattern_start + (max_extent + 2) * pattern_width) as i64,
            step: 0,
            dist: table(Self::longer(lp) as i64, lp.len, width),
            colors: Seq::new(COLORS_LEN as nat, |i: int| Rgba8 { r: 0, g: 0, b: 0, a: 255 }),
        }
    }

    /// The extent of the line across its longer axis, in 256ths of a sub-pixel
    /// unit.
    pub open spec fn across(lp: LineParameters) -> int {
        if lp.vertical {
            256 * (lp.x2 - lp.x1)
        } else {
            256 * (lp.y2 - lp.y1)
        }
    }

    /// The number of steps along the longer axis, in sub-pixel units.
    pub open spec fn along(lp: LineParameters) -> int {
        if lp.vertical {
            abs(lp.y2 - lp.y1)
        } else {
            abs(lp.x2 - lp.x1) + 1
        }
    }

    /// The longer extent of the line, in 256ths of a sub-pixel unit.
    pub open spec fn longer(lp: LineParameters) -> int {
        if lp.vertical {
            256 * lp.dy
        } else {
            256 * lp.dx
        }
    }

    /// Whether the first state of the line can be computed.
    pub open spec fn can_first(
        lp: LineParameters,
        width: i64,
        pattern_start: i64,
        pattern_width: i64,
    ) -> bool {
        &&& fits(lp.x2 - lp.x1)
        &&& fits(lp.y2 - lp.y1)
        &&& -0x40_0000_0000_0000 <= lp.x2 - lp.x1 <= 0x40_0000_0000_0000
        &&& -0x40_0000_0000_0000 <= lp.y2 - lp.y1 <= 0x40_0000_0000_0000
        &&& -0x40_0000_0000_0000 <= lp.dx <= 0x40_0000_0000_0000
        &&& -0x40_0000_0000_0000 <= lp.dy <= 0x40_0000_0000_0000
        &&& fits(Self::along(lp))
        &&& LineInterpolator::can_start(Self::across(lp), Self::along(lp) as i64)
        &&& fits(pixel_of(lp.y2 as int) - pixel_of(lp.y1 as int))
        &&& fits(pixel_of(lp.x2 as int) - pixel_of(lp.x1 as int))
        &&& fits(width + 256)
        &&& fits(pixel_of(width + 256) + 2)
        &&& fits((pixel_of(width + 256) + 2) * pattern_width)
        &&& fits(pattern_start + (pixel_of(width + 256) + 2) * pattern_width)
        &&& can_tabulate(Self::longer(lp) as i64, lp.len, width)
    }

    /// The state one pixel back along the longer axis.
    pub open spec fn backed_once(self) -> ImageView {
        let li = self.li.stepped_back();
        if self.lp.vertical {
            let x = pixel_of(self.lp.x1 + li.y) as i64;
            ImageView {
                li,
                y: (self.y - self.lp.inc) as i64,
                x,
                old_x: x,
                di: if self.lp.inc > 0 {
                    self.di.moved_by(sign(x - self.old_x), -1)
                } else {
                    self.di.moved_by(sign(x - self.old_x), 1)
                },
                ..self
            }
        } else {
            let y = pixel_of(self.lp.y1 + li.y) as i64;
            ImageView {
                li,
                x: (self.x - self.lp.inc) as i64,
                y,
                old_y: y,
                di: if self.lp.inc > 0 {
                    self.di.moved_by(-1, sign(y - self.old_y))
                } else {
                    self.di.moved_by(1, sign(y - self.old_y))
                },
                ..self
            }
        }
    }

    /// Whether one step back can be made without any value leaving `i64`.
    pub open spec fn can_back_once(self) -> bool {
        let li = self.li.stepped_back();
        &&& self.li.can_step_back()
        &&& if self.lp.vertical {
            let x = pixel_of(self.lp.x1 + li.y);
            &&& fits(self.y - self.lp.inc)
            &&& fits(self.lp.x1 + li.y)
            &&& fits(x - self.old_x)
            &&& if self.lp.inc > 0 {
                self.di.can_move_by(sign(x - self.old_x), -1)
            } else {
                self.di.can_move_by(sign(x - self.old_x), 1)
            }
        } else {
            let y = pixel_of(self.lp.y1 + li.y);
            &&& fits(self.x - self.lp.inc)
            &&& fits(self.lp.y1 + li.y)
            &&& fits(y - self.old_y)
            &&& if self.lp.inc > 0 {
                self.di.can_move_by(-1, sign(y - self.old_y))
            } else {
                self.di.can_move_by(1, sign(y - self.old_y))
            }
        }
    }

    /// What one pixel across the line adds to the distance from the line that
    /// bounds the start.
    pub open spec fn start_step(self) -> int {
        if self.lp.vertical {
            self.di.dy_start as int
        } else {
            -self.di.dx_start
        }
    }

    /// How many pixels across the line lie before its start.
    pub open spec fn before_start(self) -> int {
        below(self.di.dist_start as int, self.start_step(), reach(self.dist, self.width as int, 1))
    }

    /// The state after the line has backed off from its start.
    ///
    /// The line goes back pixel by pixel and counts the pixels across it that
    /// lie before its start, `npix` more for the first step. It stops where
    /// there is none, or when it has gone back further than it is wide.
    pub open spec fn backed(self, npix: int) -> ImageView
        decreases self.step - i64::MIN,
    {
        let v1 = self.backed_once();
        let np = npix + v1.before_start();
        let v2 = ImageView { step: (v1.step - 1) as i64, ..v1 };
        if np == 0 {
            v1
        } else if v2.step < -v2.max_extent || self.step <= i64::MIN + 1 {
            v2
        } else {
            v2.backed(0)
        }
    }

    /// Whether the line can back off from its start: in every step back no
    /// value leaves `i64`, and the table of distances reaches across the line.
    pub open spec fn can_back(self, npix: int) -> bool
        decreases self.step - i64::MIN,
    {
        let v1 = self.backed_once();
        let np = npix + v1.before_start();
        let v2 = ImageView { step: (v1.step - 1) as i64, ..v1 };
        &&& self.can_back_once()
        &&& fits(-self.max_extent)
        &&& fits(v1.start_step())
        &&& can_count(v1.dist, v1.width as int, v1.di.dist_start as int, v1.start_step())
        &&& fits(v1.step - 1)
        &&& (np == 0 || v2.step < -v2.max_extent || self.step <= i64::MIN + 1 || v2.can_back(0))
    }

    /// The state of the line when it is ready for its first step: the
    /// remainders of its steps are set back by one whole step, and its steps are
    /// counted from as far back as it is wide.
    pub open spec fn finished(self) -> ImageView {
        ImageView {
            li: LineInterpolator { xmod: (self.li.xmod - self.li.count) as i64, ..self.li },
            step: (self.step - self.max_extent) as i64,
            ..self
        }
    }

    /// Whether the line can be made ready for its first step.
    pub open spec fn can_finish(self) -> bool {
        fits(self.li.xmod - self.li.count) && fits(self.step - self.max_extent)
    }
}

impl LineInterpolatorImage {
    /// Whether the interpolator of the line `lp` can be made: whether its first
    /// state and its table can be computed, and it can back off from its start
    /// and be made ready, without any value leaving `i64`.
    pub open spec fn can_start(
        lp: LineParameters,
        di: DistanceInterpolator4,
        width: i64,
        pattern_start: i64,
        pattern_width: i64,
    ) -> bool {
        &&& ImageView::can_first(lp, width, pattern_start, pattern_width)
        &&& ImageView::first(lp, di, width, pattern_start, pattern_width).can_back(1)
        &&& ImageView::first(lp, di, width, pattern_start, pattern_width).backed(1).can_finish()
    }

    /// Creates the interpolator of the line `lp` with the distances `di` of its
    /// first pixel, for a pattern of the width `pattern_width` that starts at
    /// `pattern_start`. The line backs off from its start as far as the line
    /// before it reaches.
    pub fn new(
        lp: LineParameters,
        di: DistanceInterpolator4,
        subpixel_width: i64,
        pattern_start: i64,
        pattern_width: i64,
    ) -> (r: Self)
        requires
            Self::can_start(lp, di, subpixel_width, pattern_start, pattern_width),
        ensures
            r@ == ImageView::first(lp, di, subpixel_width, pattern_start, pattern_width).backed(
                1,
            ).finished(),
            r.wf(),
    {
        let n = if lp.vertical {
            let d = lp.y2 - lp.y1;
            if d < 0 {
                -d
            } else {
                d
            }
        } else {
            let d = lp.x2 - lp.x1;
            (if d < 0 {
                -d
            } else {
                d
            }) + 1
        };
        let y1 = if lp.vertical {
            to_subpixel(lp.x2 - lp.x1)
        } else {
            to_subpixel(lp.y2 - lp.y1)
        };
        let m_li = LineInterpolator::new_back_adjusted_2(y1, n);
        let x = pixel_floor(lp.x1);
        let y = pixel_floor(lp.y1);
        let count = if lp.vertical {
            let d = pixel_floor(lp.y2) - y;
            if d < 0 {
                -d
            } else {
                d
            }
        } else {
            let d = pixel_floor(lp.x2) - x;
            if d < 0 {
                -d
            } else {
                d
            }
        };
        let width = subpixel_width;
        let max_extent = pixel_floor(width + 256);
        let start = pattern_start + (max_extent + 2) * pattern_width;
        let dd = to_subpixel(
            if lp.vertical {
                lp.dy
            } else {
                lp.dx
            },
        );
        let dist_pos = distances(dd, lp.len, width);
        let mut colors: Vec<Rgba8> = Vec::new();
        let mut c: usize = 0;
        while c < COLORS_LEN
            invariant
                c <= COLORS_LEN,
                colors@ == Seq::new(c as nat, |i: int| Rgba8 { r: 0, g: 0, b: 0, a: 255 }),
            decreases COLORS_LEN - c,
        {
            colors.push(Rgba8::black());
            c = c + 1;
            assert(colors@ =~= Seq::new(c as nat, |i: int| Rgba8 { r: 0, g: 0, b: 0, a: 255 }));
        }
        let mut r = Self {
            lp,
            li: m_li,
            di,
            x,
            y,
            old_x: x,
            old_y: y,
            count,
            width,
            max_extent,
            start,
            step: 0,
            dist_pos,
            colors,
        };
        let ghost v0 = ImageView::first(lp, di, subpixel_width, pattern_start, pattern_width);
        assert(r@ == v0);
        let mut npix: i64 = 1;
        loop
            invariant_except_break
                0 <= npix <= 1,
                r.wf(),
                r@.can_back(npix as int),
                v0.backed(1) == r@.backed(npix as int),
            ensures
                r.wf(),
                r@ == v0.backed(1),
            decreases r.step - i64::MIN,
        {
            r.li.dec();
            if r.lp.vertical {
                r.y -= r.lp.inc;
                r.x = pixel_floor(r.lp.x1 + r.li.y);
                if r.lp.inc > 0 {
                    r.di.dec_y_by(r.x - r.old_x);
                } else {
                    r.di.inc_y_by(r.x - r.old_x);
                }
                r.old_x = r.x;
            } else {
                r.x -= r.lp.inc;
                r.y = pixel_floor(r.lp.y1 + r.li.y);
                if r.lp.inc > 0 {
                    r.di.dec_x_by(r.y - r.old_y);
                } else {
                    r.di.inc_x_by(r.y - r.old_y);
                }
                r.old_y = r.y;
            }
            let step = if r.lp.vertical {
                r.di.dy_start
            } else {
                -r.di.dx_start
            };
            npix = npix + count_before_start(&r.dist_pos, r.width, r.di.dist_start, step);
            if npix == 0 {
                break ;
            }
            npix = 0;
            r.step -= 1;
            if r.step < -r.max_extent {
                break ;
            }
        }
        r.li.adjust_forward();
        r.step -= r.max_extent;
        r
    }
}

} // verus!
