//! Anti-aliased lines drawn pixel by pixel along their longer axis, with the
//! coverage of the pixels across the line taken from the distance to the line.

use crate::cell::{coord_ok, lemma_mul_bounded};
use crate::dist::{
    fits, full_dist, line_mr_spec, moved, mr_dist, DistanceInterpolator, DistanceInterpolator1,
    DistanceInterpolator2, DistanceInterpolator3,
};
use crate::line::{
    lemma_trunc_rem_bounds, trunc_div, AAView, LineInterpolator, LineInterpolatorAA,
    LineParameters, DIST_END,
};
use crate::util::{pixel_base, pixel_of, MAX_HALF_WIDTH};
use vstd::prelude::*;

verus! {

/// The index in `covers` of the pixel on the line.
pub const CENTRE: usize = 66;

/// A run of pixels across a line, with the coverage of each.
pub struct SolidSpan {
    /// Whether the run goes down a column; it goes along a row if not.
    pub vertical: bool,
    /// Column of the first pixel.
    pub x: int,
    /// Row of the first pixel.
    pub y: int,
    /// The number of pixels.
    pub len: int,
    /// The coverage of each pixel, and whatever follows it in the buffer.
    pub covers: Seq<u64>,
}

/// What draws the pixels of an anti-aliased line.
pub trait RenderOutline {
    /// The coverage of a pixel at the distance `d` from the line.
    spec fn cover_spec(&self, d: int) -> u64;

    /// The runs blended so far.
    spec fn blended(&self) -> Seq<SolidSpan>;

    /// Returns the coverage of a pixel at the distance `d` from the line.
    fn cover(&self, d: i64) -> (r: u64)
        ensures
            r == self.cover_spec(d as int),
    ;

    /// Blends a run of `len` pixels along row `y`, starting at column `x`.
    fn blend_solid_hspan(&mut self, x: i64, y: i64, len: i64, covers: &[u64])
        ensures
            final(self).blended() == old(self).blended().push(
                SolidSpan { vertical: false, x: x as int, y: y as int, len: len as int, covers: covers@ },
            ),
            forall|d: int| final(self).cover_spec(d) == old(self).cover_spec(d),
    ;

    /// Blends a run of `len` pixels down column `x`, starting at row `y`.
    fn blend_solid_vspan(&mut self, x: i64, y: i64, len: i64, covers: &[u64])
        ensures
            final(self).blended() == old(self).blended().push(
                SolidSpan { vertical: true, x: x as int, y: y as int, len: len as int, covers: covers@ },
            ),
            forall|d: int| final(self).cover_spec(d) == old(self).cover_spec(d),
    ;
}

/// A value that changes by a fixed step from pixel to pixel across the line and
/// decides which pixels are drawn.
#[derive(Clone, Copy, Debug, PartialEq, Eq)]
pub struct Cutoff {
    /// Whether the cutoff is in use; one that is not in use cuts nothing off.
    pub on: bool,
    /// The value at the pixel on the line.
    pub value: i64,
    /// What the value grows by with each pixel towards larger indices.
    pub step: i64,
}

impl Cutoff {
    /// The cutoff that cuts nothing off.
    pub open spec fn none() -> Cutoff {
        Cutoff { on: false, value: 0, step: 0 }
    }

    /// Whether the values of the cutoff stay inside `i64` across the line.
    pub open spec fn bounded(self) -> bool {
        &&& -0x4000_0000_0000_0000 <= self.value <= 0x4000_0000_0000_0000
        &&& -0x80_0000_0000_0000 <= self.step <= 0x80_0000_0000_0000
    }

    /// The value at the pixel `j` places from the line.
    pub open spec fn at(self, j: int) -> int {
        self.value + j * self.step
    }

    /// Whether the pixel `j` places from the line lies behind the start of the
    /// line: the value there is not positive.
    pub open spec fn behind_start(self, j: int) -> bool {
        !self.on || self.at(j) <= 0
    }

    /// Whether the pixel `j` places from the line lies before the end of the
    /// line: the value there is positive.
    pub open spec fn before_end(self, j: int) -> bool {
        !self.on || self.at(j) > 0
    }

    /// Returns the cutoff that cuts nothing off.
    pub fn off() -> (g: Cutoff)
        ensures
            g == Cutoff::none(),
    {
        Cutoff { on: false, value: 0, step: 0 }
    }

    /// Returns the cutoff with the given value on the line and step across it.
    pub fn with(value: i64, step: i64) -> (g: Cutoff)
        ensures
            g == (Cutoff { on: true, value, step }),
    {
        Cutoff { on: true, value, step }
    }
}

/// The number of pixels on one side of the line that lie inside its width: the
/// entries of `dist` from index `k` on, up to the first one that, moved by
/// `off`, exceeds `width`.
pub open spec fn side_len(dist: Seq<i64>, off: int, width: int, k: int) -> int
    decreases dist.len() - k,
{
    if 0 <= k < dist.len() && dist[k] + off <= width {
        1 + side_len(dist, off, width, k + 1)
    } else {
        0
    }
}

/// Whether the pixel `j` places from the line is drawn.
pub open spec fn drawn(start: Cutoff, end: Cutoff, j: int) -> bool {
    start.behind_start(j) && end.before_end(j)
}

/// Whether the pixel `j` places from the line counts as one that the line still
/// reaches. The pixel on the line counts whenever it lies before the end.
pub open spec fn counted(start: Cutoff, end: Cutoff, j: int) -> bool {
    if j == 0 {
        end.before_end(0)
    } else {
        drawn(start, end, j)
    }
}

/// The number of pixels from `lo` to `hi` places from the line that count.
pub open spec fn count_between(start: Cutoff, end: Cutoff, lo: int, hi: int) -> int
    decreases hi - lo + 1,
{
    if hi < lo {
        0
    } else {
        count_between(start, end, lo, hi - 1) + (if counted(start, end, hi) {
            1int
        } else {
            0int
        })
    }
}

/// The distance from the line of the pixel `j` places from the pixel on the
/// line, which itself lies at the distance `s1`.
pub open spec fn dist_at(dist: Seq<i64>, s1: int, j: int) -> int {
    if j == 0 {
        s1
    } else if j > 0 {
        dist[j] - s1
    } else {
        dist[-j] + s1
    }
}

/// The coverage of the pixel `j` places from the line: that of its distance if
/// it is drawn, and none if not.
pub open spec fn cover_at<R: RenderOutline>(
    ren: R,
    dist: Seq<i64>,
    s1: int,
    start: Cutoff,
    end: Cutoff,
    j: int,
) -> u64 {
    if drawn(start, end, j) {
        ren.cover_spec(dist_at(dist, s1, j))
    } else {
        0
    }
}

/// Whether the tables of the interpolator have their sizes, the distances are
/// ended by `DIST_END`, and the pixel at the distance `s1` from the line is
/// near enough for the width to be reached before the end of the table.
pub open spec fn tables_ok(li: AAView, s1: int) -> bool {
    &&& li.dist.len() == MAX_HALF_WIDTH + 1
    &&& li.covers.len() == MAX_HALF_WIDTH * 2 + 4
    &&& forall|k: int|
        0 <= k <= MAX_HALF_WIDTH ==> -0x4000_0000_0000_0000 <= #[trigger] li.dist[k]
            <= 0x4000_0000_0000_0000
    &&& li.dist[MAX_HALF_WIDTH as int] == DIST_END
    &&& -DIST_END <= li.width
    &&& li.width < DIST_END - s1
    &&& li.width < DIST_END + s1
}

/// The table of coverage after the pixels across the line have been filled in:
/// `n0` pixels before the pixel on the line and `n1` behind it.
pub open spec fn covers_after<R: RenderOutline>(
    before: Seq<u64>,
    ren: R,
    dist: Seq<i64>,
    s1: int,
    start: Cutoff,
    end: Cutoff,
    n0: int,
    n1: int,
) -> Seq<u64> {
    Seq::new(
        before.len(),
        |i: int|
            if CENTRE - n0 <= i <= CENTRE + n1 {
                cover_at(ren, dist, s1, start, end, i - CENTRE)
            } else {
                before[i]
            },
    )
}

/// The number of pixels across the line before the pixel on the line.
pub open spec fn n_before(li: AAView, s1: int) -> int {
    side_len(li.dist, s1, li.width as int, 1)
}

/// The number of pixels across the line behind the pixel on the line.
pub open spec fn n_behind(li: AAView, s1: int) -> int {
    side_len(li.dist, -s1, li.width as int, 1)
}

/// The state after the coverage of the pixels across the line has been filled in.
pub open spec fn filled<R: RenderOutline>(li: AAView, ren: R, s1: int, start: Cutoff, end: Cutoff) -> AAView {
    AAView {
        covers: covers_after(
            li.covers,
            ren,
            li.dist,
            s1,
            start,
            end,
            n_before(li, s1),
            n_behind(li, s1),
        ),
        ..li
    }
}

/// The run of pixels across the line: down a column after a step along the
/// horizontal axis, along a row after one along the vertical axis. The coverage
/// runs from the first pixel to index `up_to` of the table.
pub open spec fn run_across(li: AAView, s1: int, vertical: bool, up_to: int) -> SolidSpan {
    let n0 = n_before(li, s1);
    let n1 = n_behind(li, s1);
    SolidSpan {
        vertical,
        x: if vertical {
            li.x as int
        } else {
            li.x - n0
        },
        y: if vertical {
            li.y - n0
        } else {
            li.y as int
        },
        len: n0 + n1 + 1,
        covers: li.covers.subrange(CENTRE - n0, up_to),
    }
}

/// The number of pixels across the line that count as reached by the line.
pub open spec fn reached(li: AAView, s1: int, start: Cutoff, end: Cutoff) -> int {
    count_between(start, end, -n_before(li, s1), n_behind(li, s1))
}

/// The side of a line is no longer than what is left of the table.
pub proof fn lemma_side_len_bounds(dist: Seq<i64>, off: int, width: int, k: int)
    requires
        0 <= k <= dist.len(),
    ensures
        0 <= side_len(dist, off, width, k) <= dist.len() - k,
        forall|i: int|
            k <= i < k + side_len(dist, off, width, k) ==> (#[trigger] dist[i]) + off <= width,
        k + side_len(dist, off, width, k) < dist.len() ==> dist[k + side_len(dist, off, width, k)]
            + off > width,
    decreases dist.len() - k,
{
    if k < dist.len() && dist[k] + off <= width {
        lemma_side_len_bounds(dist, off, width, k + 1);
    }
}

/// A side that is `n` pixels long from index `k` on, where the next pixel lies
/// inside the width, is one pixel longer than the side from the next index on.
pub proof fn lemma_side_len_step(dist: Seq<i64>, off: int, width: int, k: int, i: int)
    requires
        0 <= k <= i < dist.len(),
        forall|m: int| k <= m < i ==> (#[trigger] dist[m]) + off <= width,
    ensures
        side_len(dist, off, width, k) == i - k + side_len(dist, off, width, i),
    decreases i - k,
{
    if k < i {
        lemma_side_len_step(dist, off, width, k + 1, i);
    }
}

impl LineInterpolatorAA {
    /// Fills in the coverage of the pixels across the line, for a pixel on the
    /// line at the distance `s1`.
    ///
    /// Returns the number of pixels before the pixel on the line, the number
    /// behind it, and how many pixels count as reached by the line.
    fn fill_covers<R: RenderOutline>(&mut self, ren: &R, s1: i64, start: Cutoff, end: Cutoff) -> (r: (
        usize,
        usize,
        i64,
    ))
        requires
            tables_ok(old(self)@, s1 as int),
            start.bounded(),
            end.bounded(),
        ensures
            r.0 == n_before(old(self)@, s1 as int),
            r.1 == n_behind(old(self)@, s1 as int),
            r.0 < MAX_HALF_WIDTH,
            r.1 < MAX_HALF_WIDTH,
            r.2 == count_between(start, end, -(r.0 as int), r.1 as int),
            0 <= r.2 <= 2 * MAX_HALF_WIDTH,
            final(self)@ == filled(old(self)@, *ren, s1 as int, start, end),
    {
        let ghost dist = self.dist@;
        let ghost before = self.covers@;
        let ghost width = self.width as int;
        let mut p1: usize = CENTRE;
        let mut npix: i64 = 0;
        let mut v_start = start.value;
        let mut v_end = end.value;
        self.covers[p1] = 0;
        if !end.on || v_end > 0 {
            if !start.on || v_start <= 0 {
                self.covers[p1] = ren.cover(s1);
            }
            npix = npix + 1;
        }
        p1 = p1 + 1;
        let mut k: usize = 1;
        assert(count_between(start, end, 0, -1) == 0);
        assert(0 * start.step == 0 && 0 * end.step == 0);
        while self.dist[k] - s1 <= self.width
            invariant
                tables_ok(self@, s1 as int),
                start.bounded(),
                end.bounded(),
                self.dist@ == dist,
                self.width == width,
                1 <= k <= MAX_HALF_WIDTH,
                p1 == CENTRE + k,
                forall|m: int| 1 <= m < k ==> (#[trigger] dist[m]) - s1 <= width,
                v_start == start.at(k - 1),
                v_end == end.at(k - 1),
                0 <= npix == count_between(start, end, 0, k - 1) <= k,
                self.covers@ == covers_after(before, *ren, dist, s1 as int, start, end, 0, k - 1),
                self.lp == old(self).lp,
                self.li == old(self).li,
                self.len == old(self).len,
                self.x == old(self).x,
                self.y == old(self).y,
                self.old_x == old(self).old_x,
                self.old_y == old(self).old_y,
                self.count == old(self).count,
                self.max_extent == old(self).max_extent,
                self.step == old(self).step,
            decreases MAX_HALF_WIDTH - k,
        {
            proof {
                assert((k as int) * start.step == (k - 1) * start.step + start.step)
                    by (nonlinear_arith);
                assert((k as int) * end.step == (k - 1) * end.step + end.step) by (nonlinear_arith);
                lemma_cutoff_range(start, k as int);
                lemma_cutoff_range(end, k as int);
                lemma_cutoff_range(start, k - 1);
                lemma_cutoff_range(end, k - 1);
            }
            let d = self.dist[k] - s1;
            v_start = v_start + start.step;
            v_end = v_end + end.step;
            self.covers[p1] = 0;
            if (!end.on || v_end > 0) && (!start.on || v_start <= 0) {
                self.covers[p1] = ren.cover(d);
                npix = npix + 1;
            }
            assert(self.covers@ =~= covers_after(
                before,
                *ren,
                dist,
                s1 as int,
                start,
                end,
                0,
                k as int,
            ));
            p1 = p1 + 1;
            k = k + 1;
        }
        let n1: usize = k - 1;
        proof {
            lemma_side_len_step(dist, -(s1 as int), width, 1, k as int);
            assert(side_len(dist, -(s1 as int), width, k as int) == 0);
        }
        let ghost mid = self.covers@;
        let mut p0: usize = CENTRE;
        v_start = start.value;
        v_end = end.value;
        k = 1;
        while self.dist[k] + s1 <= self.width
            invariant
                tables_ok(self@, s1 as int),
                start.bounded(),
                end.bounded(),
                self.dist@ == dist,
                self.width == width,
                1 <= k <= MAX_HALF_WIDTH,
                n1 < MAX_HALF_WIDTH,
                p0 == CENTRE - (k - 1),
                forall|m: int| 1 <= m < k ==> (#[trigger] dist[m]) + s1 <= width,
                v_start == start.at(-(k - 1)),
                v_end == end.at(-(k - 1)),
                0 <= npix == count_between(start, end, -(k - 1), n1 as int) <= k + n1 + 1,
                self.covers@ == covers_after(
                    before,
                    *ren,
                    dist,
                    s1 as int,
                    start,
                    end,
                    k - 1,
                    n1 as int,
                ),
                self.lp == old(self).lp,
                self.li == old(self).li,
                self.len == old(self).len,
                self.x == old(self).x,
                self.y == old(self).y,
                self.old_x == old(self).old_x,
                self.old_y == old(self).old_y,
                self.count == old(self).count,
                self.max_extent == old(self).max_extent,
                self.step == old(self).step,
            decreases MAX_HALF_WIDTH - k,
        {
            proof {
                assert((-(k as int)) * start.step == (-(k - 1)) * start.step - start.step)
                    by (nonlinear_arith);
                assert((-(k as int)) * end.step == (-(k - 1)) * end.step - end.step)
                    by (nonlinear_arith);
                lemma_cutoff_range(start, -(k as int));
                lemma_cutoff_range(end, -(k as int));
                lemma_cutoff_range(start, -(k - 1));
                lemma_cutoff_range(end, -(k - 1));
                lemma_count_extend_down(start, end, -(k as int), n1 as int);
            }
            let d = self.dist[k] + s1;
            v_start = v_start - start.step;
            v_end = v_end - end.step;
            p0 = p0 - 1;
            self.covers[p0] = 0;
            if (!end.on || v_end > 0) && (!start.on || v_start <= 0) {
                self.covers[p0] = ren.cover(d);
                npix = npix + 1;
            }
            assert(self.covers@ =~= covers_after(
                before,
                *ren,
                dist,
                s1 as int,
                start,
                end,
                k as int,
                n1 as int,
            ));
            k = k + 1;
        }
        let n0: usize = k - 1;
        proof {
            lemma_side_len_step(dist, s1 as int, width, 1, k as int);
            assert(side_len(dist, s1 as int, width, k as int) == 0);
        }
        (n0, n1, npix)
    }
}

/// The number of pixels up to `n` places from the line, on both sides, at which
/// a value that is `value` on the line and changes by `step` from pixel to pixel
/// is negative.
pub open spec fn negatives(value: int, step: int, n: int) -> int
    decreases n,
{
    if n <= 0 {
        if value < 0 {
            1
        } else {
            0
        }
    } else {
        negatives(value, step, n - 1) + (if value + n * step < 0 {
            1int
        } else {
            0int
        }) + (if value - n * step < 0 {
            1int
        } else {
            0int
        })
    }
}

/// The number of pixels on each side of the line that are looked at while a
/// line backs off: those inside the width, and one more.
pub open spec fn looked_at(li: AAView) -> int {
    side_len(li.dist, 0, li.width as int, 1) + 1
}

/// Whether the table of distances has its size, holds distances, is ended by
/// `DIST_END`, and the width lies below `DIST_END`.
pub open spec fn dist_ok(li: AAView) -> bool {
    &&& li.dist.len() == MAX_HALF_WIDTH + 1
    &&& forall|k: int|
        0 <= k <= MAX_HALF_WIDTH ==> -0x4000_0000_0000_0000 <= #[trigger] li.dist[k]
            <= 0x4000_0000_0000_0000
    &&& li.dist[MAX_HALF_WIDTH as int] == DIST_END
    &&& li.width < DIST_END
}

impl LineInterpolatorAA {
    /// Returns the number of pixels across the line at which the distance from
    /// the start of the line is negative: such pixels lie before the start.
    fn count_negatives(&self, value: i64, step: i64) -> (npix: i64)
        requires
            dist_ok(self@),
            (Cutoff { on: true, value, step }).bounded(),
        ensures
            npix == negatives(value as int, step as int, looked_at(self@)),
            0 <= npix <= 2 * MAX_HALF_WIDTH + 1,
            1 <= looked_at(self@) <= MAX_HALF_WIDTH,
    {
        let ghost g = Cutoff { on: true, value, step };
        let mut npix: i64 = 0;
        let mut dist1 = value;
        let mut dist2 = value;
        let mut k: usize = 0;
        if dist1 < 0 {
            npix = npix + 1;
        }
        assert(0 * (step as int) == 0);
        loop
            invariant_except_break
                dist_ok(self@),
                g == (Cutoff { on: true, value, step }),
                g.bounded(),
                0 <= k < MAX_HALF_WIDTH,
                forall|m: int| 1 <= m <= k ==> (#[trigger] self.dist@[m]) <= self.width,
                dist1 == value + k * step,
                dist2 == value - k * step,
                npix == negatives(value as int, step as int, k as int),
                0 <= npix <= 2 * k + 1,
            ensures
                1 <= k <= MAX_HALF_WIDTH,
                k == looked_at(self@),
                npix == negatives(value as int, step as int, k as int),
                0 <= npix <= 2 * k + 1,
            decreases MAX_HALF_WIDTH - k,
        {
            proof {
                assert((k + 1) * step == k * step + step) by (nonlinear_arith);
                lemma_cutoff_range(g, k as int);
                lemma_cutoff_range(g, k + 1);
                lemma_cutoff_range(g, -(k as int));
                lemma_cutoff_range(g, -(k + 1));
                assert((-(k as int)) * (step as int) == -(k * step)) by (nonlinear_arith);
                assert((-(k + 1)) * (step as int) == -((k + 1) * step)) by (nonlinear_arith);
            }
            dist1 = dist1 + step;
            dist2 = dist2 - step;
            if dist1 < 0 {
                npix = npix + 1;
            }
            if dist2 < 0 {
                npix = npix + 1;
            }
            k = k + 1;
            if self.dist[k] > self.width {
                proof {
                    lemma_side_len_step(self.dist@, 0, self.width as int, 1, k as int);
                    assert(side_len(self.dist@, 0, self.width as int, k as int) == 0);
                }
                break ;
            }
        }
        npix
    }
}

/// The values of a bounded cutoff stay inside `i64` across the line.
pub proof fn lemma_cutoff_range(g: Cutoff, j: int)
    requires
        g.bounded(),
        -64 <= j <= 64,
    ensures
        -0x7000_0000_0000_0000 <= g.at(j) <= 0x7000_0000_0000_0000,
{
    assert(-64 * 0x80_0000_0000_0000 <= j * g.step <= 64 * 0x80_0000_0000_0000)
        by (nonlinear_arith)
        requires
            -64 <= j <= 64,
            -0x80_0000_0000_0000 <= g.step <= 0x80_0000_0000_0000,
    ;
}

/// One more pixel at the lower end of a range adds its own count.
pub proof fn lemma_count_extend_down(start: Cutoff, end: Cutoff, lo: int, hi: int)
    requires
        lo <= hi,
    ensures
        count_between(start, end, lo, hi) == count_between(start, end, lo + 1, hi) + (if counted(
            start,
            end,
            lo,
        ) {
            1int
        } else {
            0int
        }),
    decreases hi - lo + 1,
{
    let c = |j: int|
        if counted(start, end, j) {
            1int
        } else {
            0int
        };
    if lo <= hi {
        assert(count_between(start, end, lo, hi) == count_between(start, end, lo, hi - 1) + c(hi));
        if lo < hi {
            lemma_count_extend_down(start, end, lo, hi - 1);
            assert(count_between(start, end, lo + 1, hi) == count_between(
                start,
                end,
                lo + 1,
                hi - 1,
            ) + c(hi));
        } else {
            assert(count_between(start, end, lo, lo - 1) == 0);
            assert(count_between(start, end, lo + 1, lo) == 0);
        }
    }
}

/// The state at the start of a line: the remainders are set back by one whole
/// step, and the steps are counted from `step`.
pub open spec fn started(li: AAView, step: int) -> AAView {
    AAView {
        li: LineInterpolator { xmod: (li.li.xmod - li.li.count) as i64, ..li.li },
        step: step as i64,
        ..li
    }
}

/// The interpolator of a new line can be set back by one whole step, and its
/// width in pixels is small.
pub proof fn lemma_new_can_adjust(lp: LineParameters, width: i64)
    requires
        LineInterpolatorAA::usable(lp, width),
    ensures
        fits(
            LineInterpolatorAA::new_spec(lp, width).li.xmod - LineInterpolatorAA::new_spec(
                lp,
                width,
            ).li.count,
        ),
        -0x2_0000_0000 <= LineInterpolatorAA::new_spec(lp, width).li.xmod <= 0x2_0000_0000,
        1 <= LineInterpolatorAA::new_spec(lp, width).li.count <= 0x1_0000_0001,
        -0x1_0000_0000 <= LineInterpolatorAA::new_spec(lp, width).max_extent <= 0x1_0000_0000,
{
    let along = LineInterpolatorAA::along(lp);
    lemma_trunc_rem_bounds(LineInterpolatorAA::across(lp), if along > 1 {
        along
    } else {
        1
    });
}

/// An anti-aliased line without caps at its ends.
#[derive(Debug)]
pub struct AA0 {
    /// Follows the distance from the line.
    pub di: DistanceInterpolator1,
    /// The state along the line.
    pub li: LineInterpolatorAA,
}

impl AA0 {
    /// The cutoffs of the start and of the end of the line for a run down a column.
    pub open spec fn cutoffs_hor(di: DistanceInterpolator1) -> (Cutoff, Cutoff) {
        (Cutoff::none(), Cutoff::none())
    }

    /// The cutoffs of the start and of the end of the line for a run along a row.
    pub open spec fn cutoffs_ver(di: DistanceInterpolator1) -> (Cutoff, Cutoff) {
        (Cutoff::none(), Cutoff::none())
    }

    /// The distance from the line, divided by its length, of the pixel that a
    /// step along the horizontal axis reaches.
    pub open spec fn s1_hor(self) -> int {
        trunc_div(self.li@.di_hor(self.di).dist_spec(), self.li.len as int)
    }

    /// Whether a step along the horizontal axis can be taken: no value leaves `i64`,
    /// the length is not zero, and the tables reach across the line.
    pub open spec fn can_step_hor(self) -> bool {
        &&& self.li@.can_step_hor(self.di)
        &&& tables_ok(self.li@.moved_hor(), self.s1_hor())
        &&& Self::cutoffs_hor(self.li@.di_hor(self.di)).0.bounded()
        &&& Self::cutoffs_hor(self.li@.di_hor(self.di)).1.bounded()
        &&& fits(self.li.step + 1)
    }

    /// The state along the line after a step along the horizontal axis, with the
    /// coverage of the pixels across the line taken from `ren`.
    pub open spec fn after_hor<R: RenderOutline>(self, ren: R) -> AAView {
        AAView {
            step: (self.li.step + 1) as i64,
            ..filled(
                self.li@.moved_hor(),
                ren,
                self.s1_hor(),
                Self::cutoffs_hor(self.li@.di_hor(self.di)).0,
                Self::cutoffs_hor(self.li@.di_hor(self.di)).1,
            )
        }
    }

    /// Whether the line goes on after a step along the horizontal axis.
    pub open spec fn goes_on_hor<R: RenderOutline>(self, ren: R) -> bool {
        self.after_hor(ren).step < self.li.count
    }

    /// The distance from the line, divided by its length, of the pixel that a
    /// step along the vertical axis reaches.
    pub open spec fn s1_ver(self) -> int {
        trunc_div(self.li@.di_ver(self.di).dist_spec(), self.li.len as int)
    }

    /// Whether a step along the vertical axis can be taken: no value leaves `i64`,
    /// the length is not zero, and the tables reach across the line.
    pub open spec fn can_step_ver(self) -> bool {
        &&& self.li@.can_step_ver(self.di)
        &&& tables_ok(self.li@.moved_ver(), self.s1_ver())
        &&& Self::cutoffs_ver(self.li@.di_ver(self.di)).0.bounded()
        &&& Self::cutoffs_ver(self.li@.di_ver(self.di)).1.bounded()
        &&& fits(self.li.step + 1)
    }

    /// The state along the line after a step along the vertical axis, with the
    /// coverage of the pixels across the line taken from `ren`.
    pub open spec fn after_ver<R: RenderOutline>(self, ren: R) -> AAView {
        AAView {
            step: (self.li.step + 1) as i64,
            ..filled(
                self.li@.moved_ver(),
                ren,
                self.s1_ver(),
                Self::cutoffs_ver(self.li@.di_ver(self.di)).0,
                Self::cutoffs_ver(self.li@.di_ver(self.di)).1,
            )
        }
    }

    /// Whether the line goes on after a step along the vertical axis.
    pub open spec fn goes_on_ver<R: RenderOutline>(self, ren: R) -> bool {
        self.after_ver(ren).step < self.li.count
    }

    /// Creates the interpolator of the line `lp` with the width `subpixel_width`.
    pub fn new(lp: LineParameters, subpixel_width: i64) -> (r: Self)
        requires
            LineInterpolatorAA::usable(lp, subpixel_width),
        ensures
            r.li@ == started(LineInterpolatorAA::new_spec(lp, subpixel_width), 0),
            r.di == DistanceInterpolator1::new_spec(
                lp.x1,
                lp.y1,
                lp.x2,
                lp.y2,
                (256 * pixel_of(lp.x1 as int)) as i64,
                (256 * pixel_of(lp.y1 as int)) as i64,
            ),
    {
        let mut li = LineInterpolatorAA::new(lp, subpixel_width);
        proof {
            lemma_new_can_adjust(lp, subpixel_width);
        }
        li.li.adjust_forward();
        Self {
            li,
            di: DistanceInterpolator1::new(
                lp.x1,
                lp.y1,
                lp.x2,
                lp.y2,
                pixel_base(lp.x1),
                pixel_base(lp.y1),
            ),
        }
    }

    /// Returns the number of steps along the longer axis.
    pub fn count(&self) -> (r: i64)
        ensures
            r == self.li.count,
    {
        self.li.count
    }

    /// Reports whether the line is at least as high as it is wide.
    pub fn vertical(&self) -> (r: bool)
        ensures
            r == self.li.lp.vertical,
    {
        self.li.lp.vertical
    }

    /// Goes one pixel on along the horizontal axis and blends the run of pixels across
    /// the line down the column of the new pixel. Returns whether the line goes on.
    pub fn step_hor<R: RenderOutline>(&mut self, ren: &mut R) -> (r: bool)
        requires
            old(self).can_step_hor(),
        ensures
            final(self).di == old(self).li@.di_hor(old(self).di),
            final(self).li@ == old(self).after_hor(*old(ren)),
            final(ren).blended() == old(ren).blended().push(
                run_across(final(self).li@, old(self).s1_hor(), true, (MAX_HALF_WIDTH * 2 + 4) as int),
            ),
            forall|d: int| final(ren).cover_spec(d) == old(ren).cover_spec(d),
            r == old(self).goes_on_hor(*old(ren)),
    {
        let s1 = self.li.step_hor_base(&mut self.di);
        let start = Cutoff::off();
        let end = Cutoff::off();
        let ghost moved = self.li@;
        let (n0, n1, _npix) = self.li.fill_covers(ren, s1, start, end);
        let p0: usize = CENTRE - n0;
        proof {
            assert(n_before(self.li@, s1 as int) == n_before(moved, s1 as int));
            assert(n_behind(self.li@, s1 as int) == n_behind(moved, s1 as int));
        }
        ren.blend_solid_vspan(
            self.li.x, self.li.y - (n0 as i64 + 1) + 1,
            (n1 + n0 + 1) as i64,
            vstd::slice::slice_subrange(self.li.covers.as_slice(), p0, self.li.covers.len()),
        );
        self.li.step += 1;
        self.li.step < self.li.count
    }

    /// Goes one pixel on along the vertical axis and blends the run of pixels across
    /// the line along the row of the new pixel. Returns whether the line goes on.
    pub fn step_ver<R: RenderOutline>(&mut self, ren: &mut R) -> (r: bool)
        requires
            old(self).can_step_ver(),
        ensures
            final(self).di == old(self).li@.di_ver(old(self).di),
            final(self).li@ == old(self).after_ver(*old(ren)),
            final(ren).blended() == old(ren).blended().push(
                run_across(final(self).li@, old(self).s1_ver(), false, (MAX_HALF_WIDTH * 2 + 4) as int),
            ),
            forall|d: int| final(ren).cover_spec(d) == old(ren).cover_spec(d),
            r == old(self).goes_on_ver(*old(ren)),
    {
        let s1 = self.li.step_ver_base(&mut self.di);
        let start = Cutoff::off();
        let end = Cutoff::off();
        let ghost moved = self.li@;
        let (n0, n1, _npix) = self.li.fill_covers(ren, s1, start, end);
        let p0: usize = CENTRE - n0;
        proof {
            assert(n_before(self.li@, s1 as int) == n_before(moved, s1 as int));
            assert(n_behind(self.li@, s1 as int) == n_behind(moved, s1 as int));
        }
        ren.blend_solid_hspan(
            self.li.x - (n0 as i64 + 1) + 1, self.li.y,
            (n1 + n0 + 1) as i64,
            vstd::slice::slice_subrange(self.li.covers.as_slice(), p0, self.li.covers.len()),
        );
        self.li.step += 1;
        self.li.step < self.li.count
    }
}

/// An anti-aliased line that is cut off at its start.
#[derive(Debug)]
pub struct AA1 {
    /// Follows the distance from the line.
    pub di: DistanceInterpolator2,
    /// The state along the line.
    pub li: LineInterpolatorAA,
}

impl AA1 {
    /// The cutoffs of the start and of the end of the line for a run down a column.
    pub open spec fn cutoffs_hor(di: DistanceInterpolator2) -> (Cutoff, Cutoff) {
        ((Cutoff { on: true, value: di.dist_start, step: (-di.dx_start) as i64 }), Cutoff::none())
    }

    /// The cutoffs of the start and of the end of the line for a run along a row.
    pub open spec fn cutoffs_ver(di: DistanceInterpolator2) -> (Cutoff, Cutoff) {
        ((Cutoff { on: true, value: di.dist_start, step: di.dy_start }), Cutoff::none())
    }

    /// How many pixels across the line lie before its start.
    pub open spec fn before_start(v: AAView, d: DistanceInterpolator2) -> int {
        negatives(d.dist_start as int, if v.lp.vertical {
            d.dy_start as int
        } else {
            -(d.dx_start as int)
        }, looked_at(v))
    }

    /// The state and the distances one pixel back along the longer axis.
    pub open spec fn backed_once(v: AAView, d: DistanceInterpolator2) -> (AAView, DistanceInterpolator2) {
        if v.lp.vertical {
            (v.backed_ver(), v.di_back_ver(d))
        } else {
            (v.backed_hor(), v.di_back_hor(d))
        }
    }

    /// The state and the distances after the line has backed off from its start.
    ///
    /// The line goes back pixel by pixel and counts the pixels across it that lie
    /// before its start, `npix` more for the first step. It stops where there is
    /// none, or when it has gone back further than the width of the line.
    pub open spec fn backed(v: AAView, d: DistanceInterpolator2, npix: int) -> (AAView, DistanceInterpolator2)
        decreases v.step - i64::MIN,
    {
        let (v1, d1) = Self::backed_once(v, d);
        let np = npix + Self::before_start(v1, d1);
        let v2 = AAView { step: (v1.step - 1) as i64, ..v1 };
        if np == 0 || v2.step < -v2.max_extent || v.step <= i64::MIN + 1 {
            (v2, d1)
        } else {
            Self::backed(v2, d1, 0)
        }
    }

    /// Whether the line can back off from its start: in every step back no value
    /// leaves `i64`, and the table of distances reaches across the line.
    pub open spec fn can_back(v: AAView, d: DistanceInterpolator2, npix: int) -> bool
        decreases v.step - i64::MIN,
    {
        let (v1, d1) = Self::backed_once(v, d);
        let np = npix + Self::before_start(v1, d1);
        let v2 = AAView { step: (v1.step - 1) as i64, ..v1 };
        &&& dist_ok(v)
        &&& fits(-v.max_extent)
        &&& if v.lp.vertical {
            v.can_back_ver(d)
        } else {
            v.can_back_hor(d)
        }
        &&& fits(-d1.dx_start)
        &&& (Cutoff {
            on: true,
            value: d1.dist_start,
            step: if v.lp.vertical {
                d1.dy_start
            } else {
                (-d1.dx_start) as i64
            },
        }).bounded()
        &&& fits(v1.step - 1)
        &&& (np == 0 || v2.step < -v2.max_extent || v.step <= i64::MIN + 1 || Self::can_back(
            v2,
            d1,
            0,
        ))
    }

    /// Whether the line can be finished after it has backed off: the remainders
    /// of its steps can be set back by one whole step.
    pub open spec fn can_finish(v: AAView) -> bool {
        fits(v.li.xmod - v.li.count)
    }

    /// Creates the interpolator of the line `lp` with the width
    /// `subpixel_width`, cut off at its start by the line to `(sx, sy)`.
    pub fn new(lp: LineParameters, sx: i64, sy: i64, subpixel_width: i64) -> (r: Self)
        requires
            LineInterpolatorAA::usable(lp, subpixel_width),
            coord_ok(sx as int),
            coord_ok(sy as int),
            Self::can_back(
                LineInterpolatorAA::new_spec(lp, subpixel_width),
                DistanceInterpolator2::new_spec(
                    lp.x1,
                    lp.y1,
                    lp.x2,
                    lp.y2,
                    sx,
                    sy,
                    (256 * pixel_of(lp.x1 as int)) as i64,
                    (256 * pixel_of(lp.y1 as int)) as i64,
                    true,
                ),
                1,
            ),
            Self::can_finish(
                Self::backed(
                    LineInterpolatorAA::new_spec(lp, subpixel_width),
                    DistanceInterpolator2::new_spec(
                        lp.x1,
                        lp.y1,
                        lp.x2,
                        lp.y2,
                        sx,
                        sy,
                        (256 * pixel_of(lp.x1 as int)) as i64,
                        (256 * pixel_of(lp.y1 as int)) as i64,
                        true,
                    ),
                    1,
                ).0,
            ),
        ensures
            ({
                let b = Self::backed(
                    LineInterpolatorAA::new_spec(lp, subpixel_width),
                    DistanceInterpolator2::new_spec(
                    lp.x1,
                    lp.y1,
                    lp.x2,
                    lp.y2,
                    sx,
                    sy,
                    (256 * pixel_of(lp.x1 as int)) as i64,
                    (256 * pixel_of(lp.y1 as int)) as i64,
                    true,
                ),
                    1,
                );
                r.li@ == started(b.0, b.0.step as int) && r.di == b.1
            }),
    {
        let mut li = LineInterpolatorAA::new(lp, subpixel_width);
        let mut di = DistanceInterpolator2::new(
            lp.x1,
            lp.y1,
            lp.x2,
            lp.y2,
            sx,
            sy,
            pixel_base(lp.x1),
            pixel_base(lp.y1),
            true,
        );
        let ghost v0 = li@;
        let ghost d0 = di;
        let mut npix: i64 = 1;
        if lp.vertical {
            loop
                invariant_except_break
                    lp.vertical == true,
                    li@.lp == lp,
                    0 <= npix <= 1,
                    Self::can_back(li@, di, npix as int),
                    Self::backed(v0, d0, 1) == Self::backed(li@, di, npix as int),
                ensures
                    (li@, di) == Self::backed(v0, d0, 1),
                decreases li.step - i64::MIN,
            {
                li.back_ver(&mut di);
                npix = npix + li.count_negatives(di.dist_start, di.dy_start);
                li.step -= 1;
                if npix == 0 {
                    break ;
                }
                npix = 0;
                if li.step < -li.max_extent {
                    break ;
                }
            }
        } else {
            loop
                invariant_except_break
                    lp.vertical == false,
                    li@.lp == lp,
                    0 <= npix <= 1,
                    Self::can_back(li@, di, npix as int),
                    Self::backed(v0, d0, 1) == Self::backed(li@, di, npix as int),
                ensures
                    (li@, di) == Self::backed(v0, d0, 1),
                decreases li.step - i64::MIN,
            {
                li.back_hor(&mut di);
                npix = npix + li.count_negatives(di.dist_start, -di.dx_start);
                li.step -= 1;
                if npix == 0 {
                    break ;
                }
                npix = 0;
                if li.step < -li.max_extent {
                    break ;
                }
            }
        }
        li.li.adjust_forward();
        Self { li, di }
    }

    /// The distance from the line, divided by its length, of the pixel that a
    /// step along the horizontal axis reaches.
    pub open spec fn s1_hor(self) -> int {
        trunc_div(self.li@.di_hor(self.di).dist_spec(), self.li.len as int)
    }

    /// Whether a step along the horizontal axis can be taken: no value leaves `i64`,
    /// the length is not zero, and the tables reach across the line.
    pub open spec fn can_step_hor(self) -> bool {
        &&& self.li@.can_step_hor(self.di)
        &&& tables_ok(self.li@.moved_hor(), self.s1_hor())
        &&& Self::cutoffs_hor(self.li@.di_hor(self.di)).0.bounded()
        &&& Self::cutoffs_hor(self.li@.di_hor(self.di)).1.bounded()
        &&& self.li@.di_hor(self.di).dx_start > i64::MIN
        &&& fits(self.li.step + 1)
    }

    /// The state along the line after a step along the horizontal axis, with the
    /// coverage of the pixels across the line taken from `ren`.
    pub open spec fn after_hor<R: RenderOutline>(self, ren: R) -> AAView {
        AAView {
            step: (self.li.step + 1) as i64,
            ..filled(
                self.li@.moved_hor(),
                ren,
                self.s1_hor(),
                Self::cutoffs_hor(self.li@.di_hor(self.di)).0,
                Self::cutoffs_hor(self.li@.di_hor(self.di)).1,
            )
        }
    }

    /// Whether the line goes on after a step along the horizontal axis.
    pub open spec fn goes_on_hor<R: RenderOutline>(self, ren: R) -> bool {
        self.after_hor(ren).step < self.li.count
    }

    /// The distance from the line, divided by its length, of the pixel that a
    /// step along the vertical axis reaches.
    pub open spec fn s1_ver(self) -> int {
        trunc_div(self.li@.di_ver(self.di).dist_spec(), self.li.len as int)
    }

    /// Whether a step along the vertical axis can be taken: no value leaves `i64`,
    /// the length is not zero, and the tables reach across the line.
    pub open spec fn can_step_ver(self) -> bool {
        &&& self.li@.can_step_ver(self.di)
        &&& tables_ok(self.li@.moved_ver(), self.s1_ver())
        &&& Self::cutoffs_ver(self.li@.di_ver(self.di)).0.bounded()
        &&& Self::cutoffs_ver(self.li@.di_ver(self.di)).1.bounded()
        &&& fits(self.li.step + 1)
    }

    /// The state along the line after a step along the vertical axis, with the
    /// coverage of the pixels across the line taken from `ren`.
    pub open spec fn after_ver<R: RenderOutline>(self, ren: R) -> AAView {
        AAView {
            step: (self.li.step + 1) as i64,
            ..filled(
                self.li@.moved_ver(),
                ren,
                self.s1_ver(),
                Self::cutoffs_ver(self.li@.di_ver(self.di)).0,
                Self::cutoffs_ver(self.li@.di_ver(self.di)).1,
            )
        }
    }

    /// Whether the line goes on after a step along the vertical axis.
    pub open spec fn goes_on_ver<R: RenderOutline>(self, ren: R) -> bool {
        self.after_ver(ren).step < self.li.count
    }

    /// Reports whether the line is at least as high as it is wide.
    pub fn vertical(&self) -> (r: bool)
        ensures
            r == self.li.lp.vertical,
    {
        self.li.lp.vertical
    }

    /// Goes one pixel on along the horizontal axis and blends the run of pixels across
    /// the line down the column of the new pixel. Returns whether the line goes on.
    pub fn step_hor<R: RenderOutline>(&mut self, ren: &mut R) -> (r: bool)
        requires
            old(self).can_step_hor(),
        ensures
            final(self).di == old(self).li@.di_hor(old(self).di),
            final(self).li@ == old(self).after_hor(*old(ren)),
            final(ren).blended() == old(ren).blended().push(
                run_across(final(self).li@, old(self).s1_hor(), true, (MAX_HALF_WIDTH * 2 + 4) as int),
            ),
            forall|d: int| final(ren).cover_spec(d) == old(ren).cover_spec(d),
            r == old(self).goes_on_hor(*old(ren)),
    {
        let s1 = self.li.step_hor_base(&mut self.di);
        let start = Cutoff::with(self.di.dist_start, -self.di.dx_start);
        let end = Cutoff::off();
        let ghost moved = self.li@;
        let (n0, n1, _npix) = self.li.fill_covers(ren, s1, start, end);
        let p0: usize = CENTRE - n0;
        proof {
            assert(n_before(self.li@, s1 as int) == n_before(moved, s1 as int));
            assert(n_behind(self.li@, s1 as int) == n_behind(moved, s1 as int));
        }
        ren.blend_solid_vspan(
            self.li.x, self.li.y - (n0 as i64 + 1) + 1,
            (n1 + n0 + 1) as i64,
            vstd::slice::slice_subrange(self.li.covers.as_slice(), p0, self.li.covers.len()),
        );
        self.li.step += 1;
        self.li.step < self.li.count
    }

    /// Goes one pixel on along the vertical axis and blends the run of pixels across
    /// the line along the row of the new pixel. Returns whether the line goes on.
    pub fn step_ver<R: RenderOutline>(&mut self, ren: &mut R) -> (r: bool)
        requires
            old(self).can_step_ver(),
        ensures
            final(self).di == old(self).li@.di_ver(old(self).di),
            final(self).li@ == old(self).after_ver(*old(ren)),
            final(ren).blended() == old(ren).blended().push(
                run_across(final(self).li@, old(self).s1_ver(), false, (MAX_HALF_WIDTH * 2 + 4) as int),
            ),
            forall|d: int| final(ren).cover_spec(d) == old(ren).cover_spec(d),
            r == old(self).goes_on_ver(*old(ren)),
    {
        let s1 = self.li.step_ver_base(&mut self.di);
        let start = Cutoff::with(self.di.dist_start, self.di.dy_start);
        let end = Cutoff::off();
        let ghost moved = self.li@;
        let (n0, n1, _npix) = self.li.fill_covers(ren, s1, start, end);
        let p0: usize = CENTRE - n0;
        proof {
            assert(n_before(self.li@, s1 as int) == n_before(moved, s1 as int));
            assert(n_behind(self.li@, s1 as int) == n_behind(moved, s1 as int));
        }
        ren.blend_solid_hspan(
            self.li.x - (n0 as i64 + 1) + 1, self.li.y,
            (n1 + n0 + 1) as i64,
            vstd::slice::slice_subrange(self.li.covers.as_slice(), p0, self.li.covers.len()),
        );
        self.li.step += 1;
        self.li.step < self.li.count
    }
}

/// An anti-aliased line that is cut off at its end.
#[derive(Debug)]
pub struct AA2 {
    /// Follows the distance from the line.
    pub di: DistanceInterpolator2,
    /// The state along the line.
    pub li: LineInterpolatorAA,
}

impl AA2 {
    /// The cutoffs of the start and of the end of the line for a run down a column.
    pub open spec fn cutoffs_hor(di: DistanceInterpolator2) -> (Cutoff, Cutoff) {
        (Cutoff::none(), (Cutoff { on: true, value: di.dist_start, step: (-di.dx_start) as i64 }))
    }

    /// The cutoffs of the start and of the end of the line for a run along a row.
    pub open spec fn cutoffs_ver(di: DistanceInterpolator2) -> (Cutoff, Cutoff) {
        (Cutoff::none(), (Cutoff { on: true, value: di.dist_start, step: di.dy_start }))
    }

    /// Creates the interpolator of the line `lp` with the width
    /// `subpixel_width`, cut off at its end by the line to `(ex, ey)`.
    pub fn new(lp: LineParameters, ex: i64, ey: i64, subpixel_width: i64) -> (r: Self)
        requires
            LineInterpolatorAA::usable(lp, subpixel_width),
            coord_ok(ex as int),
            coord_ok(ey as int),
        ensures
            r.li@ == started(
                LineInterpolatorAA::new_spec(lp, subpixel_width),
                -LineInterpolatorAA::new_spec(lp, subpixel_width).max_extent,
            ),
            r.di == DistanceInterpolator2::new_spec(
                lp.x1,
                lp.y1,
                lp.x2,
                lp.y2,
                ex,
                ey,
                (256 * pixel_of(lp.x1 as int)) as i64,
                (256 * pixel_of(lp.y1 as int)) as i64,
                false,
            ),
    {
        let mut li = LineInterpolatorAA::new(lp, subpixel_width);
        let di = DistanceInterpolator2::new(
            lp.x1,
            lp.y1,
            lp.x2,
            lp.y2,
            ex,
            ey,
            pixel_base(lp.x1),
            pixel_base(lp.y1),
            false,
        );
        proof {
            lemma_new_can_adjust(lp, subpixel_width);
        }
        li.li.adjust_forward();
        li.step -= li.max_extent;
        Self { li, di }
    }

    /// The distance from the line, divided by its length, of the pixel that a
    /// step along the horizontal axis reaches.
    pub open spec fn s1_hor(self) -> int {
        trunc_div(self.li@.di_hor(self.di).dist_spec(), self.li.len as int)
    }

    /// Whether a step along the horizontal axis can be taken: no value leaves `i64`,
    /// the length is not zero, and the tables reach across the line.
    pub open spec fn can_step_hor(self) -> bool {
        &&& self.li@.can_step_hor(self.di)
        &&& tables_ok(self.li@.moved_hor(), self.s1_hor())
        &&& Self::cutoffs_hor(self.li@.di_hor(self.di)).0.bounded()
        &&& Self::cutoffs_hor(self.li@.di_hor(self.di)).1.bounded()
        &&& self.li@.di_hor(self.di).dx_start > i64::MIN
        &&& fits(self.li.step + 1)
    }

    /// The state along the line after a step along the horizontal axis, with the
    /// coverage of the pixels across the line taken from `ren`.
    pub open spec fn after_hor<R: RenderOutline>(self, ren: R) -> AAView {
        AAView {
            step: (self.li.step + 1) as i64,
            ..filled(
                self.li@.moved_hor(),
                ren,
                self.s1_hor(),
                Self::cutoffs_hor(self.li@.di_hor(self.di)).0,
                Self::cutoffs_hor(self.li@.di_hor(self.di)).1,
            )
        }
    }

    /// Whether the line goes on after a step along the horizontal axis.
    pub open spec fn goes_on_hor<R: RenderOutline>(self, ren: R) -> bool {
        reached(
            self.li@.moved_hor(),
            self.s1_hor(),
            Self::cutoffs_hor(self.li@.di_hor(self.di)).0,
            Self::cutoffs_hor(self.li@.di_hor(self.di)).1,
        ) != 0 && self.after_hor(ren).step < self.li.count
    }

    /// The distance from the line, divided by its length, of the pixel that a
    /// step along the vertical axis reaches.
    pub open spec fn s1_ver(self) -> int {
        trunc_div(self.li@.di_ver(self.di).dist_spec(), self.li.len as int)
    }

    /// Whether a step along the vertical axis can be taken: no value leaves `i64`,
    /// the length is not zero, and the tables reach across the line.
    pub open spec fn can_step_ver(self) -> bool {
        &&& self.li@.can_step_ver(self.di)
        &&& tables_ok(self.li@.moved_ver(), self.s1_ver())
        &&& Self::cutoffs_ver(self.li@.di_ver(self.di)).0.bounded()
        &&& Self::cutoffs_ver(self.li@.di_ver(self.di)).1.bounded()
        &&& fits(self.li.step + 1)
    }

    /// The state along the line after a step along the vertical axis, with the
    /// coverage of the pixels across the line taken from `ren`.
    pub open spec fn after_ver<R: RenderOutline>(self, ren: R) -> AAView {
        AAView {
            step: (self.li.step + 1) as i64,
            ..filled(
                self.li@.moved_ver(),
                ren,
                self.s1_ver(),
                Self::cutoffs_ver(self.li@.di_ver(self.di)).0,
                Self::cutoffs_ver(self.li@.di_ver(self.di)).1,
            )
        }
    }

    /// Whether the line goes on after a step along the vertical axis.
    pub open spec fn goes_on_ver<R: RenderOutline>(self, ren: R) -> bool {
        reached(
            self.li@.moved_ver(),
            self.s1_ver(),
            Self::cutoffs_ver(self.li@.di_ver(self.di)).0,
            Self::cutoffs_ver(self.li@.di_ver(self.di)).1,
        ) != 0 && self.after_ver(ren).step < self.li.count
    }

    /// Reports whether the line is at least as high as it is wide.
    pub fn vertical(&self) -> (r: bool)
        ensures
            r == self.li.lp.vertical,
    {
        self.li.lp.vertical
    }

    /// Goes one pixel on along the horizontal axis and blends the run of pixels across
    /// the line down the column of the new pixel. Returns whether the line goes on.
    pub fn step_hor<R: RenderOutline>(&mut self, ren: &mut R) -> (r: bool)
        requires
            old(self).can_step_hor(),
        ensures
            final(self).di == old(self).li@.di_hor(old(self).di),
            final(self).li@ == old(self).after_hor(*old(ren)),
            final(ren).blended() == old(ren).blended().push(
                run_across(final(self).li@, old(self).s1_hor(), true, (MAX_HALF_WIDTH * 2 + 4) as int),
            ),
            forall|d: int| final(ren).cover_spec(d) == old(ren).cover_spec(d),
            r == old(self).goes_on_hor(*old(ren)),
    {
        let s1 = self.li.step_hor_base(&mut self.di);
        let start = Cutoff::off();
        let end = Cutoff::with(self.di.dist_start, -self.di.dx_start);
        let ghost moved = self.li@;
        let (n0, n1, npix) = self.li.fill_covers(ren, s1, start, end);
        let p0: usize = CENTRE - n0;
        proof {
            assert(n_before(self.li@, s1 as int) == n_before(moved, s1 as int));
            assert(n_behind(self.li@, s1 as int) == n_behind(moved, s1 as int));
        }
        ren.blend_solid_vspan(
            self.li.x, self.li.y - (n0 as i64 + 1) + 1,
            (n1 + n0 + 1) as i64,
            vstd::slice::slice_subrange(self.li.covers.as_slice(), p0, self.li.covers.len()),
        );
        self.li.step += 1;
        npix != 0 && self.li.step < self.li.count
    }

    /// Goes one pixel on along the vertical axis and blends the run of pixels across
    /// the line along the row of the new pixel. Returns whether the line goes on.
    pub fn step_ver<R: RenderOutline>(&mut self, ren: &mut R) -> (r: bool)
        requires
            old(self).can_step_ver(),
        ensures
            final(self).di == old(self).li@.di_ver(old(self).di),
            final(self).li@ == old(self).after_ver(*old(ren)),
            final(ren).blended() == old(ren).blended().push(
                run_across(final(self).li@, old(self).s1_ver(), false, (MAX_HALF_WIDTH * 2 + 4) as int),
            ),
            forall|d: int| final(ren).cover_spec(d) == old(ren).cover_spec(d),
            r == old(self).goes_on_ver(*old(ren)),
    {
        let s1 = self.li.step_ver_base(&mut self.di);
        let start = Cutoff::off();
        let end = Cutoff::with(self.di.dist_start, self.di.dy_start);
        let ghost moved = self.li@;
        let (n0, n1, npix) = self.li.fill_covers(ren, s1, start, end);
        let p0: usize = CENTRE - n0;
        proof {
            assert(n_before(self.li@, s1 as int) == n_before(moved, s1 as int));
            assert(n_behind(self.li@, s1 as int) == n_behind(moved, s1 as int));
        }
        ren.blend_solid_hspan(
            self.li.x - (n0 as i64 + 1) + 1, self.li.y,
            (n1 + n0 + 1) as i64,
            vstd::slice::slice_subrange(self.li.covers.as_slice(), p0, self.li.covers.len()),
        );
        self.li.step += 1;
        npix != 0 && self.li.step < self.li.count
    }
}

/// An anti-aliased line that is cut off at both ends.
#[derive(Debug)]
pub struct AA3 {
    /// Follows the distance from the line.
    pub di: DistanceInterpolator3,
    /// The state along the line.
    pub li: LineInterpolatorAA,
}

impl AA3 {
    /// The cutoffs of the start and of the end of the line for a run down a column.
    pub open spec fn cutoffs_hor(di: DistanceInterpolator3) -> (Cutoff, Cutoff) {
        (
            (Cutoff { on: true, value: di.dist_start, step: (-di.dx_start) as i64 }),
            (Cutoff { on: true, value: di.dist_end, step: (-di.dx_end) as i64 }),
        )
    }

    /// The cutoffs of the start and of the end of the line for a run along a row.
    pub open spec fn cutoffs_ver(di: DistanceInterpolator3) -> (Cutoff, Cutoff) {
        (
            (Cutoff { on: true, value: di.dist_start, step: di.dy_start }),
            (Cutoff { on: true, value: di.dist_end, step: di.dy_end }),
        )
    }

    /// How many pixels across the line lie before its start.
    pub open spec fn before_start(v: AAView, d: DistanceInterpolator3) -> int {
        negatives(d.dist_start as int, if v.lp.vertical {
            d.dy_start as int
        } else {
            -(d.dx_start as int)
        }, looked_at(v))
    }

    /// The state and the distances one pixel back along the longer axis.
    pub open spec fn backed_once(v: AAView, d: DistanceInterpolator3) -> (AAView, DistanceInterpolator3) {
        if v.lp.vertical {
            (v.backed_ver(), v.di_back_ver(d))
        } else {
            (v.backed_hor(), v.di_back_hor(d))
        }
    }

    /// The state and the distances after the line has backed off from its start.
    ///
    /// The line goes back pixel by pixel and counts the pixels across it that lie
    /// before its start, `npix` more for the first step. It stops where there is
    /// none, or when it has gone back further than the width of the line.
    pub open spec fn backed(v: AAView, d: DistanceInterpolator3, npix: int) -> (AAView, DistanceInterpolator3)
        decreases v.step - i64::MIN,
    {
        let (v1, d1) = Self::backed_once(v, d);
        let np = npix + Self::before_start(v1, d1);
        let v2 = AAView { step: (v1.step - 1) as i64, ..v1 };
        if np == 0 {
            (v1, d1)
        } else if v2.step < -v2.max_extent || v.step <= i64::MIN + 1 {
            (v2, d1)
        } else {
            Self::backed(v2, d1, 0)
        }
    }

    /// Whether the line can back off from its start: in every step back no value
    /// leaves `i64`, and the table of distances reaches across the line.
    pub open spec fn can_back(v: AAView, d: DistanceInterpolator3, npix: int) -> bool
        decreases v.step - i64::MIN,
    {
        let (v1, d1) = Self::backed_once(v, d);
        let np = npix + Self::before_start(v1, d1);
        let v2 = AAView { step: (v1.step - 1) as i64, ..v1 };
        &&& dist_ok(v)
        &&& fits(-v.max_extent)
        &&& if v.lp.vertical {
            v.can_back_ver(d)
        } else {
            v.can_back_hor(d)
        }
        &&& fits(-d1.dx_start)
        &&& (Cutoff {
            on: true,
            value: d1.dist_start,
            step: if v.lp.vertical {
                d1.dy_start
            } else {
                (-d1.dx_start) as i64
            },
        }).bounded()
        &&& fits(v1.step - 1)
        &&& (np == 0 || v2.step < -v2.max_extent || v.step <= i64::MIN + 1 || Self::can_back(
            v2,
            d1,
            0,
        ))
    }

    /// Whether the line can be finished after it has backed off: the remainders
    /// of its steps can be set back by one whole step, and its steps be counted from the width of the line.
    pub open spec fn can_finish(v: AAView) -> bool {
        fits(v.li.xmod - v.li.count) && fits(v.step - v.max_extent)
    }

    /// Creates the interpolator of the line `lp` with the width
    /// `subpixel_width`, cut off at its start by the line to `(sx, sy)` and at
    /// its end by the line to `(ex, ey)`.
    #[verifier::rlimit(60)]
    pub fn new(
        lp: LineParameters,
        sx: i64,
        sy: i64,
        ex: i64,
        ey: i64,
        subpixel_width: i64,
    ) -> (r: Self)
        requires
            LineInterpolatorAA::usable(lp, subpixel_width),
            coord_ok(sx as int),
            coord_ok(sy as int),
            coord_ok(ex as int),
            coord_ok(ey as int),
            Self::can_back(
                LineInterpolatorAA::new_spec(lp, subpixel_width),
                DistanceInterpolator3::new_spec(
                    lp.x1,
                    lp.y1,
                    lp.x2,
                    lp.y2,
                    sx,
                    sy,
                    ex,
                    ey,
                    (256 * pixel_of(lp.x1 as int)) as i64,
                    (256 * pixel_of(lp.y1 as int)) as i64,
                ),
                1,
            ),
            Self::can_finish(
                Self::backed(
                    LineInterpolatorAA::new_spec(lp, subpixel_width),
                    DistanceInterpolator3::new_spec(
                        lp.x1,
                        lp.y1,
                        lp.x2,
                        lp.y2,
                        sx,
                        sy,
                        ex,
                        ey,
                        (256 * pixel_of(lp.x1 as int)) as i64,
                        (256 * pixel_of(lp.y1 as int)) as i64,
                    ),
                    1,
                ).0,
            ),
        ensures
            ({
                let b = Self::backed(
                    LineInterpolatorAA::new_spec(lp, subpixel_width),
                    DistanceInterpolator3::new_spec(
                    lp.x1,
                    lp.y1,
                    lp.x2,
                    lp.y2,
                    sx,
                    sy,
                    ex,
                    ey,
                    (256 * pixel_of(lp.x1 as int)) as i64,
                    (256 * pixel_of(lp.y1 as int)) as i64,
                ),
                    1,
                );
                r.li@ == started(b.0, b.0.step - b.0.max_extent) && r.di == b.1
            }),
    {
        let mut li = LineInterpolatorAA::new(lp, subpixel_width);
        let mut di = DistanceInterpolator3::new(
            lp.x1,
            lp.y1,
            lp.x2,
            lp.y2,
            sx,
            sy,
            ex,
            ey,
            pixel_base(lp.x1),
            pixel_base(lp.y1),
        );
        let ghost v0 = li@;
        let ghost d0 = di;
        let mut npix: i64 = 1;
        if lp.vertical {
            loop
                invariant_except_break
                    lp.vertical == true,
                    li@.lp == lp,
                    0 <= npix <= 1,
                    Self::can_back(li@, di, npix as int),
                    Self::backed(v0, d0, 1) == Self::backed(li@, di, npix as int),
                ensures
                    (li@, di) == Self::backed(v0, d0, 1),
                decreases li.step - i64::MIN,
            {
                li.back_ver(&mut di);
                npix = npix + li.count_negatives(di.dist_start, di.dy_start);
                if npix == 0 {
                    break ;
                }
                npix = 0;
                li.step -= 1;
                if li.step < -li.max_extent {
                    break ;
                }
            }
        } else {
            loop
                invariant_except_break
                    lp.vertical == false,
                    li@.lp == lp,
                    0 <= npix <= 1,
                    Self::can_back(li@, di, npix as int),
                    Self::backed(v0, d0, 1) == Self::backed(li@, di, npix as int),
                ensures
                    (li@, di) == Self::backed(v0, d0, 1),
                decreases li.step - i64::MIN,
            {
                li.back_hor(&mut di);
                npix = npix + li.count_negatives(di.dist_start, -di.dx_start);
                if npix == 0 {
                    break ;
                }
                npix = 0;
                li.step -= 1;
                if li.step < -li.max_extent {
                    break ;
                }
            }
        }
        li.li.adjust_forward();
        li.step -= li.max_extent;
        Self { li, di }
    }

    /// The distance from the line, divided by its length, of the pixel that a
    /// step along the horizontal axis reaches.
    pub open spec fn s1_hor(self) -> int {
        trunc_div(self.li@.di_hor(self.di).dist_spec(), self.li.len as int)
    }

    /// Whether a step along the horizontal axis can be taken: no value leaves `i64`,
    /// the length is not zero, and the tables reach across the line.
    pub open spec fn can_step_hor(self) -> bool {
        &&& self.li@.can_step_hor(self.di)
        &&& tables_ok(self.li@.moved_hor(), self.s1_hor())
        &&& Self::cutoffs_hor(self.li@.di_hor(self.di)).0.bounded()
        &&& Self::cutoffs_hor(self.li@.di_hor(self.di)).1.bounded()
        &&& self.li@.di_hor(self.di).dx_start > i64::MIN
        &&& self.li@.di_hor(self.di).dx_end > i64::MIN
        &&& fits(self.li.step - 1)
        &&& n_before(self.li@.moved_hor(), self.s1_hor()) == 0
    }

    /// The state along the line after a step along the horizontal axis, with the
    /// coverage of the pixels across the line taken from `ren`.
    pub open spec fn after_hor<R: RenderOutline>(self, ren: R) -> AAView {
        AAView {
            step: (self.li.step - 1) as i64,
            ..filled(
                self.li@.moved_hor(),
                ren,
                self.s1_hor(),
                Self::cutoffs_hor(self.li@.di_hor(self.di)).0,
                Self::cutoffs_hor(self.li@.di_hor(self.di)).1,
            )
        }
    }

    /// Whether the line goes on after a step along the horizontal axis.
    pub open spec fn goes_on_hor<R: RenderOutline>(self, ren: R) -> bool {
        reached(
            self.li@.moved_hor(),
            self.s1_hor(),
            Self::cutoffs_hor(self.li@.di_hor(self.di)).0,
            Self::cutoffs_hor(self.li@.di_hor(self.di)).1,
        ) != 0 && self.after_hor(ren).step < self.li.count
    }

    /// The distance from the line, divided by its length, of the pixel that a
    /// step along the vertical axis reaches.
    pub open spec fn s1_ver(self) -> int {
        trunc_div(self.li@.di_ver(self.di).dist_spec(), self.li.len as int)
    }

    /// Whether a step along the vertical axis can be taken: no value leaves `i64`,
    /// the length is not zero, and the tables reach across the line.
    pub open spec fn can_step_ver(self) -> bool {
        &&& self.li@.can_step_ver(self.di)
        &&& tables_ok(self.li@.moved_ver(), self.s1_ver())
        &&& Self::cutoffs_ver(self.li@.di_ver(self.di)).0.bounded()
        &&& Self::cutoffs_ver(self.li@.di_ver(self.di)).1.bounded()
        &&& fits(self.li.step - 1)
    }

    /// The state along the line after a step along the vertical axis, with the
    /// coverage of the pixels across the line taken from `ren`.
    pub open spec fn after_ver<R: RenderOutline>(self, ren: R) -> AAView {
        AAView {
            step: (self.li.step - 1) as i64,
            ..filled(
                self.li@.moved_ver(),
                ren,
                self.s1_ver(),
                Self::cutoffs_ver(self.li@.di_ver(self.di)).0,
                Self::cutoffs_ver(self.li@.di_ver(self.di)).1,
            )
        }
    }

    /// Whether the line goes on after a step along the vertical axis.
    pub open spec fn goes_on_ver<R: RenderOutline>(self, ren: R) -> bool {
        reached(
            self.li@.moved_ver(),
            self.s1_ver(),
            Self::cutoffs_ver(self.li@.di_ver(self.di)).0,
            Self::cutoffs_ver(self.li@.di_ver(self.di)).1,
        ) != 0 && self.after_ver(ren).step < self.li.count
    }

    /// Reports whether the line is at least as high as it is wide.
    pub fn vertical(&self) -> (r: bool)
        ensures
            r == self.li.lp.vertical,
    {
        self.li.lp.vertical
    }

    /// Goes one pixel on along the horizontal axis and blends the run of pixels across
    /// the line down the column of the new pixel. Returns whether the line goes on.
    pub fn step_hor<R: RenderOutline>(&mut self, ren: &mut R) -> (r: bool)
        requires
            old(self).can_step_hor(),
        ensures
            final(self).di == old(self).li@.di_hor(old(self).di),
            final(self).li@ == old(self).after_hor(*old(ren)),
            final(ren).blended() == old(ren).blended().push(
                run_across(final(self).li@, old(self).s1_hor(), true, (MAX_HALF_WIDTH * 2 + 4) as int),
            ),
            forall|d: int| final(ren).cover_spec(d) == old(ren).cover_spec(d),
            r == old(self).goes_on_hor(*old(ren)),
    {
        let s1 = self.li.step_hor_base(&mut self.di);
        let start = Cutoff::with(self.di.dist_start, -self.di.dx_start);
        let end = Cutoff::with(self.di.dist_end, -self.di.dx_end);
        let ghost moved = self.li@;
        let (n0, n1, npix) = self.li.fill_covers(ren, s1, start, end);
        let p0: usize = CENTRE - n0;
        proof {
            assert(n_before(self.li@, s1 as int) == n_before(moved, s1 as int));
            assert(n_behind(self.li@, s1 as int) == n_behind(moved, s1 as int));
        }
        ren.blend_solid_vspan(
            self.li.x, self.li.y - (n0 as i64 + 1) + 1,
            (n1 + n0 + 1) as i64,
            vstd::slice::slice_subrange(self.li.covers.as_slice(), p0, self.li.covers.len()),
        );
        self.li.step -= 1;
        npix != 0 && self.li.step < self.li.count
    }

    /// Goes one pixel on along the vertical axis and blends the run of pixels across
    /// the line along the row of the new pixel. Returns whether the line goes on.
    pub fn step_ver<R: RenderOutline>(&mut self, ren: &mut R) -> (r: bool)
        requires
            old(self).can_step_ver(),
        ensures
            final(self).di == old(self).li@.di_ver(old(self).di),
            final(self).li@ == old(self).after_ver(*old(ren)),
            final(ren).blended() == old(ren).blended().push(
                run_across(
                    final(self).li@,
                    old(self).s1_ver(),
                    false,
                    CENTRE + n_behind(old(self).li@.moved_ver(), old(self).s1_ver()) + 1,
                ),
            ),
            forall|d: int| final(ren).cover_spec(d) == old(ren).cover_spec(d),
            r == old(self).goes_on_ver(*old(ren)),
    {
        let s1 = self.li.step_ver_base(&mut self.di);
        let start = Cutoff::with(self.di.dist_start, self.di.dy_start);
        let end = Cutoff::with(self.di.dist_end, self.di.dy_end);
        let ghost moved = self.li@;
        let (n0, n1, npix) = self.li.fill_covers(ren, s1, start, end);
        let p0: usize = CENTRE - n0;
        proof {
            assert(n_before(self.li@, s1 as int) == n_before(moved, s1 as int));
            assert(n_behind(self.li@, s1 as int) == n_behind(moved, s1 as int));
        }
        ren.blend_solid_hspan(
            self.li.x - (n0 as i64 + 1) + 1, self.li.y,
            (n1 + n0 + 1) as i64,
            vstd::slice::slice_subrange(self.li.covers.as_slice(), p0, CENTRE + n1 + 1),
        );
        self.li.step -= 1;
        npix != 0 && self.li.step < self.li.count
    }
}

/// A run of pixels that was blended, as a recorder keeps it.
#[derive(Clone, Debug, PartialEq, Eq)]
pub struct RecordedSpan {
    /// Whether the run goes down a column; it goes along a row if not.
    pub vertical: bool,
    /// Column of the first pixel.
    pub x: i64,
    /// Row of the first pixel.
    pub y: i64,
    /// The number of pixels.
    pub len: i64,
    /// The coverage of each pixel, and whatever followed it in the buffer.
    pub covers: Vec<u64>,
}

impl View for RecordedSpan {
    type V = SolidSpan;

    open spec fn view(&self) -> SolidSpan {
        SolidSpan {
            vertical: self.vertical,
            x: self.x as int,
            y: self.y as int,
            len: self.len as int,
            covers: self.covers@,
        }
    }
}

/// Keeps the runs of an anti-aliased line instead of drawing them, with the
/// coverage taken from a table.
#[derive(Clone, Debug, Default)]
pub struct OutlineRecorder {
    /// The coverage by distance: entry `d + 512` is that of the distance `d`.
    pub profile: Vec<u64>,
    /// The runs in the order in which they were blended.
    pub spans: Vec<RecordedSpan>,
}

impl OutlineRecorder {
    /// Creates a recorder without runs, with the given table of coverage.
    pub fn new(profile: Vec<u64>) -> (r: Self)
        ensures
            r.profile@ == profile@,
            r.spans@.len() == 0,
            r.blended() == Seq::<SolidSpan>::empty(),
    {
        let r = Self { profile, spans: Vec::new() };
        assert(r.blended() =~= Seq::<SolidSpan>::empty());
        r
    }

    /// Keeps a run.
    fn record(&mut self, vertical: bool, x: i64, y: i64, len: i64, covers: &[u64])
        ensures
            final(self).blended() == old(self).blended().push(
                SolidSpan { vertical, x: x as int, y: y as int, len: len as int, covers: covers@ },
            ),
            final(self).profile@ == old(self).profile@,
    {
        let span = RecordedSpan { vertical, x, y, len, covers: vstd::slice::slice_to_vec(covers) };
        self.spans.push(span);
        assert(self.blended() =~= old(self).blended().push(
            SolidSpan { vertical, x: x as int, y: y as int, len: len as int, covers: covers@ },
        ));
    }
}

impl RenderOutline for OutlineRecorder {
    /// The entry of the table for the distance `d`, and no coverage beyond the table.
    open spec fn cover_spec(&self, d: int) -> u64 {
        if 0 <= d + 512 < self.profile@.len() {
            self.profile@[d + 512]
        } else {
            0
        }
    }

    open spec fn blended(&self) -> Seq<SolidSpan> {
        Seq::new(self.spans@.len(), |i: int| self.spans@[i]@)
    }

    fn cover(&self, d: i64) -> (r: u64) {
        let i: i128 = d as i128 + 512;
        if 0 <= i && i < self.profile.len() as i128 {
            self.profile[i as usize]
        } else {
            0
        }
    }

    fn blend_solid_hspan(&mut self, x: i64, y: i64, len: i64, covers: &[u64]) {
        self.record(false, x, y, len, covers);
    }

    fn blend_solid_vspan(&mut self, x: i64, y: i64, len: i64, covers: &[u64]) {
        self.record(true, x, y, len, covers);
    }
}

impl LineParameters {
    /// Creates the interpolator of the line without cuts at its ends.
    pub fn interp0(&self, subpixel_width: i64) -> (r: AA0)
        requires
            LineInterpolatorAA::usable(*self, subpixel_width),
        ensures
            r.li@ == started(LineInterpolatorAA::new_spec(*self, subpixel_width), 0),
            r.di == DistanceInterpolator1::new_spec(
                self.x1,
                self.y1,
                self.x2,
                self.y2,
                (256 * pixel_of(self.x1 as int)) as i64,
                (256 * pixel_of(self.y1 as int)) as i64,
            ),
    {
        AA0::new(*self, subpixel_width)
    }

    /// Creates the interpolator of the line cut off at its start by the line to
    /// `(sx, sy)`.
    pub fn interp1(&self, sx: i64, sy: i64, subpixel_width: i64) -> (r: AA1)
        requires
            LineInterpolatorAA::usable(*self, subpixel_width),
            coord_ok(sx as int),
            coord_ok(sy as int),
            AA1::can_back(
                LineInterpolatorAA::new_spec(*self, subpixel_width),
                DistanceInterpolator2::new_spec(
                    self.x1,
                    self.y1,
                    self.x2,
                    self.y2,
                    sx,
                    sy,
                    (256 * pixel_of(self.x1 as int)) as i64,
                    (256 * pixel_of(self.y1 as int)) as i64,
                    true,
                ),
                1,
            ),
            AA1::can_finish(
                AA1::backed(
                    LineInterpolatorAA::new_spec(*self, subpixel_width),
                    DistanceInterpolator2::new_spec(
                        self.x1,
                        self.y1,
                        self.x2,
                        self.y2,
                        sx,
                        sy,
                        (256 * pixel_of(self.x1 as int)) as i64,
                        (256 * pixel_of(self.y1 as int)) as i64,
                        true,
                    ),
                    1,
                ).0,
            ),
        ensures
            ({
                let b = AA1::backed(
                    LineInterpolatorAA::new_spec(*self, subpixel_width),
                    DistanceInterpolator2::new_spec(
                    self.x1,
                    self.y1,
                    self.x2,
                    self.y2,
                    sx,
                    sy,
                    (256 * pixel_of(self.x1 as int)) as i64,
                    (256 * pixel_of(self.y1 as int)) as i64,
                    true,
                ),
                    1,
                );
                r.li@ == started(b.0, b.0.step as int) && r.di == b.1
            }),
    {
        AA1::new(*self, sx, sy, subpixel_width)
    }

    /// Creates the interpolator of the line cut off at its end by the line to
    /// `(ex, ey)`.
    pub fn interp2(&self, ex: i64, ey: i64, subpixel_width: i64) -> (r: AA2)
        requires
            LineInterpolatorAA::usable(*self, subpixel_width),
            coord_ok(ex as int),
            coord_ok(ey as int),
        ensures
            r.li@ == started(
                LineInterpolatorAA::new_spec(*self, subpixel_width),
                -LineInterpolatorAA::new_spec(*self, subpixel_width).max_extent,
            ),
            r.di == DistanceInterpolator2::new_spec(
                self.x1,
                self.y1,
                self.x2,
                self.y2,
                ex,
                ey,
                (256 * pixel_of(self.x1 as int)) as i64,
                (256 * pixel_of(self.y1 as int)) as i64,
                false,
            ),
    {
        AA2::new(*self, ex, ey, subpixel_width)
    }

    /// Creates the interpolator of the line cut off at its start by the line to
    /// `(sx, sy)` and at its end by the line to `(ex, ey)`.
    pub fn interp3(&self, sx: i64, sy: i64, ex: i64, ey: i64, subpixel_width: i64) -> (r: AA3)
        requires
            LineInterpolatorAA::usable(*self, subpixel_width),
            coord_ok(sx as int),
            coord_ok(sy as int),
            coord_ok(ex as int),
            coord_ok(ey as int),
            AA3::can_back(
                LineInterpolatorAA::new_spec(*self, subpixel_width),
                DistanceInterpolator3::new_spec(
                    self.x1,
                    self.y1,
                    self.x2,
                    self.y2,
                    sx,
                    sy,
                    ex,
                    ey,
                    (256 * pixel_of(self.x1 as int)) as i64,
                    (256 * pixel_of(self.y1 as int)) as i64,
                ),
                1,
            ),
            AA3::can_finish(
                AA3::backed(
                    LineInterpolatorAA::new_spec(*self, subpixel_width),
                    DistanceInterpolator3::new_spec(
                        self.x1,
                        self.y1,
                        self.x2,
                        self.y2,
                        sx,
                        sy,
                        ex,
                        ey,
                        (256 * pixel_of(self.x1 as int)) as i64,
                        (256 * pixel_of(self.y1 as int)) as i64,
                    ),
                    1,
                ).0,
            ),
        ensures
            ({
                let b = AA3::backed(
                    LineInterpolatorAA::new_spec(*self, subpixel_width),
                    DistanceInterpolator3::new_spec(
                    self.x1,
                    self.y1,
                    self.x2,
                    self.y2,
                    sx,
                    sy,
                    ex,
                    ey,
                    (256 * pixel_of(self.x1 as int)) as i64,
                    (256 * pixel_of(self.y1 as int)) as i64,
                ),
                    1,
                );
                r.li@ == started(b.0, b.0.step - b.0.max_extent) && r.di == b.1
            }),
    {
        AA3::new(*self, sx, sy, ex, ey, subpixel_width)
    }
}

} // verus!
