//! The scanline rasterizer: paths go in as lines, rows of coverage come out.

use crate::cell::{
    abs, all_flat, all_within, coord_ok, lemma_flat_lines_add_no_cell, max3, pixel_ok, Cell,
    CellStore, RasterizerCell, Segment, AREA_LIMIT, COVER_LIMIT, MAX_CELLS,
};
use crate::clip::{
    lemma_beyond_same_edge_draws_nothing, lemma_flat_segment_is_drawn_flat,
    lemma_inside_is_drawn_whole, Clip, ClipBox, ClipState, Rectangle,
};
use crate::paths::{PathCommand, Vertex};
use crate::scan::{ScanlineU8, ScanlineView};
use crate::util::{area_to_cover, cover_to_area};
use vstd::prelude::*;

verus! {

/// The number of bits of an alpha value.
pub const AA_SHIFT: i64 = 8;

/// The coverage of a whole pixel.
pub const AA_SCALE: i64 = 256;

/// The largest alpha value.
pub const AA_MASK: i64 = 255;

/// The coverage of two whole pixels, the period of the even-odd rule.
pub const AA_SCALE2: i64 = 512;

/// The mask that reduces a coverage to one period of the even-odd rule.
pub const AA_MASK2: i64 = 511;

/// The rule that decides which parts of a path are filled.
#[derive(Copy, Clone, Debug, Default, PartialEq, Eq, Hash, Structural)]
pub enum FillingRule {
    /// What the path winds around a number of times other than zero is filled.
    #[default]
    NonZero,
    /// What the path winds around an odd number of times is filled.
    EvenOdd,
}

/// How far the current sub-path has come.
#[derive(Copy, Clone, Debug, Default, PartialEq, Eq, Hash, Structural)]
pub enum PathStatus {
    /// Nothing has been drawn.
    #[default]
    Initial,
    /// The sub-path has been closed.
    Closed,
    /// The sub-path has been started.
    MoveTo,
    /// A line has been drawn.
    LineTo,
}

/// The coverage that a double area stands for, in 256ths of a pixel, without its sign.
pub open spec fn coverage_of(area: int) -> int {
    abs(area / 512)
}

/// The coverage under the even-odd rule: it rises to a whole pixel and falls
/// back to nothing with a period of two pixels.
pub open spec fn fold_even_odd(c: int) -> int {
    let m = c % 512;
    if m > 256 {
        512 - m
    } else {
        m
    }
}

/// The alpha value of a pixel with the double area `area`.
///
/// The coverage is taken without its sign, folded under the even-odd rule, cut
/// off at 255 and looked up in the gamma table.
pub open spec fn alpha_of(area: int, rule: FillingRule, gamma: Seq<u8>) -> u8 {
    let c = coverage_of(area);
    let f = match rule {
        FillingRule::EvenOdd => fold_even_odd(c),
        FillingRule::NonZero => c,
    };
    gamma[if f > 255 {
        255
    } else {
        f
    }]
}

/// The index behind the group of cells that starts at index `i`: the cells
/// that follow it and lie in the same column belong to the group.
pub open spec fn group_end(row: Seq<Cell>, i: int) -> int
    decreases row.len() - i,
{
    if 0 <= i && i + 1 < row.len() && row[i + 1].x == row[i].x {
        group_end(row, i + 1)
    } else {
        i + 1
    }
}

/// The sum of `cover` over the cells from index `i` up to `j`.
pub open spec fn sum_cover(row: Seq<Cell>, i: int, j: int) -> int
    decreases j - i,
{
    if j <= i {
        0
    } else {
        sum_cover(row, i, j - 1) + row[j - 1].cover
    }
}

/// The sum of `area` over the cells from index `i` up to `j`.
pub open spec fn sum_area(row: Seq<Cell>, i: int, j: int) -> int
    decreases j - i,
{
    if j <= i {
        0
    } else {
        sum_area(row, i, j - 1) + row[j - 1].area
    }
}

/// The scanline after the cells of a row from index `i` on have been swept.
///
/// `cover` is the sum of `cover` over the cells before `i`. Each group of cells
/// of one column adds its cover to it. If the group has area, its pixel gets the
/// alpha of the accumulated cover less that area, and the run starts one pixel
/// on. The pixels from there up to the next group get the alpha of the
/// accumulated cover alone. An alpha of zero adds nothing.
pub open spec fn sweep_from(
    row: Seq<Cell>,
    i: int,
    cover: int,
    sl: ScanlineView,
    rule: FillingRule,
    gamma: Seq<u8>,
) -> ScanlineView
    decreases row.len() - i,
{
    if i < 0 || i >= row.len() {
        sl
    } else {
        let j = group_end(row, i);
        let x = row[i].x as int;
        let c = cover + sum_cover(row, i, j);
        let a = sum_area(row, i, j);
        let pixel = alpha_of(c * 512 - a, rule, gamma);
        let run = alpha_of(c * 512, rule, gamma);
        let sl1 = if a != 0 && pixel > 0 {
            sl.with_cell(x, pixel)
        } else {
            sl
        };
        let x1 = if a != 0 {
            x + 1
        } else {
            x
        };
        let sl2 = if 0 <= j < row.len() && row[j].x > x1 && run > 0 {
            sl1.with_span(x1, row[j].x - x1, run)
        } else {
            sl1
        };
        if i < j <= row.len() {
            sweep_from(row, j, c, sl2, rule, gamma)
        } else {
            sl2
        }
    }
}

/// The scanline of a whole row, without its row number.
pub open spec fn row_scanline(
    row: Seq<Cell>,
    sl: ScanlineView,
    rule: FillingRule,
    gamma: Seq<u8>,
) -> ScanlineView {
    sweep_from(row, 0, 0, sl.cleared(), rule, gamma)
}

/// The end of a group lies behind its start, inside the row, and the group
/// starting one cell on in the same column ends at the same place.
pub proof fn lemma_group_end(row: Seq<Cell>, i: int)
    requires
        0 <= i < row.len(),
    ensures
        i < group_end(row, i) <= row.len(),
        forall|k: int| i <= k < group_end(row, i) ==> (#[trigger] row[k]).x == row[i].x,
        group_end(row, i) < row.len() ==> row[group_end(row, i)].x != row[i].x,
    decreases row.len() - i,
{
    if i + 1 < row.len() && row[i + 1].x == row[i].x {
        lemma_group_end(row, i + 1);
    }
}

/// What a rasterizer holds.
pub struct RasterState {
    /// The clipper.
    pub clipper: ClipState,
    /// How far the current sub-path has come.
    pub status: PathStatus,
    /// Horizontal start of the current sub-path.
    pub x0: int,
    /// Vertical start of the current sub-path.
    pub y0: int,
    /// The cells.
    pub outline: CellStore,
    /// The next row to sweep.
    pub scan_y: int,
    /// The filling rule.
    pub filling_rule: FillingRule,
    /// The gamma table.
    pub gamma: Seq<u8>,
}

impl RasterState {
    /// Whether the parts are well formed and the gamma table has 256 entries.
    pub open spec fn wf(self) -> bool {
        &&& self.clipper.wf()
        &&& self.outline.wf()
        &&& coord_ok(self.x0)
        &&& coord_ok(self.y0)
        &&& self.gamma.len() == 256
        &&& i32::MIN <= self.scan_y <= i32::MAX
    }

    /// Whether the rows are those of the cells as they are now.
    pub open spec fn rows_ready(self) -> bool {
        self.outline.rows.len() == self.outline.max_y + 1 || self.outline.max_y < 0
    }

    /// The state after a line has been drawn from the current point to `(x, y)`.
    pub open spec fn with_line_to(self, x: int, y: int) -> RasterState {
        RasterState {
            outline: self.outline.with_lines(self.clipper.emitted(x, y)),
            clipper: self.clipper.moved_to(x, y),
            status: PathStatus::LineTo,
            ..self
        }
    }

    /// The state after the current sub-path has been closed: if its last command
    /// drew a line, a line is drawn back to its start.
    pub open spec fn closed(self) -> RasterState {
        if self.status == PathStatus::LineTo {
            RasterState { status: PathStatus::Closed, ..self.with_line_to(self.x0, self.y0) }
        } else {
            self
        }
    }

    /// The state after a sub-path has been started at `(x, y)`.
    pub open spec fn with_move_to(self, x: int, y: int) -> RasterState {
        RasterState {
            x0: x,
            y0: y,
            clipper: self.clipper.moved_to(x, y),
            status: PathStatus::MoveTo,
            ..self
        }
    }

    /// The state after the current sub-path has been closed and the cells have
    /// been sorted: the sweep starts at the first row that holds cells.
    pub open spec fn rewound(self) -> RasterState {
        let c = self.closed();
        RasterState {
            outline: c.outline.sorted(),
            scan_y: if c.outline.cells.len() == 0 {
                c.scan_y
            } else {
                c.outline.min_y
            },
            ..c
        }
    }

    /// The state after the command of one vertex has been carried out.
    pub open spec fn with_vertex(self, v: Vertex<i64>) -> RasterState {
        match v.cmd {
            PathCommand::LineTo => self.with_line_to(v.x as int, v.y as int),
            PathCommand::MoveTo => self.with_move_to(v.x as int, v.y as int),
            PathCommand::Close => self.closed(),
            PathCommand::Stop => self,
        }
    }

    /// The state after the commands of the vertices have been carried out in order.
    pub open spec fn with_vertices(self, vs: Seq<Vertex<i64>>) -> RasterState
        decreases vs.len(),
    {
        if vs.len() == 0 {
            self
        } else {
            self.with_vertices(vs.drop_last()).with_vertex(vs.last())
        }
    }

    /// The state before a new path is added: cells that were sorted already
    /// belong to an earlier path and are removed.
    pub open spec fn fresh(self) -> RasterState {
        if self.outline.rows.len() > 0 {
            RasterState { outline: CellStore::empty(), status: PathStatus::Initial, ..self }
        } else {
            self
        }
    }

    /// The scanline of row `y`.
    pub open spec fn scanline(self, y: int, sl: ScanlineView) -> ScanlineView {
        row_scanline(self.outline.rows[y], sl, self.filling_rule, self.gamma)
    }

    /// The spans of row `y`, swept into a scanline whose positions are counted
    /// from `min_x`.
    pub open spec fn row_spans(self, y: int, min_x: int) -> Seq<crate::scan::SpanView> {
        self.scanline(
            y,
            ScanlineView { last_x: crate::scan::LAST_X as int, min_x, y: 0, spans: Seq::empty() },
        ).spans
    }

    /// The scanline of row `y` as a sweep leaves it, with positions counted from
    /// `min_x`.
    pub open spec fn swept(self, y: int, min_x: int) -> ScanlineView {
        ScanlineView {
            y,
            ..self.scanline(
                y,
                ScanlineView {
                    last_x: crate::scan::LAST_X as int,
                    min_x,
                    y: 0,
                    spans: Seq::empty(),
                },
            )
        }
    }

    /// Whether row `y` has no pixel with an alpha above zero.
    pub open spec fn row_is_blank(self, y: int, sl: ScanlineView) -> bool {
        self.scanline(y, sl).spans.len() == 0
    }
}

/// Whether the sweep of a row from index `i` on meets no coverage above one
/// whole pixel: the path covers no pixel of the row more than once.
pub open spec fn covered_once_from(row: Seq<Cell>, i: int, cover: int) -> bool
    decreases row.len() - i,
{
    if i < 0 || i >= row.len() {
        true
    } else {
        let j = group_end(row, i);
        let c = cover + sum_cover(row, i, j);
        let a = sum_area(row, i, j);
        &&& coverage_of(c * 512 - a) <= 256
        &&& coverage_of(c * 512) <= 256
        &&& (i < j <= row.len() ==> covered_once_from(row, j, c))
    }
}

/// A coverage of at most one whole pixel gives the same alpha under both rules.
pub proof fn lemma_rules_agree_up_to_one_pixel(area: int, gamma: Seq<u8>)
    requires
        coverage_of(area) <= 256,
    ensures
        alpha_of(area, FillingRule::NonZero, gamma) == alpha_of(area, FillingRule::EvenOdd, gamma),
{
}

/// Where the path covers no pixel of a row more than once, as a polygon that
/// does not cross itself does, both rules give the same scanline.
pub proof fn lemma_rules_agree_on_single_coverage(
    row: Seq<Cell>,
    i: int,
    cover: int,
    sl: ScanlineView,
    gamma: Seq<u8>,
)
    requires
        covered_once_from(row, i, cover),
    ensures
        sweep_from(row, i, cover, sl, FillingRule::NonZero, gamma) == sweep_from(
            row,
            i,
            cover,
            sl,
            FillingRule::EvenOdd,
            gamma,
        ),
    decreases row.len() - i,
{
    if 0 <= i < row.len() {
        let j = group_end(row, i);
        let x = row[i].x as int;
        let c = cover + sum_cover(row, i, j);
        let a = sum_area(row, i, j);
        lemma_rules_agree_up_to_one_pixel(c * 512 - a, gamma);
        lemma_rules_agree_up_to_one_pixel(c * 512, gamma);
        let pixel = alpha_of(c * 512 - a, FillingRule::NonZero, gamma);
        let run = alpha_of(c * 512, FillingRule::NonZero, gamma);
        let sl1 = if a != 0 && pixel > 0 {
            sl.with_cell(x, pixel)
        } else {
            sl
        };
        let x1 = if a != 0 {
            x + 1
        } else {
            x
        };
        let sl2 = if 0 <= j < row.len() && row[j].x > x1 && run > 0 {
            sl1.with_span(x1, row[j].x - x1, run)
        } else {
            sl1
        };
        if i < j <= row.len() {
            lemma_rules_agree_on_single_coverage(row, j, c, sl2, gamma);
        }
    }
}

/// Where the path covers no pixel of a row more than once, as a polygon that
/// does not cross itself does, rasterizers that differ in the filling rule only
/// sweep the row alike: they leave the same scanline, with the same spans, and
/// agree on whether the row is blank.
pub proof fn lemma_rules_agree_on_row(st: RasterState, k: int, sl: ScanlineView)
    requires
        covered_once_from(st.outline.rows[k], 0, 0),
    ensures
        (RasterState { filling_rule: FillingRule::NonZero, ..st }).scanline(k, sl) == (RasterState {
            filling_rule: FillingRule::EvenOdd,
            ..st
        }).scanline(k, sl),
        (RasterState { filling_rule: FillingRule::NonZero, ..st }).row_spans(k, sl.min_x)
            == (RasterState { filling_rule: FillingRule::EvenOdd, ..st }).row_spans(k, sl.min_x),
        (RasterState { filling_rule: FillingRule::NonZero, ..st }).row_is_blank(k, sl) == (RasterState {
            filling_rule: FillingRule::EvenOdd,
            ..st
        }).row_is_blank(k, sl),
{
    let row = st.outline.rows[k];
    lemma_rules_agree_on_single_coverage(row, 0, 0, sl.cleared(), st.gamma);
    let blank = ScanlineView {
        last_x: crate::scan::LAST_X as int,
        min_x: sl.min_x,
        y: 0,
        spans: Seq::empty(),
    };
    lemma_rules_agree_on_single_coverage(row, 0, 0, blank.cleared(), st.gamma);
}

/// A path made of a start and a line without height to another point has
/// nothing to sweep: after rewinding there is no cell, whatever the clip box.
pub proof fn lemma_flat_line_has_nothing_to_sweep(st: RasterState, x1: int, x2: int, y: int)
    requires
        st.wf(),
        st.outline.cells.len() == 0,
        coord_ok(x1),
        coord_ok(x2),
        coord_ok(y),
    ensures
        st.with_move_to(x1, y).with_line_to(x2, y).rewound().outline.cells.len() == 0,
        st.with_move_to(x1, y).with_line_to(x2, y).closed().outline.cells.len() == 0,
{
    let moved = st.with_move_to(x1, y);
    let there = Segment { x1, y1: y, x2, y2: y };
    let back = Segment { x1: x2, y1: y, x2: x1, y2: y };
    let drawn = moved.with_line_to(x2, y);
    match st.clipper.clip_box {
        Some(b) => {
            lemma_flat_segment_is_drawn_flat(b, there);
            lemma_flat_segment_is_drawn_flat(b, back);
        },
        None => {
            assert(all_flat(seq![there]));
            assert(all_flat(seq![back]));
        },
    }
    lemma_flat_lines_add_no_cell(moved.outline, moved.clipper.emitted(x2, y));
    lemma_flat_lines_add_no_cell(drawn.outline, drawn.clipper.emitted(x1, y));
}

/// With both ends of a line inside the clip box, the cells are those that the
/// line gives without a clip box.
pub proof fn lemma_clip_box_around_line_changes_nothing(st: RasterState, x: int, y: int)
    requires
        st.wf(),
        st.clipper.clip_box matches Some(b) && b.flags(st.clipper.x, st.clipper.y) == 0 && b.flags(
            x,
            y,
        ) == 0,
    ensures
        st.with_line_to(x, y).outline == (RasterState {
            clipper: ClipState { clip_box: None, ..st.clipper },
            ..st
        }).with_line_to(x, y).outline,
{
    let s = Segment { x1: st.clipper.x, y1: st.clipper.y, x2: x, y2: y };
    lemma_inside_is_drawn_whole(st.clipper.clip_box->Some_0, s);
}

/// Whether two rasterizers are alike in everything but the clip box: the first
/// has the box `b`, with its current point and the start of its sub-path inside
/// it, and the second has none.
pub open spec fn alike_but_clipped(a: RasterState, c: RasterState, b: ClipBox) -> bool {
    &&& a.clipper.clip_box == Some(b)
    &&& c.clipper.clip_box.is_none()
    &&& a.clipper.x == c.clipper.x
    &&& a.clipper.y == c.clipper.y
    &&& b.flags(a.clipper.x, a.clipper.y) == 0
    &&& b.flags(a.x0, a.y0) == 0
    &&& a.x0 == c.x0
    &&& a.y0 == c.y0
    &&& a.status == c.status
    &&& a.outline == c.outline
    &&& a.filling_rule == c.filling_rule
    &&& a.gamma == c.gamma
}

/// Whether every vertex of a path lies inside the box `b`.
pub open spec fn path_inside(b: ClipBox, vs: Seq<Vertex<i64>>) -> bool {
    forall|i: int| 0 <= i < vs.len() ==> b.flags((#[trigger] vs[i]).x as int, vs[i].y as int) == 0
}

/// A clip box around a path changes nothing: a rasterizer with a clip box and
/// one without, alike in everything else, hold the same cells after a path
/// whose vertices all lie inside the box, and give the same spans for every
/// row when they are swept.
pub proof fn lemma_clip_box_around_path_changes_nothing(
    a: RasterState,
    c: RasterState,
    b: ClipBox,
    vs: Seq<Vertex<i64>>,
)
    requires
        a.wf(),
        alike_but_clipped(a, c, b),
        path_inside(b, vs),
    ensures
        alike_but_clipped(a.with_vertices(vs), c.with_vertices(vs), b),
        a.with_vertices(vs).outline == c.with_vertices(vs).outline,
        a.with_vertices(vs).rewound().outline == c.with_vertices(vs).rewound().outline,
        forall|k: int, min_x: int|
            a.with_vertices(vs).rewound().row_spans(k, min_x) == c.with_vertices(
                vs,
            ).rewound().row_spans(k, min_x),
    decreases vs.len(),
{
    if vs.len() > 0 {
        assert(path_inside(b, vs.drop_last())) by {
            assert forall|i: int| 0 <= i < vs.drop_last().len() implies b.flags(
                (#[trigger] vs.drop_last()[i]).x as int,
                vs.drop_last()[i].y as int,
            ) == 0 by {
                assert(vs.drop_last()[i] == vs[i]);
            }
        }
        lemma_clip_box_around_path_changes_nothing(a, c, b, vs.drop_last());
        let a1 = a.with_vertices(vs.drop_last());
        let c1 = c.with_vertices(vs.drop_last());
        let v = vs.last();
        lemma_inside_is_drawn_whole(
            b,
            Segment { x1: a1.clipper.x, y1: a1.clipper.y, x2: v.x as int, y2: v.y as int },
        );
        lemma_inside_is_drawn_whole(
            b,
            Segment { x1: a1.clipper.x, y1: a1.clipper.y, x2: a1.x0, y2: a1.y0 },
        );
    }
    let a2 = a.with_vertices(vs);
    let c2 = c.with_vertices(vs);
    assert(alike_but_clipped(a2, c2, b));
    lemma_inside_is_drawn_whole(
        b,
        Segment { x1: a2.clipper.x, y1: a2.clipper.y, x2: a2.x0, y2: a2.y0 },
    );
    assert(a2.closed().outline == c2.closed().outline);
}

/// Full containment: a line with both ends beyond one and the same edge of the
/// clip box, whichever of the four, adds no cell.
pub proof fn lemma_line_beyond_one_edge_adds_no_cell(st: RasterState, x: int, y: int)
    requires
        st.clipper.clip_box matches Some(b) && b.beyond_one_edge(
            Segment { x1: st.clipper.x, y1: st.clipper.y, x2: x, y2: y },
        ),
    ensures
        st.with_line_to(x, y).outline == st.outline,
{
    let s = Segment { x1: st.clipper.x, y1: st.clipper.y, x2: x, y2: y };
    lemma_beyond_same_edge_draws_nothing(st.clipper.clip_box->Some_0, s);
    assert(st.outline.with_lines(Seq::<Segment>::empty()) == st.outline);
}

/// A sweep leaves the base and the row number of the scanline as they are.
pub proof fn lemma_sweep_keeps_base(
    row: Seq<Cell>,
    i: int,
    cover: int,
    sl: ScanlineView,
    rule: FillingRule,
    gamma: Seq<u8>,
)
    ensures
        sweep_from(row, i, cover, sl, rule, gamma).min_x == sl.min_x,
        sweep_from(row, i, cover, sl, rule, gamma).y == sl.y,
    decreases row.len() - i,
{
    if 0 <= i < row.len() {
        let j = group_end(row, i);
        let x = row[i].x as int;
        let c = cover + sum_cover(row, i, j);
        let ar = sum_area(row, i, j);
        let pixel = alpha_of(c * 512 - ar, rule, gamma);
        let run = alpha_of(c * 512, rule, gamma);
        let a1 = if ar != 0 && pixel > 0 {
            sl.with_cell(x, pixel)
        } else {
            sl
        };
        let x1 = if ar != 0 {
            x + 1
        } else {
            x
        };
        let a2 = if 0 <= j < row.len() && row[j].x > x1 && run > 0 {
            a1.with_span(x1, row[j].x - x1, run)
        } else {
            a1
        };
        if i < j <= row.len() {
            lemma_sweep_keeps_base(row, j, c, a2, rule, gamma);
        }
    }
}

/// The spans of a row do not depend on the row number that the scanline
/// carried before the sweep.
pub proof fn lemma_sweep_keeps_row_number(
    row: Seq<Cell>,
    i: int,
    cover: int,
    a: ScanlineView,
    b: ScanlineView,
    rule: FillingRule,
    gamma: Seq<u8>,
)
    requires
        b == (ScanlineView { y: b.y, ..a }),
    ensures
        sweep_from(row, i, cover, b, rule, gamma) == (ScanlineView {
            y: b.y,
            ..sweep_from(row, i, cover, a, rule, gamma)
        }),
    decreases row.len() - i,
{
    if 0 <= i < row.len() {
        let j = group_end(row, i);
        let x = row[i].x as int;
        let c = cover + sum_cover(row, i, j);
        let ar = sum_area(row, i, j);
        let pixel = alpha_of(c * 512 - ar, rule, gamma);
        let run = alpha_of(c * 512, rule, gamma);
        let a1 = if ar != 0 && pixel > 0 {
            a.with_cell(x, pixel)
        } else {
            a
        };
        let b1 = if ar != 0 && pixel > 0 {
            b.with_cell(x, pixel)
        } else {
            b
        };
        let x1 = if ar != 0 {
            x + 1
        } else {
            x
        };
        let a2 = if 0 <= j < row.len() && row[j].x > x1 && run > 0 {
            a1.with_span(x1, row[j].x - x1, run)
        } else {
            a1
        };
        let b2 = if 0 <= j < row.len() && row[j].x > x1 && run > 0 {
            b1.with_span(x1, row[j].x - x1, run)
        } else {
            b1
        };
        assert(b1 == (ScanlineView { y: b.y, ..a1 }));
        assert(b2 == (ScanlineView { y: b.y, ..a2 }));
        if i < j <= row.len() {
            lemma_sweep_keeps_row_number(row, j, c, a2, b2, rule, gamma);
        }
    }
}

/// The identity gamma table: each coverage is its own alpha.
pub open spec fn identity_gamma() -> Seq<u8> {
    Seq::new(256, |i: int| i as u8)
}

/// Turns paths into rows of anti-aliased coverage.
#[derive(Debug)]
pub struct RasterizerScanline {
    /// The clipper.
    clipper: Clip,
    /// How far the current sub-path has come.
    status: PathStatus,
    /// Horizontal start of the current sub-path.
    x0: i64,
    /// Vertical start of the current sub-path.
    y0: i64,
    /// The cells.
    outline: RasterizerCell,
    /// The next row to sweep.
    scan_y: i32,
    /// The filling rule.
    filling_rule: FillingRule,
    /// The gamma table.
    gamma: Vec<u8>,
}

impl View for RasterizerScanline {
    type V = RasterState;

    closed spec fn view(&self) -> RasterState {
        RasterState {
            clipper: self.clipper@,
            status: self.status,
            x0: self.x0 as int,
            y0: self.y0 as int,
            outline: self.outline@,
            scan_y: self.scan_y as int,
            filling_rule: self.filling_rule,
            gamma: self.gamma@,
        }
    }
}

impl Default for RasterizerScanline {
    /// Creates a rasterizer without cells and without a clip box, with the
    /// non-zero rule and the identity gamma table.
    fn default() -> (r: Self)
        ensures
            r@ == Self::new_spec(),
            r@.wf(),
    {
        Self::new()
    }
}

impl RasterizerScanline {
    /// Creates a rasterizer without cells and without a clip box, with the
    /// non-zero rule and the identity gamma table.
    pub fn new() -> (r: Self)
        ensures
            r@ == (RasterState {
                clipper: ClipState { x: 0, y: 0, clip_box: None, flag: 0 },
                status: PathStatus::Initial,
                x0: 0,
                y0: 0,
                outline: CellStore::empty(),
                scan_y: 0,
                filling_rule: FillingRule::NonZero,
                gamma: identity_gamma(),
            }),
            r@.wf(),
    {
        let mut gamma: Vec<u8> = Vec::new();
        let mut i: usize = 0;
        while i < 256
            invariant
                i <= 256,
                gamma@ == Seq::new(i as nat, |k: int| k as u8),
            decreases 256 - i,
        {
            gamma.push(i as u8);
            i = i + 1;
            assert(gamma@ =~= Seq::new(i as nat, |k: int| k as u8));
        }
        Self {
            clipper: Clip::new(),
            status: PathStatus::Initial,
            outline: RasterizerCell::new(),
            x0: 0,
            y0: 0,
            scan_y: 0,
            filling_rule: FillingRule::NonZero,
            gamma,
        }
    }

    /// Creates a rasterizer with the gamma table `table`, which maps each
    /// coverage from 0 to 255 to an alpha value.
    pub fn with_gamma(table: Vec<u8>) -> (r: Self)
        requires
            table@.len() == 256,
        ensures
            r@ == (RasterState { gamma: table@, ..Self::new_spec() }),
            r@.wf(),
    {
        let mut new = Self::new();
        new.gamma(table);
        new
    }

    /// What a new rasterizer holds.
    pub open spec fn new_spec() -> RasterState {
        RasterState {
            clipper: ClipState { x: 0, y: 0, clip_box: None, flag: 0 },
            status: PathStatus::Initial,
            x0: 0,
            y0: 0,
            outline: CellStore::empty(),
            scan_y: 0,
            filling_rule: FillingRule::NonZero,
            gamma: identity_gamma(),
        }
    }

    /// Removes all cells and forgets the current sub-path.
    pub fn reset(&mut self)
        ensures
            final(self)@ == (RasterState {
                outline: CellStore::empty(),
                status: PathStatus::Initial,
                ..old(self)@
            }),
            old(self)@.wf() ==> final(self)@.wf(),
    {
        self.outline.reset();
        self.status = PathStatus::Initial;
    }

    /// Sets the filling rule.
    pub fn set_filling_rule(&mut self, filling_rule: FillingRule)
        ensures
            final(self)@ == (RasterState { filling_rule, ..old(self)@ }),
    {
        self.filling_rule = filling_rule;
    }

    /// Replaces the gamma table by `table`, which maps each coverage from 0 to
    /// 255 to an alpha value.
    pub fn gamma(&mut self, table: Vec<u8>)
        requires
            table@.len() == 256,
        ensures
            final(self)@ == (RasterState { gamma: table@, ..old(self)@ }),
    {
        self.gamma = table;
    }

    /// Returns the smallest pixel column touched so far.
    pub fn min_x(&self) -> (r: i32)
        ensures
            r == self@.outline.min_x,
    {
        self.outline.min_x()
    }

    /// Returns the largest pixel column touched so far.
    pub fn max_x(&self) -> (r: i32)
        ensures
            r == self@.outline.max_x,
    {
        self.outline.max_x()
    }

    /// Returns the number of cells.
    pub fn total_cells(&self) -> (n: usize)
        ensures
            n == self@.outline.cells.len(),
    {
        self.outline.total_cells()
    }

    /// Reports whether what the rasterizer holds can be swept as it is: there
    /// are no more cells than can be sorted, and once the cells are sorted there
    /// is one row for each pixel row from 0 to the largest that a cell lies in.
    ///
    /// Rows that were sorted before are kept as they are: cells added since then
    /// are not sorted into them, and only their number is tested here. A
    /// sub-path that is still open has to be closed first to be counted in.
    pub fn can_sweep(&self) -> (r: bool)
        ensures
            r == (self@.outline.cells.len() <= MAX_CELLS && (RasterState {
                outline: self@.outline.sorted(),
                ..self@
            }).rows_ready()),
    {
        self.outline.can_sweep()
    }

    /// Returns a copy of the cell at index `i`.
    pub fn cell(&self, i: usize) -> (c: Cell)
        requires
            i < self@.outline.cells.len(),
        ensures
            c == self@.outline.cells[i as int],
    {
        self.outline.cell(i)
    }

    /// Sets the clip box to the rectangle with the corners `(x1, y1)` and
    /// `(x2, y2)`, given in sub-pixel coordinates.
    pub fn clip_box(&mut self, x1: i64, y1: i64, x2: i64, y2: i64)
        requires
            old(self)@.wf(),
            coord_ok(x1 as int),
            coord_ok(y1 as int),
            coord_ok(x2 as int),
            coord_ok(y2 as int),
        ensures
            final(self)@ == (RasterState {
                clipper: (ClipState {
                    clip_box: Some(Rectangle::new_spec(x1, y1, x2, y2)),
                    ..old(self)@.clipper
                }).moved_to(old(self)@.clipper.x, old(self)@.clipper.y),
                ..old(self)@
            }),
            final(self)@.wf(),
    {
        self.clipper.clip_box(x1, y1, x2, y2);
    }

    /// Starts a sub-path at `(x, y)`, given in sub-pixel coordinates.
    pub fn move_to(&mut self, x: i64, y: i64)
        requires
            old(self)@.wf(),
            coord_ok(x as int),
            coord_ok(y as int),
        ensures
            final(self)@ == old(self)@.with_move_to(x as int, y as int),
            final(self)@.wf(),
    {
        self.x0 = x;
        self.y0 = y;
        self.clipper.move_to(self.x0, self.y0);
        self.status = PathStatus::MoveTo;
    }

    /// Draws a line from the current point to `(x, y)`, given in sub-pixel
    /// coordinates.
    pub fn line_to(&mut self, x: i64, y: i64)
        requires
            old(self)@.wf(),
            coord_ok(x as int),
            coord_ok(y as int),
        ensures
            final(self)@ == old(self)@.with_line_to(x as int, y as int),
            final(self)@.wf(),
    {
        self.clipper.line_to(&mut self.outline, x, y);
        self.status = PathStatus::LineTo;
    }

    /// Closes the current sub-path: if its last command drew a line, a line is
    /// drawn back to its start.
    pub fn close_polygon(&mut self)
        requires
            old(self)@.wf(),
        ensures
            final(self)@ == old(self)@.closed(),
            final(self)@.wf(),
    {
        if self.status == PathStatus::LineTo {
            self.clipper.line_to(&mut self.outline, self.x0, self.y0);
            self.status = PathStatus::Closed;
        }
    }

    /// Returns the alpha value of a pixel with the double area `area`.
    pub fn calculate_alpha(&self, area: i64) -> (r: u8)
        requires
            self@.gamma.len() == 256,
        ensures
            r == alpha_of(area as int, self@.filling_rule, self@.gamma),
    {
        let mut cover: i64 = area_to_cover(area);
        if cover < 0 {
            cover = -cover;
        }
        if self.filling_rule == FillingRule::EvenOdd {
            let ghost c = cover;
            assert(cover & 511 == cover % 512) by (bit_vector)
                requires
                    cover >= 0,
            ;
            cover = cover & AA_MASK2;
            if cover > AA_SCALE {
                cover = AA_SCALE2 - cover;
            }
        }
        if cover > AA_MASK {
            cover = AA_MASK;
        }
        self.gamma[cover as usize]
    }

    /// Adds a path, given as vertices in sub-pixel coordinates.
    ///
    /// If the cells have been sorted, they belong to an earlier path and are
    /// removed first.
    pub fn add_path(&mut self, path: &Vec<Vertex<i64>>)
        requires
            old(self)@.wf(),
            forall|i: int|
                0 <= i < path@.len() ==> coord_ok((#[trigger] path@[i]).x as int) && coord_ok(
                    path@[i].y as int,
                ) && path@[i].cmd != PathCommand::Stop,
        ensures
            final(self)@ == old(self)@.fresh().with_vertices(path@),
            final(self)@.wf(),
    {
        if self.outline.is_sorted() {
            self.reset();
        }
        let ghost start = self@;
        let n = path.len();
        let mut i: usize = 0;
        while i < n
            invariant
                n == path@.len(),
                i <= n,
                self@.wf(),
                self@ == start.with_vertices(path@.take(i as int)),
                forall|k: int|
                    0 <= k < path@.len() ==> coord_ok((#[trigger] path@[k]).x as int) && coord_ok(
                        path@[k].y as int,
                    ) && path@[k].cmd != PathCommand::Stop,
            decreases n - i,
        {
            let seg = path[i];
            proof {
                assert(path@.take(i + 1).drop_last() =~= path@.take(i as int));
            }
            match seg.cmd {
                PathCommand::LineTo => self.line_to(seg.x, seg.y),
                PathCommand::MoveTo => self.move_to(seg.x, seg.y),
                PathCommand::Close => self.close_polygon(),
                PathCommand::Stop => {},
            }
            i = i + 1;
        }
        proof {
            assert(path@.take(n as int) =~= path@);
        }
    }

    /// Closes the current sub-path, sorts the cells and places the sweep at the
    /// first row that holds cells. Returns whether there is any cell to sweep.
    pub fn rewind_scanlines(&mut self) -> (r: bool)
        requires
            old(self)@.wf(),
            old(self)@.closed().outline.cells.len() <= MAX_CELLS,
        ensures
            final(self)@ == old(self)@.rewound(),
            r == (old(self)@.closed().outline.cells.len() > 0),
            final(self)@.wf(),
    {
        self.close_polygon();
        self.outline.sort_cells();
        if self.outline.total_cells() == 0 {
            false
        } else {
            self.scan_y = self.outline.min_y();
            true
        }
    }

    /// Sweeps rows from the current one on until one has a span, and leaves the
    /// spans of that row in `sl`.
    ///
    /// Rows below zero are passed over. Returns `false` when no row up to the
    /// largest one has a span.
    pub fn sweep_scanline(&mut self, sl: &mut ScanlineU8) -> (r: bool)
        requires
            old(self)@.wf(),
            old(self)@.rows_ready(),
            pixel_ok(old(sl)@.min_x),
        ensures
            final(self)@ == (RasterState { scan_y: final(self)@.scan_y, ..old(self)@ }),
            final(self)@.wf(),
            r ==> ({
                let y = final(self)@.scan_y - 1;
                &&& 0 <= y <= old(self)@.outline.max_y
                &&& old(self)@.scan_y <= y
                &&& final(sl)@ == (ScanlineView { y, ..old(self)@.scanline(y, old(sl)@) })
                &&& final(sl)@.spans.len() > 0
                &&& final(sl)@.wf()
                &&& forall|k: int|
                    0 <= k < y && old(self)@.scan_y <= k ==> old(self)@.row_is_blank(k, old(sl)@)
            }),
            !r ==> ({
                &&& final(self)@.scan_y == max3(old(self)@.scan_y, 0, old(self)@.outline.max_y + 1)
                &&& forall|k: int|
                    0 <= k <= old(self)@.outline.max_y && old(self)@.scan_y <= k ==> old(
                        self,
                    )@.row_is_blank(k, old(sl)@)
                &&& final(sl)@ == (if max3(old(self)@.scan_y, 0, 0) > old(self)@.outline.max_y {
                    old(sl)@
                } else {
                    old(sl)@.cleared()
                })
            }),
    {
        let ghost start = self@;
        let ghost sl0 = sl@;
        let ghost rule = self@.filling_rule;
        let ghost gamma = self@.gamma;
        loop
            invariant
                start == old(self)@,
                sl0 == old(sl)@,
                self@ == (RasterState { scan_y: self@.scan_y, ..start }),
                start.wf(),
                start.rows_ready(),
                rule == start.filling_rule,
                gamma == start.gamma,
                start.scan_y <= self@.scan_y,
                self@.scan_y <= max3(start.scan_y, 0, start.outline.max_y + 1),
                pixel_ok(sl0.min_x),
                sl@.min_x == sl0.min_x,
                sl@.y == sl0.y,
                sl@ == (if max3(start.scan_y, 0, 0) >= self@.scan_y {
                    sl0
                } else {
                    sl0.cleared()
                }),
                forall|k: int|
                    0 <= k < self@.scan_y && start.scan_y <= k ==> start.row_is_blank(k, sl0),
            decreases
                    (if start.outline.max_y > 0 {
                        start.outline.max_y
                    } else {
                        0
                    }) + 1 - self@.scan_y,
        {
            if self.scan_y < 0 {
                self.scan_y = self.scan_y + 1;
                continue ;
            }
            if self.scan_y > self.outline.max_y() {
                return false;
            }
            sl.reset_spans();
            proof {
                reveal(CellStore::rows_within);
            }
            let cells = self.outline.scanline_cells(self.scan_y);
            let n = cells.len();
            let ghost row = cells@;
            let ghost base = sl@;
            assert(base == sl0.cleared());
            let mut i: usize = 0;
            let mut cover: i64 = 0;
            while i < n
                invariant
                    row == cells@,
                    n == row.len(),
                    n <= MAX_CELLS,
                    all_within(row),
                    0 <= i <= n,
                    -(i * COVER_LIMIT) <= cover <= i * COVER_LIMIT,
                    sl@.wf(),
                    sl@.min_x == sl0.min_x,
                    sl@.y == sl0.y,
                    self@.gamma.len() == 256,
                    rule == self@.filling_rule,
                    gamma == self@.gamma,
                    sweep_from(row, 0, 0, base, rule, gamma) == sweep_from(
                        row,
                        i as int,
                        cover as int,
                        sl@,
                        rule,
                        gamma,
                    ),
                decreases n - i,
            {
                let ghost i0 = i as int;
                let ghost cover0 = cover as int;
                let ghost sl_before = sl@;
                let mut x: i32 = cells[i].x;
                let mut area: i64 = cells[i].area;
                cover = cover + cells[i].cover;
                i = i + 1;
                assert(sum_cover(row, i0, i0) == 0 && sum_area(row, i0, i0) == 0);
                assert(sum_cover(row, i0, i0 + 1) == row[i0].cover);
                assert(sum_area(row, i0, i0 + 1) == row[i0].area);
                while i < n && cells[i].x == x
                    invariant
                        row == cells@,
                        n == row.len(),
                        n <= MAX_CELLS,
                        all_within(row),
                        0 <= i0 < i <= n,
                        group_end(row, i0) == group_end(row, i - 1),
                        x == row[i0].x,
                        row[i - 1].x == x,
                        cover == cover0 + sum_cover(row, i0, i as int),
                        area == sum_area(row, i0, i as int),
                        -(i * COVER_LIMIT) <= cover <= i * COVER_LIMIT,
                        -((i - i0) * AREA_LIMIT) <= area <= (i - i0) * AREA_LIMIT,
                    decreases n - i,
                {
                    area = area + cells[i].area;
                    cover = cover + cells[i].cover;
                    i = i + 1;
                }
                assert(group_end(row, i0) == i);
                let ghost x0 = x as int;
                if area != 0 {
                    let alpha = self.calculate_alpha(cover_to_area(cover) - area);
                    if alpha > 0 {
                        sl.add_cell(x, alpha);
                    }
                    x = x + 1;
                }
                if i < n && cells[i].x > x {
                    let alpha = self.calculate_alpha(cover_to_area(cover));
                    if alpha > 0 {
                        sl.add_span(x, cells[i].x - x, alpha);
                    }
                }
                assert(sweep_from(row, i0, cover0, sl_before, rule, gamma) == sweep_from(
                    row,
                    i as int,
                    cover as int,
                    sl@,
                    rule,
                    gamma,
                ));
            }
            assert(sl@ == start.scanline(self@.scan_y, sl0));
            if sl.num_spans() != 0 {
                sl.finalize(self.scan_y);
                self.scan_y = self.scan_y + 1;
                return true;
            }
            assert(sl@.spans =~= Seq::empty());
            assert(sl@ == sl0.cleared());
            self.scan_y = self.scan_y + 1;
        }
    }
}

} // verus!
