//! Conservation of cover: what a line adds to the cells, summed over all of
//! them, is its height. A line that lies wholly left or wholly right of the clip
//! box is the exception: it draws nothing.

use crate::cell::{
    abs, accumulate, add_to_last, apply_visits, coord_ok, insert_by_x, lemma_insert_by_x,
    lemma_piece_reach, lemma_segment_reach, pixel_ok, set_current, sorted_row, trim, Cell,
    CellStore, RowPiece, Segment, Visit,
};
use crate::clip::{lemma_cut_x_between, lemma_cut_y_between, ClipBox, ClipState};
use crate::paths::{PathCommand, Vertex};
use crate::rast::{sum_cover, PathStatus, RasterState};
use crate::util::pixel_of;
use vstd::prelude::*;

verus! {

/// The sum of the covers of a sequence of cells.
pub open spec fn total_cover(cells: Seq<Cell>) -> int
    decreases cells.len(),
{
    if cells.len() == 0 {
        0
    } else {
        total_cover(cells.drop_last()) + cells.last().cover
    }
}

/// The sum of the covers of a sequence of visits.
pub open spec fn visits_cover(visits: Seq<Visit>) -> int
    decreases visits.len(),
{
    if visits.len() == 0 {
        0
    } else {
        visits_cover(visits.drop_last()) + visits.last().cover
    }
}

/// Whether no visit of a sequence is higher than a pixel.
pub open spec fn all_low(visits: Seq<Visit>) -> bool {
    forall|i: int| 0 <= i < visits.len() ==> -256 <= (#[trigger] visits[i]).cover <= 256
}

/// The sum of the heights of a sequence of segments.
pub open spec fn total_height(segs: Seq<Segment>) -> int
    decreases segs.len(),
{
    if segs.len() == 0 {
        0
    } else {
        total_height(segs.drop_last()) + segs.last().y2 - segs.last().y1
    }
}

/// A cell more adds its cover to the sum.
pub proof fn lemma_cover_push(cells: Seq<Cell>, c: Cell)
    ensures
        total_cover(cells.push(c)) == total_cover(cells) + c.cover,
{
    assert(cells.push(c).drop_last() =~= cells);
}

/// The visits of two runs add up.
pub proof fn lemma_visits_cover_concat(a: Seq<Visit>, b: Seq<Visit>)
    ensures
        visits_cover(a + b) == visits_cover(a) + visits_cover(b),
        all_low(a) && all_low(b) ==> all_low(a + b),
    decreases b.len(),
{
    if b.len() == 0 {
        assert(a + b =~= a);
    } else {
        lemma_visits_cover_concat(a, b.drop_last());
        assert((a + b).drop_last() =~= a + b.drop_last());
        assert((a + b).last() == b.last());
    }
    if all_low(a) && all_low(b) {
        assert forall|i: int| 0 <= i < (a + b).len() implies -256 <= (#[trigger] (a + b)[i]).cover
            <= 256 by {
            if i < a.len() {
                assert((a + b)[i] == a[i]);
            } else {
                assert((a + b)[i] == b[i - a.len()]);
            }
        }
    }
}

/// A visit adds its cover to the sum of the covers of the cells.
pub proof fn lemma_accumulate_cover(cells: Seq<Cell>, v: Visit)
    requires
        -256 <= v.cover <= 256,
    ensures
        total_cover(accumulate(cells, v)) == total_cover(cells) + v.cover,
{
    let fresh = Cell { x: v.x as i32, y: v.y as i32, cover: 0, area: 0 };
    let s = set_current(cells, v.x, v.y);
    if cells.len() > 0 && cells.last().is_at(v.x, v.y) && cells.last().has_room() {
    } else if cells.len() > 0 && cells.last().is_blank() {
        lemma_cover_push(cells.drop_last(), fresh);
    } else {
        lemma_cover_push(cells, fresh);
    }
    assert(total_cover(s) == total_cover(cells));
    let c = s.last();
    let d = Cell { x: c.x, y: c.y, cover: (c.cover + v.cover) as i64, area: (c.area + v.area) as i64 };
    let t = add_to_last(s, v.cover, v.area);
    assert(t =~= s.drop_last().push(d));
    lemma_cover_push(s.drop_last(), d);
}

/// A run of visits adds the sum of its covers to the sum of the covers of the
/// cells.
pub proof fn lemma_apply_visits_cover(cells: Seq<Cell>, visits: Seq<Visit>)
    requires
        all_low(visits),
    ensures
        total_cover(apply_visits(cells, visits)) == total_cover(cells) + visits_cover(visits),
    decreases visits.len(),
{
    if visits.len() > 0 {
        assert(all_low(visits.drop_last())) by {
            assert forall|i: int| 0 <= i < visits.drop_last().len() implies -256 <= (
            #[trigger] visits.drop_last()[i]).cover <= 256 by {
                assert(visits.drop_last()[i] == visits[i]);
            }
        }
        lemma_apply_visits_cover(cells, visits.drop_last());
        lemma_accumulate_cover(apply_visits(cells, visits.drop_last()), visits.last());
    }
}

/// The first `n` visits of a piece that has height.
pub open spec fn piece_visits(pc: RowPiece, n: int) -> Seq<Visit> {
    Seq::new(n as nat, |i: int| pc.visit(i))
}

/// The first visits of a piece add up to the height that the piece has gained
/// where it leaves the last of their columns.
pub proof fn lemma_piece_cover_upto(pc: RowPiece, n: int)
    requires
        pc.ok(),
        0 <= n <= pc.columns(),
    ensures
        all_low(piece_visits(pc, n)),
        visits_cover(piece_visits(pc, n)) == (if n == 0 {
            0
        } else {
            pc.y_out(n - 1) - pc.y1
        }),
    decreases n,
{
    if n > 0 {
        lemma_piece_cover_upto(pc, n - 1);
        let now = piece_visits(pc, n);
        let before = piece_visits(pc, n - 1);
        assert(now.drop_last() =~= before);
        assert(now.last() == pc.visit(n - 1));
        if n - 1 >= 1 {
            lemma_piece_reach(pc, n - 1);
        }
        if n <= pc.columns() - 1 {
            lemma_piece_reach(pc, n);
        }
        assert(-256 <= pc.visit(n - 1).cover <= 256);
        assert forall|i: int| 0 <= i < now.len() implies -256 <= (#[trigger] now[i]).cover
            <= 256 by {
            if i < n - 1 {
                assert(now[i] == before[i]);
            }
        }
    }
}

/// The visits of a piece add up to its height.
pub proof fn lemma_piece_cover(pc: RowPiece)
    requires
        pc.ok(),
    ensures
        all_low(pc.visits()),
        visits_cover(pc.visits()) == pc.y2 - pc.y1,
{
    if pc.y1 == pc.y2 {
        let v = Visit { x: pixel_of(pc.x2), y: pc.ey, cover: 0, area: 0 };
        assert(seq![v].drop_last() =~= Seq::<Visit>::empty());
        assert(seq![v].last() == v);
        assert(visits_cover(Seq::<Visit>::empty()) == 0);
    } else {
        lemma_piece_cover_upto(pc, pc.columns());
        assert(pc.visits() =~= piece_visits(pc, pc.columns()));
    }
}

/// The height that a segment has gained where it leaves the `j`-th row on its
/// way.
pub open spec fn height_after(sg: Segment, j: int) -> int {
    if j == sg.rows() - 1 {
        sg.y2 - sg.y1
    } else if sg.step() > 0 {
        256 * (sg.row(j) + 1) - sg.y1
    } else {
        256 * sg.row(j) - sg.y1
    }
}

/// The visits of the first rows of a segment add up to the height that the
/// segment has gained where it leaves the last of them.
pub proof fn lemma_segment_cover_upto(sg: Segment, n: int)
    requires
        sg.ok(),
        0 <= n <= sg.rows(),
    ensures
        all_low(sg.visits_upto(n)),
        visits_cover(sg.visits_upto(n)) == (if n == 0 {
            0
        } else {
            height_after(sg, n - 1)
        }),
    decreases n,
{
    if n > 0 {
        lemma_segment_cover_upto(sg, n - 1);
        let j = n - 1;
        let p = sg.piece(j);
        let zv = Visit { x: pixel_of(p.x1), y: p.ey, cover: 0, area: 0 };
        let before = sg.visits_upto(j);
        if j >= 1 {
            lemma_segment_reach(sg, j);
        }
        if j + 1 <= sg.rows() - 1 {
            lemma_segment_reach(sg, j + 1);
        }
        assert(p.ok());
        lemma_piece_cover(p);
        assert(before.push(zv) =~= before + seq![zv]);
        assert(seq![zv].drop_last() =~= Seq::<Visit>::empty());
        assert(seq![zv].last() == zv);
        assert(visits_cover(Seq::<Visit>::empty()) == 0);
        assert(visits_cover(seq![zv]) == 0);
        assert(all_low(seq![zv]));
        lemma_visits_cover_concat(before, seq![zv]);
        lemma_visits_cover_concat(before.push(zv), p.visits());
        assert(sg.visits_upto(n) == before.push(zv) + p.visits());
    }
}

/// Dropping a blank last cell leaves the sum of the covers as it is.
pub proof fn lemma_trim_cover(cells: Seq<Cell>)
    ensures
        total_cover(trim(cells)) == total_cover(cells),
{
}

/// Cover is conserved: a line adds its height to the sum of the covers of the
/// cells, whatever its direction and however many cells it touches.
pub proof fn lemma_line_conserves_cover(st: CellStore, s: Segment)
    requires
        s.ok(),
    ensures
        total_cover(st.with_line(s).cells) == total_cover(st.cells) + s.y2 - s.y1,
    decreases abs(s.x2 - s.x1),
{
    if s.is_long() {
        lemma_line_conserves_cover(st, s.first_half());
        lemma_line_conserves_cover(st.with_line(s.first_half()), s.second_half());
    } else {
        lemma_segment_cover_upto(s, s.rows());
        lemma_apply_visits_cover(st.cells, s.visits());
        lemma_trim_cover(apply_visits(st.cells, s.visits()));
    }
}

/// A run of lines adds the sum of their heights to the sum of the covers of the
/// cells.
pub proof fn lemma_lines_conserve_cover(st: CellStore, segs: Seq<Segment>)
    requires
        forall|i: int| 0 <= i < segs.len() ==> (#[trigger] segs[i]).ok(),
    ensures
        total_cover(st.with_lines(segs).cells) == total_cover(st.cells) + total_height(segs),
    decreases segs.len(),
{
    if segs.len() > 0 {
        assert forall|i: int| 0 <= i < segs.drop_last().len() implies (
        #[trigger] segs.drop_last()[i]).ok() by {
            assert(segs.drop_last()[i] == segs[i]);
        }
        lemma_lines_conserve_cover(st, segs.drop_last());
        lemma_line_conserves_cover(st.with_lines(segs.drop_last()), segs.last());
    }
}

/// The heights of two runs of segments add up.
pub proof fn lemma_total_height_concat(a: Seq<Segment>, b: Seq<Segment>)
    ensures
        total_height(a + b) == total_height(a) + total_height(b),
    decreases b.len(),
{
    if b.len() == 0 {
        assert(a + b =~= a);
    } else {
        lemma_total_height_concat(a, b.drop_last());
        assert((a + b).drop_last() =~= a + b.drop_last());
        assert((a + b).last() == b.last());
    }
}

/// The nearest height inside a clip box.
pub open spec fn clamp_y(b: ClipBox, y: int) -> int {
    if y < b.y1 {
        b.y1
    } else if y > b.y2 {
        b.y2
    } else {
        y
    }
}

/// Whether every segment of a sequence lies in the drawable range.
pub open spec fn all_ok(segs: Seq<Segment>) -> bool {
    forall|i: int| 0 <= i < segs.len() ==> (#[trigger] segs[i]).ok()
}

/// What is drawn of a part of a segment is as high as the part is inside the
/// box.
pub proof fn lemma_part_height(b: ClipBox, p: (int, int), q: (int, int))
    requires
        b.ok(),
        coord_ok(p.0),
        coord_ok(p.1),
        coord_ok(q.0),
        coord_ok(q.1),
    ensures
        total_height(b.clip_part(p, q)) == clamp_y(b, q.1) - clamp_y(b, p.1),
        all_ok(b.clip_part(p, q)),
{
    let s = Segment { x1: b.clamp_x(p.0), y1: p.1, x2: b.clamp_x(q.0), y2: q.1 };
    let a = b.side_y(s.y1);
    let c = b.side_y(s.y2);
    let part = b.clip_part(p, q);
    assert(total_height(Seq::<Segment>::empty()) == 0);
    if a == 0 && c == 0 {
        assert(part.drop_last() =~= Seq::<Segment>::empty());
    } else if a == c {
    } else {
        if a != 0 {
            lemma_cut_x_between(s, b.edge_y(a));
        }
        if c != 0 {
            lemma_cut_x_between(s, b.edge_y(c));
        }
        assert(part.drop_last() =~= Seq::<Segment>::empty());
        assert(part.last() == part[0]);
    }
}

/// Whether both ends of the segment `s` lie left of the box `b`, or both right
/// of it.
pub open spec fn lies_beside(b: ClipBox, s: Segment) -> bool {
    b.side_x(s.x1) != 0 && b.side_x(s.x1) == b.side_x(s.x2)
}

/// Clipping keeps the height inside the box: what is drawn of a segment that
/// does not lie beside the box is as high, in sum, as the segment is between the
/// lower and the upper edge of the box, whatever is cut off at its sides.
pub proof fn lemma_emitted_height(b: ClipBox, s: Segment)
    requires
        b.ok(),
        s.ok(),
        !lies_beside(b, s),
    ensures
        total_height(b.emitted(s)) == clamp_y(b, s.y2) - clamp_y(b, s.y1),
        all_ok(b.emitted(s)),
{
    assert(total_height(Seq::<Segment>::empty()) == 0);
    let mid = b.crossings(s);
    let p = (s.x1, s.y1);
    let q = (s.x2, s.y2);
    if b.side_x(s.x1) != b.side_x(s.x2) {
        if (s.x1 <= b.x1 <= s.x2) || (s.x2 <= b.x1 <= s.x1) {
            lemma_cut_y_between(s, b.x1);
        }
        if (s.x1 <= b.x2 <= s.x2) || (s.x2 <= b.x2 <= s.x1) {
            lemma_cut_y_between(s, b.x2);
        }
    }
    if b.beyond_one_edge(s) {
    } else if mid.len() == 0 {
        lemma_part_height(b, p, q);
    } else if mid.len() == 1 {
        lemma_part_height(b, p, mid[0]);
        lemma_part_height(b, mid[0], q);
        lemma_total_height_concat(b.clip_part(p, mid[0]), b.clip_part(mid[0], q));
        lemma_all_ok_concat(b.clip_part(p, mid[0]), b.clip_part(mid[0], q));
    } else {
        lemma_part_height(b, p, mid[0]);
        lemma_part_height(b, mid[0], mid[1]);
        lemma_part_height(b, mid[1], q);
        lemma_total_height_concat(b.clip_part(p, mid[0]), b.clip_part(mid[0], mid[1]));
        lemma_all_ok_concat(b.clip_part(p, mid[0]), b.clip_part(mid[0], mid[1]));
        lemma_total_height_concat(
            b.clip_part(p, mid[0]) + b.clip_part(mid[0], mid[1]),
            b.clip_part(mid[1], q),
        );
        lemma_all_ok_concat(
            b.clip_part(p, mid[0]) + b.clip_part(mid[0], mid[1]),
            b.clip_part(mid[1], q),
        );
    }
}

/// Two runs of segments in the drawable range make one.
pub proof fn lemma_all_ok_concat(a: Seq<Segment>, b: Seq<Segment>)
    requires
        all_ok(a),
        all_ok(b),
    ensures
        all_ok(a + b),
{
    assert forall|i: int| 0 <= i < (a + b).len() implies (#[trigger] (a + b)[i]).ok() by {
        if i < a.len() {
            assert((a + b)[i] == a[i]);
        } else {
            assert((a + b)[i] == b[i - a.len()]);
        }
    }
}

/// The height `y` as a clipper sees it: moved into its clip box, if it has one.
pub open spec fn seen_y(c: ClipState, y: int) -> int {
    match c.clip_box {
        Some(b) => clamp_y(b, y),
        None => y,
    }
}

/// Whether a line from the current point to the column `x` lies beside the clip
/// box: wholly left of it or wholly right of it. Such a line draws nothing.
pub open spec fn beside(c: ClipState, x: int) -> bool {
    c.clip_box matches Some(b) && b.side_x(c.x) != 0 && b.side_x(c.x) == b.side_x(x)
}

/// A line to `(x, y)` that does not lie beside the clip box adds to the sum of
/// the covers the height between the current point and `(x, y)`, as far as it
/// lies inside the clip box.
pub proof fn lemma_line_to_conserves_cover(st: RasterState, x: int, y: int)
    requires
        st.clipper.wf(),
        coord_ok(x),
        coord_ok(y),
        !beside(st.clipper, x),
    ensures
        total_cover(st.with_line_to(x, y).outline.cells) == total_cover(st.outline.cells) + seen_y(
            st.clipper,
            y,
        ) - seen_y(st.clipper, st.clipper.y),
        seen_y(st.with_line_to(x, y).clipper, y) == seen_y(st.clipper, y),
{
    let s = Segment { x1: st.clipper.x, y1: st.clipper.y, x2: x, y2: y };
    let segs = st.clipper.emitted(x, y);
    match st.clipper.clip_box {
        Some(b) => {
            lemma_emitted_height(b, s);
        },
        None => {
            assert(segs.drop_last() =~= Seq::<Segment>::empty());
            assert(total_height(Seq::<Segment>::empty()) == 0);
            assert(segs.last() == s);
        },
    }
    lemma_lines_conserve_cover(st.outline, segs);
}

/// Whether the covers of a rasterizer are in balance with its path: they add up
/// to the height between the start of the current sub-path and the current
/// point, as far as it lies inside the clip box; and outside a run of lines the
/// current point is that start.
pub open spec fn balanced(st: RasterState) -> bool {
    &&& st.status != PathStatus::LineTo ==> st.clipper.y == st.y0
    &&& total_cover(st.outline.cells) == seen_y(st.clipper, st.clipper.y) - seen_y(
        st.clipper,
        st.y0,
    )
}

/// Whether the vertex `v` makes the rasterizer draw a line that lies beside the
/// clip box: a line to the vertex, or the line that closes the sub-path.
pub open spec fn draws_beside(st: RasterState, v: Vertex<i64>) -> bool {
    match v.cmd {
        PathCommand::LineTo => beside(st.clipper, v.x as int),
        PathCommand::Close => st.status == PathStatus::LineTo && beside(st.clipper, st.x0),
        _ => false,
    }
}

/// A vertex keeps the balance, unless it starts a sub-path while the one before
/// is still open, or draws a line that lies beside the clip box.
pub proof fn lemma_vertex_keeps_balance(st: RasterState, v: Vertex<i64>)
    requires
        st.wf(),
        balanced(st),
        coord_ok(v.x as int),
        coord_ok(v.y as int),
        v.cmd == PathCommand::MoveTo ==> st.status != PathStatus::LineTo,
        draws_beside(st, v) == false,
    ensures
        balanced(st.with_vertex(v)),
{
    match v.cmd {
        PathCommand::LineTo => {
            lemma_line_to_conserves_cover(st, v.x as int, v.y as int);
        },
        PathCommand::Close => {
            if st.status == PathStatus::LineTo {
                lemma_line_to_conserves_cover(st, st.x0, st.y0);
            }
        },
        _ => {},
    }
}

/// Closed paths leave no cover behind: once the current sub-path of a rasterizer
/// in balance is closed, by a line that does not lie beside the clip box, the
/// covers of all cells add up to zero.
pub proof fn lemma_closed_path_has_no_cover(st: RasterState)
    requires
        st.wf(),
        balanced(st),
        st.status == PathStatus::LineTo ==> !beside(st.clipper, st.x0),
    ensures
        total_cover(st.closed().outline.cells) == 0,
        total_cover(st.rewound().outline.cells) == 0,
        balanced(st.closed()),
{
    if st.status == PathStatus::LineTo {
        lemma_line_to_conserves_cover(st, st.x0, st.y0);
    }
}

/// A rasterizer without cells whose current point is the start of its sub-path
/// is in balance; so is a new one.
pub proof fn lemma_empty_is_balanced(st: RasterState)
    requires
        st.outline.cells.len() == 0,
        st.clipper.y == st.y0,
    ensures
        balanced(st),
{
}

/// The sum of the covers of the cells of row `y`.
pub open spec fn row_cover(cells: Seq<Cell>, y: int) -> int
    decreases cells.len(),
{
    if cells.len() == 0 {
        0
    } else {
        row_cover(cells.drop_last(), y) + (if cells.last().y == y {
            cells.last().cover as int
        } else {
            0
        })
    }
}

/// The sum of the covers of the visits to row `y`.
pub open spec fn visits_row_cover(visits: Seq<Visit>, y: int) -> int
    decreases visits.len(),
{
    if visits.len() == 0 {
        0
    } else {
        visits_row_cover(visits.drop_last(), y) + (if visits.last().y == y {
            visits.last().cover
        } else {
            0
        })
    }
}

/// Whether every visit of a sequence is to a row of the drawable range.
pub open spec fn all_rows_ok(visits: Seq<Visit>) -> bool {
    forall|i: int| 0 <= i < visits.len() ==> pixel_ok((#[trigger] visits[i]).y)
}

/// The height `v` moved into row `y`: the nearest height between the lower and
/// the upper edge of the row.
pub open spec fn in_row(v: int, y: int) -> int {
    if v < 256 * y {
        256 * y
    } else if v > 256 * y + 256 {
        256 * y + 256
    } else {
        v
    }
}

/// The sum of the heights that the segments of a sequence have inside row `y`.
pub open spec fn row_height(segs: Seq<Segment>, y: int) -> int
    decreases segs.len(),
{
    if segs.len() == 0 {
        0
    } else {
        row_height(segs.drop_last(), y) + in_row(segs.last().y2, y) - in_row(segs.last().y1, y)
    }
}

/// A cell more adds its cover to the sum of its row.
pub proof fn lemma_row_cover_push(cells: Seq<Cell>, c: Cell, y: int)
    ensures
        row_cover(cells.push(c), y) == row_cover(cells, y) + (if c.y == y {
            c.cover as int
        } else {
            0
        }),
{
    assert(cells.push(c).drop_last() =~= cells);
}

/// The visits of two runs add up row by row.
pub proof fn lemma_visits_row_cover_concat(a: Seq<Visit>, b: Seq<Visit>, y: int)
    ensures
        visits_row_cover(a + b, y) == visits_row_cover(a, y) + visits_row_cover(b, y),
        all_rows_ok(a) && all_rows_ok(b) ==> all_rows_ok(a + b),
    decreases b.len(),
{
    if b.len() == 0 {
        assert(a + b =~= a);
    } else {
        lemma_visits_row_cover_concat(a, b.drop_last(), y);
        assert((a + b).drop_last() =~= a + b.drop_last());
        assert((a + b).last() == b.last());
    }
    if all_rows_ok(a) && all_rows_ok(b) {
        assert forall|i: int| 0 <= i < (a + b).len() implies pixel_ok((#[trigger] (a + b)[i]).y) by {
            if i < a.len() {
                assert((a + b)[i] == a[i]);
            } else {
                assert((a + b)[i] == b[i - a.len()]);
            }
        }
    }
}

/// A visit adds its cover to the sum of its row and leaves the other rows as
/// they are.
pub proof fn lemma_accumulate_row_cover(cells: Seq<Cell>, v: Visit, y: int)
    requires
        -256 <= v.cover <= 256,
        pixel_ok(v.y),
    ensures
        row_cover(accumulate(cells, v), y) == row_cover(cells, y) + (if v.y == y {
            v.cover
        } else {
            0
        }),
{
    let fresh = Cell { x: v.x as i32, y: v.y as i32, cover: 0, area: 0 };
    let s = set_current(cells, v.x, v.y);
    if cells.len() > 0 && cells.last().is_at(v.x, v.y) && cells.last().has_room() {
    } else if cells.len() > 0 && cells.last().is_blank() {
        lemma_row_cover_push(cells.drop_last(), fresh, y);
    } else {
        lemma_row_cover_push(cells, fresh, y);
    }
    assert(row_cover(s, y) == row_cover(cells, y));
    let c = s.last();
    assert(c.y == v.y);
    let d = Cell { x: c.x, y: c.y, cover: (c.cover + v.cover) as i64, area: (c.area + v.area) as i64 };
    let t = add_to_last(s, v.cover, v.area);
    assert(t =~= s.drop_last().push(d));
    lemma_row_cover_push(s.drop_last(), d, y);
}

/// A run of visits adds to the sum of each row the covers of its visits to that
/// row.
pub proof fn lemma_apply_visits_row_cover(cells: Seq<Cell>, visits: Seq<Visit>, y: int)
    requires
        all_low(visits),
        all_rows_ok(visits),
    ensures
        row_cover(apply_visits(cells, visits), y) == row_cover(cells, y) + visits_row_cover(
            visits,
            y,
        ),
    decreases visits.len(),
{
    if visits.len() > 0 {
        assert(all_low(visits.drop_last()) && all_rows_ok(visits.drop_last())) by {
            assert forall|i: int| 0 <= i < visits.drop_last().len() implies -256 <= (
            #[trigger] visits.drop_last()[i]).cover <= 256 && pixel_ok(visits.drop_last()[i].y) by {
                assert(visits.drop_last()[i] == visits[i]);
            }
        }
        lemma_apply_visits_row_cover(cells, visits.drop_last(), y);
        lemma_accumulate_row_cover(apply_visits(cells, visits.drop_last()), visits.last(), y);
    }
}

/// Visits to one row add up to their sum in that row and to nothing in any
/// other.
pub proof fn lemma_one_row(visits: Seq<Visit>, ey: int, y: int)
    requires
        forall|i: int| 0 <= i < visits.len() ==> (#[trigger] visits[i]).y == ey,
    ensures
        visits_row_cover(visits, y) == (if ey == y {
            visits_cover(visits)
        } else {
            0
        }),
    decreases visits.len(),
{
    if visits.len() > 0 {
        assert forall|i: int| 0 <= i < visits.drop_last().len() implies (
        #[trigger] visits.drop_last()[i]).y == ey by {
            assert(visits.drop_last()[i] == visits[i]);
        }
        lemma_one_row(visits.drop_last(), ey, y);
    }
}

/// The height at which a segment leaves the `j`-th row on its way.
pub open spec fn leaves_at(sg: Segment, j: int) -> int {
    sg.y1 + height_after(sg, j)
}

/// The visits of the first rows of a segment add to each row the height that
/// the segment has inside it, as far as it has come.
pub proof fn lemma_segment_row_cover_upto(sg: Segment, n: int, y: int)
    requires
        sg.ok(),
        0 <= n <= sg.rows(),
    ensures
        all_rows_ok(sg.visits_upto(n)),
        visits_row_cover(sg.visits_upto(n), y) == (if n == 0 {
            0
        } else {
            in_row(leaves_at(sg, n - 1), y) - in_row(sg.y1, y)
        }),
    decreases n,
{
    if n > 0 {
        lemma_segment_row_cover_upto(sg, n - 1, y);
        lemma_segment_cover_upto(sg, n - 1);
        lemma_segment_cover_upto(sg, n);
        let j = n - 1;
        let p = sg.piece(j);
        let zv = Visit { x: pixel_of(p.x1), y: p.ey, cover: 0, area: 0 };
        let before = sg.visits_upto(j);
        if j >= 1 {
            lemma_segment_reach(sg, j);
        }
        if j + 1 <= sg.rows() - 1 {
            lemma_segment_reach(sg, j + 1);
        }
        assert(p.ok());
        lemma_piece_cover(p);
        let pv = p.visits();
        assert forall|i: int| 0 <= i < pv.len() implies (#[trigger] pv[i]).y == p.ey by {}
        lemma_one_row(pv, p.ey, y);
        assert(all_rows_ok(pv));
        assert(before.push(zv) =~= before + seq![zv]);
        assert(seq![zv].drop_last() =~= Seq::<Visit>::empty());
        assert(seq![zv].last() == zv);
        assert(visits_row_cover(Seq::<Visit>::empty(), y) == 0);
        assert(visits_row_cover(seq![zv], y) == 0);
        assert(all_rows_ok(seq![zv]));
        lemma_visits_row_cover_concat(before, seq![zv], y);
        lemma_visits_row_cover_concat(before.push(zv), pv, y);
        assert(sg.visits_upto(n) == before.push(zv) + pv);
        let from = if j == 0 {
            sg.y1
        } else {
            leaves_at(sg, j - 1)
        };
        let to = leaves_at(sg, j);
        assert(256 * p.ey <= from <= 256 * p.ey + 256);
        assert(256 * p.ey <= to <= 256 * p.ey + 256);
        assert(to - from == p.y2 - p.y1);
    }
}

/// Cover is conserved row by row: a line adds to the covers of each row the
/// height that it has inside that row.
pub proof fn lemma_line_conserves_row_cover(st: CellStore, s: Segment, y: int)
    requires
        s.ok(),
    ensures
        row_cover(st.with_line(s).cells, y) == row_cover(st.cells, y) + in_row(s.y2, y) - in_row(
            s.y1,
            y,
        ),
    decreases abs(s.x2 - s.x1),
{
    if s.is_long() {
        lemma_line_conserves_row_cover(st, s.first_half(), y);
        lemma_line_conserves_row_cover(st.with_line(s.first_half()), s.second_half(), y);
    } else {
        lemma_segment_cover_upto(s, s.rows());
        lemma_segment_row_cover_upto(s, s.rows(), y);
        lemma_apply_visits_row_cover(st.cells, s.visits(), y);
    }
}

/// A run of lines adds to the covers of each row the heights that the lines have
/// inside that row.
pub proof fn lemma_lines_conserve_row_cover(st: CellStore, segs: Seq<Segment>, y: int)
    requires
        all_ok(segs),
    ensures
        row_cover(st.with_lines(segs).cells, y) == row_cover(st.cells, y) + row_height(segs, y),
    decreases segs.len(),
{
    if segs.len() > 0 {
        assert forall|i: int| 0 <= i < segs.drop_last().len() implies (
        #[trigger] segs.drop_last()[i]).ok() by {
            assert(segs.drop_last()[i] == segs[i]);
        }
        lemma_lines_conserve_row_cover(st, segs.drop_last(), y);
        lemma_line_conserves_row_cover(st.with_lines(segs.drop_last()), segs.last(), y);
    }
}

/// The heights of two runs of segments add up row by row.
pub proof fn lemma_row_height_concat(a: Seq<Segment>, b: Seq<Segment>, y: int)
    ensures
        row_height(a + b, y) == row_height(a, y) + row_height(b, y),
    decreases b.len(),
{
    if b.len() == 0 {
        assert(a + b =~= a);
    } else {
        lemma_row_height_concat(a, b.drop_last(), y);
        assert((a + b).drop_last() =~= a + b.drop_last());
        assert((a + b).last() == b.last());
    }
}

/// What is drawn of a part of a segment has, inside each row, the height that
/// the part has there inside the box.
pub proof fn lemma_part_row_height(b: ClipBox, p: (int, int), q: (int, int), y: int)
    requires
        b.ok(),
    ensures
        row_height(b.clip_part(p, q), y) == in_row(clamp_y(b, q.1), y) - in_row(clamp_y(b, p.1), y),
{
    let part = b.clip_part(p, q);
    assert(row_height(Seq::<Segment>::empty(), y) == 0);
    if part.len() > 0 {
        assert(part.drop_last() =~= Seq::<Segment>::empty());
        assert(part.last() == part[0]);
    }
}

/// Clipping keeps the height inside the box row by row, for a segment that does
/// not lie beside the box.
pub proof fn lemma_emitted_row_height(b: ClipBox, s: Segment, y: int)
    requires
        b.ok(),
        !lies_beside(b, s),
    ensures
        row_height(b.emitted(s), y) == in_row(clamp_y(b, s.y2), y) - in_row(clamp_y(b, s.y1), y),
{
    let mid = b.crossings(s);
    let p = (s.x1, s.y1);
    let q = (s.x2, s.y2);
    assert(row_height(Seq::<Segment>::empty(), y) == 0);
    if b.beyond_one_edge(s) {
    } else if mid.len() == 0 {
        lemma_part_row_height(b, p, q, y);
    } else if mid.len() == 1 {
        lemma_part_row_height(b, p, mid[0], y);
        lemma_part_row_height(b, mid[0], q, y);
        lemma_row_height_concat(b.clip_part(p, mid[0]), b.clip_part(mid[0], q), y);
    } else {
        lemma_part_row_height(b, p, mid[0], y);
        lemma_part_row_height(b, mid[0], mid[1], y);
        lemma_part_row_height(b, mid[1], q, y);
        lemma_row_height_concat(b.clip_part(p, mid[0]), b.clip_part(mid[0], mid[1]), y);
        lemma_row_height_concat(
            b.clip_part(p, mid[0]) + b.clip_part(mid[0], mid[1]),
            b.clip_part(mid[1], q),
            y,
        );
    }
}

/// A line to `(x, y)` that does not lie beside the clip box adds to the covers
/// of row `row` the height that lies between the current point and `(x, y)`,
/// inside the clip box and inside that row.
pub proof fn lemma_line_to_conserves_row_cover(st: RasterState, x: int, y: int, row: int)
    requires
        st.clipper.wf(),
        coord_ok(x),
        coord_ok(y),
        !beside(st.clipper, x),
    ensures
        row_cover(st.with_line_to(x, y).outline.cells, row) == row_cover(st.outline.cells, row)
            + in_row(seen_y(st.clipper, y), row) - in_row(seen_y(st.clipper, st.clipper.y), row),
{
    let s = Segment { x1: st.clipper.x, y1: st.clipper.y, x2: x, y2: y };
    let segs = st.clipper.emitted(x, y);
    match st.clipper.clip_box {
        Some(b) => {
            lemma_emitted_height(b, s);
            lemma_emitted_row_height(b, s, row);
        },
        None => {
            assert(segs.drop_last() =~= Seq::<Segment>::empty());
            assert(row_height(Seq::<Segment>::empty(), row) == 0);
            assert(segs.last() == s);
        },
    }
    lemma_lines_conserve_row_cover(st.outline, segs, row);
}

/// Whether the covers of row `row` are in balance with the path: they add up to
/// the height between the start of the current sub-path and the current point,
/// as far as it lies inside the clip box and inside that row; and outside a run
/// of lines the current point is that start.
pub open spec fn row_balanced(st: RasterState, row: int) -> bool {
    &&& st.status != PathStatus::LineTo ==> st.clipper.y == st.y0
    &&& row_cover(st.outline.cells, row) == in_row(seen_y(st.clipper, st.clipper.y), row) - in_row(
        seen_y(st.clipper, st.y0),
        row,
    )
}

/// A vertex keeps the balance of every row, unless it starts a sub-path while
/// the one before is still open, or draws a line that lies beside the clip box.
pub proof fn lemma_vertex_keeps_row_balance(st: RasterState, v: Vertex<i64>, row: int)
    requires
        st.wf(),
        row_balanced(st, row),
        coord_ok(v.x as int),
        coord_ok(v.y as int),
        v.cmd == PathCommand::MoveTo ==> st.status != PathStatus::LineTo,
        draws_beside(st, v) == false,
    ensures
        row_balanced(st.with_vertex(v), row),
{
    match v.cmd {
        PathCommand::LineTo => {
            lemma_line_to_conserves_row_cover(st, v.x as int, v.y as int, row);
        },
        PathCommand::Close => {
            if st.status == PathStatus::LineTo {
                lemma_line_to_conserves_row_cover(st, st.x0, st.y0, row);
            }
        },
        _ => {},
    }
}

/// Closed paths leave no cover behind in any row: once the current sub-path of a
/// rasterizer in balance is closed, by a line that does not lie beside the clip
/// box, the covers of the cells of each row add up to zero, so that no row is
/// covered beyond its last cell.
pub proof fn lemma_closed_path_has_no_row_cover(st: RasterState, row: int)
    requires
        st.wf(),
        row_balanced(st, row),
        st.status == PathStatus::LineTo ==> !beside(st.clipper, st.x0),
    ensures
        row_cover(st.closed().outline.cells, row) == 0,
        row_cover(st.rewound().outline.cells, row) == 0,
        row_balanced(st.closed(), row),
{
    if st.status == PathStatus::LineTo {
        lemma_line_to_conserves_row_cover(st, st.x0, st.y0, row);
    }
}

/// The sum of the covers of the first cells of a row does not depend on the
/// cells behind them.
pub proof fn lemma_sum_cover_prefix(a: Seq<Cell>, b: Seq<Cell>, n: int)
    requires
        0 <= n <= a.len(),
        n <= b.len(),
        forall|i: int| 0 <= i < n ==> a[i] == b[i],
    ensures
        sum_cover(a, 0, n) == sum_cover(b, 0, n),
    decreases n,
{
    if n > 0 {
        lemma_sum_cover_prefix(a, b, n - 1);
    }
}

/// A cell put into a row adds its cover to the sum of the row.
pub proof fn lemma_insert_cover(row: Seq<Cell>, c: Cell)
    ensures
        insert_by_x(row, c).len() == row.len() + 1,
        sum_cover(insert_by_x(row, c), 0, row.len() as int + 1) == sum_cover(row, 0, row.len() as int)
            + c.cover,
    decreases row.len(),
{
    lemma_insert_by_x(row, c);
    let n = row.len() as int;
    if row.len() == 0 || row.last().x <= c.x {
        lemma_sum_cover_prefix(row.push(c), row, n);
    } else {
        let head = insert_by_x(row.drop_last(), c);
        lemma_insert_cover(row.drop_last(), c);
        lemma_insert_by_x(row.drop_last(), c);
        lemma_sum_cover_prefix(head.push(row.last()), head, n);
        lemma_sum_cover_prefix(row, row.drop_last(), n - 1);
    }
}

/// Sorting keeps the covers: the cells of a sorted row add up to what the cells
/// of that row added up to before.
pub proof fn lemma_sorted_row_cover(cells: Seq<Cell>, y: int)
    ensures
        sum_cover(sorted_row(cells, y), 0, sorted_row(cells, y).len() as int) == row_cover(cells, y),
    decreases cells.len(),
{
    if cells.len() > 0 {
        lemma_sorted_row_cover(cells.drop_last(), y);
        if cells.last().y == y {
            lemma_insert_cover(sorted_row(cells.drop_last(), y), cells.last());
        }
    }
}

/// After the last cell of a row of a closed path nothing is covered: when the
/// sub-path of a rasterizer in balance has been closed, by a line that does not
/// lie beside the clip box, and the cells have been sorted, the covers of each
/// row add up to zero, so that the sweep of the row ends with no cover left to
/// fill a run.
pub proof fn lemma_closed_path_rows_end_uncovered(st: RasterState, row: int)
    requires
        st.wf(),
        row_balanced(st, row),
        st.status == PathStatus::LineTo ==> !beside(st.clipper, st.x0),
        st.outline.rows.len() == 0,
        0 <= row <= st.rewound().outline.max_y,
    ensures
        st.rewound().outline.rows.len() == st.rewound().outline.max_y + 1,
        sum_cover(
            st.rewound().outline.rows[row],
            0,
            st.rewound().outline.rows[row].len() as int,
        ) == 0,
{
    lemma_closed_path_has_no_row_cover(st, row);
    let c = st.closed().outline;
    assert(c.rows.len() == 0) by {
        lemma_with_line_keeps_rows(st.outline, st.clipper.emitted(st.x0, st.y0));
    }
    lemma_sorted_row_cover(c.cells, row);
}

/// Lines leave the sorted rows of a store as they are, and its largest row is
/// no smaller afterwards.
pub proof fn lemma_with_line_keeps_rows(st: CellStore, segs: Seq<Segment>)
    ensures
        st.with_lines(segs).rows == st.rows,
        st.with_lines(segs).max_y >= st.max_y,
    decreases segs.len(),
{
    if segs.len() > 0 {
        lemma_with_line_keeps_rows(st, segs.drop_last());
        lemma_one_line_keeps_rows(st.with_lines(segs.drop_last()), segs.last());
    }
}

/// A line leaves the sorted rows of a store as they are, and its largest row is
/// no smaller afterwards.
pub proof fn lemma_one_line_keeps_rows(st: CellStore, s: Segment)
    ensures
        st.with_line(s).rows == st.rows,
        st.with_line(s).max_y >= st.max_y,
    decreases abs(s.x2 - s.x1),
{
    if s.is_long() {
        lemma_one_line_keeps_rows(st, s.first_half());
        lemma_one_line_keeps_rows(st.with_line(s.first_half()), s.second_half());
    }
}

} // verus!
