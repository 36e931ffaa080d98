//! Coverage cells and the store that accumulates them while a path is traversed.

use crate::util::{floor_div_rem, frac_of, pixel_floor, pixel_frac, pixel_of};
use vstd::prelude::*;

verus! {

/// The smallest sub-pixel coordinate that can be rasterized.
pub const COORD_MIN: i64 = -0x8000_0000;

/// The largest sub-pixel coordinate that can be rasterized.
pub const COORD_MAX: i64 = 0x7FFF_FFFF;

/// The smallest pixel coordinate of a cell.
pub const PIXEL_MIN: i32 = -0x80_0000;

/// The largest pixel coordinate of a cell.
pub const PIXEL_MAX: i32 = 0x7F_FFFF;

/// The largest magnitude of `cover` that a single cell holds.
pub const COVER_LIMIT: i64 = 0x10_0000;

/// The largest magnitude of `area` that a single cell holds.
pub const AREA_LIMIT: i64 = 0x2000_0000;

/// The largest number of cells that can be sorted and swept.
pub const MAX_CELLS: u64 = 0x1_0000_0000;

/// A horizontal extent of this many sub-pixel units or more is drawn in two halves.
pub const DX_LIMIT: i64 = 0x40_0000;

/// Whether `v` is a sub-pixel coordinate that can be rasterized.
pub open spec fn coord_ok(v: int) -> bool {
    COORD_MIN <= v <= COORD_MAX
}

/// Whether `v` is a pixel coordinate that a cell can have.
pub open spec fn pixel_ok(v: int) -> bool {
    PIXEL_MIN <= v <= PIXEL_MAX
}

/// Reports whether `v` is a sub-pixel coordinate that can be rasterized.
pub fn coord_in_range(v: i64) -> (r: bool)
    ensures
        r == coord_ok(v as int),
{
    COORD_MIN <= v && v <= COORD_MAX
}

/// The accumulated coverage of one pixel.
#[derive(Clone, Copy, Debug, PartialEq, Eq)]
pub struct Cell {
    /// Pixel column.
    pub x: i32,
    /// Pixel row.
    pub y: i32,
    /// Net signed vertical extent, in sub-pixel units, of the path inside the pixel.
    pub cover: i64,
    /// Signed double area between the path and the left edge of the pixel.
    pub area: i64,
}

impl Cell {
    /// Whether the cell lies at pixel `(x, y)`.
    pub open spec fn is_at(self, x: int, y: int) -> bool {
        self.x == x && self.y == y
    }

    /// Whether the cell holds no coverage at all.
    pub open spec fn is_blank(self) -> bool {
        self.cover == 0 && self.area == 0
    }

    /// Whether one more sub-segment can be added without passing the limits.
    pub open spec fn has_room(self) -> bool {
        &&& -(COVER_LIMIT - 256) <= self.cover <= COVER_LIMIT - 256
        &&& -(AREA_LIMIT - 131072) <= self.area <= AREA_LIMIT - 131072
    }

    /// Whether position and contents are inside the limits of the store.
    pub open spec fn within_limits(self) -> bool {
        &&& pixel_ok(self.x as int)
        &&& pixel_ok(self.y as int)
        &&& -COVER_LIMIT <= self.cover <= COVER_LIMIT
        &&& -AREA_LIMIT <= self.area <= AREA_LIMIT
    }

    /// Creates a cell without coverage at a position that no pixel has.
    pub fn new() -> (c: Cell)
        ensures
            c == (Cell { x: i32::MAX, y: i32::MAX, cover: 0, area: 0 }),
    {
        Cell { x: i32::MAX, y: i32::MAX, cover: 0, area: 0 }
    }

    /// Creates a cell without coverage at pixel `(x, y)`.
    pub fn at(x: i32, y: i32) -> (c: Cell)
        ensures
            c == (Cell { x, y, cover: 0, area: 0 }),
    {
        Cell { x, y, cover: 0, area: 0 }
    }

    /// Reports whether the cell lies at pixel `(x, y)`.
    pub fn equal(&self, x: i32, y: i32) -> (r: bool)
        ensures
            r == self.is_at(x as int, y as int),
    {
        self.x == x && self.y == y
    }

    /// Reports whether the cell holds no coverage at all.
    pub fn is_empty(&self) -> (r: bool)
        ensures
            r == self.is_blank(),
    {
        self.cover == 0 && self.area == 0
    }

    /// Reports whether one more sub-segment can be added to the cell.
    pub fn can_take_more(&self) -> (r: bool)
        ensures
            r == self.has_room(),
    {
        -(COVER_LIMIT - 256) <= self.cover && self.cover <= COVER_LIMIT - 256 && -(AREA_LIMIT
            - 131072) <= self.area && self.area <= AREA_LIMIT - 131072
    }
}

/// One elementary sub-segment: the pixel it lies in and what it adds to that pixel.
pub struct Visit {
    /// Pixel column.
    pub x: int,
    /// Pixel row.
    pub y: int,
    /// Signed vertical extent of the sub-segment.
    pub cover: int,
    /// Signed double area between the sub-segment and the left edge of the pixel.
    pub area: int,
}

impl Visit {
    /// Whether the visit stays inside one pixel of the drawable range.
    pub open spec fn ok(self) -> bool {
        &&& pixel_ok(self.x)
        &&& pixel_ok(self.y)
        &&& -256 <= self.cover <= 256
        &&& -131072 <= self.area <= 131072
    }
}

/// The cells after the pixel `(x, y)` has been made the current one.
///
/// The last cell stays current if it lies there and has room. Otherwise a blank
/// last cell is dropped and a new cell is started at `(x, y)`.
pub open spec fn set_current(cells: Seq<Cell>, x: int, y: int) -> Seq<Cell> {
    let fresh = Cell { x: x as i32, y: y as i32, cover: 0, area: 0 };
    if cells.len() > 0 && cells.last().is_at(x, y) && cells.last().has_room() {
        cells
    } else if cells.len() > 0 && cells.last().is_blank() {
        cells.drop_last().push(fresh)
    } else {
        cells.push(fresh)
    }
}

/// The cells after `cover` and `area` have been added to the last cell.
pub open spec fn add_to_last(cells: Seq<Cell>, cover: int, area: int) -> Seq<Cell> {
    let c = cells.last();
    cells.update(
        cells.len() - 1,
        Cell { x: c.x, y: c.y, cover: (c.cover + cover) as i64, area: (c.area + area) as i64 },
    )
}

/// The cells after one visit: its pixel is made current and receives what the visit adds.
pub open spec fn accumulate(cells: Seq<Cell>, v: Visit) -> Seq<Cell> {
    add_to_last(set_current(cells, v.x, v.y), v.cover, v.area)
}

/// The cells after a sequence of visits, taken in order.
pub open spec fn apply_visits(cells: Seq<Cell>, visits: Seq<Visit>) -> Seq<Cell>
    decreases visits.len(),
{
    if visits.len() == 0 {
        cells
    } else {
        accumulate(apply_visits(cells, visits.drop_last()), visits.last())
    }
}

/// The cells without a blank last cell.
pub open spec fn trim(cells: Seq<Cell>) -> Seq<Cell> {
    if cells.len() > 0 && cells.last().is_blank() {
        cells.drop_last()
    } else {
        cells
    }
}

/// Absolute value of an integer.
pub open spec fn abs(v: int) -> int {
    if v < 0 {
        -v
    } else {
        v
    }
}

/// Where a segment crosses a grid line.
///
/// The segment runs from `(a0, b0)` to `(a1, b1)`, with `a` the axis that the grid
/// line `a == 256 * k` cuts. The result is the `b` coordinate of the crossing,
/// rounded down.
#[verifier::opaque]
pub open spec fn crossing(a0: int, b0: int, a1: int, b1: int, k: int) -> int {
    b0 + (abs(256 * k - a0) * (b1 - b0)) / abs(a1 - a0)
}

/// The part of a segment that lies in one pixel row.
///
/// `x1` and `x2` are sub-pixel coordinates; `y1` and `y2` are heights inside the
/// row, from 0 to 256.
pub struct RowPiece {
    /// Pixel row.
    pub ey: int,
    /// Horizontal start.
    pub x1: int,
    /// Height of the start inside the row.
    pub y1: int,
    /// Horizontal end.
    pub x2: int,
    /// Height of the end inside the row.
    pub y2: int,
}

impl RowPiece {
    /// Whether the piece lies in the drawable range and inside its row.
    pub open spec fn ok(self) -> bool {
        &&& pixel_ok(self.ey)
        &&& coord_ok(self.x1)
        &&& coord_ok(self.x2)
        &&& 0 <= self.y1 <= 256
        &&& 0 <= self.y2 <= 256
    }

    /// The number of pixel columns that the piece touches.
    pub open spec fn columns(self) -> int {
        abs(pixel_of(self.x2) - pixel_of(self.x1)) + 1
    }

    /// The direction of travel: 1 to the right, -1 to the left.
    pub open spec fn step(self) -> int {
        if self.x2 < self.x1 {
            -1
        } else {
            1
        }
    }

    /// The `i`-th column on the way.
    pub open spec fn column(self, i: int) -> int {
        if self.step() > 0 {
            pixel_of(self.x1) + i
        } else {
            pixel_of(self.x1) - i
        }
    }

    /// The height at which the piece enters its `i`-th column.
    pub open spec fn y_in(self, i: int) -> int {
        if i == 0 {
            self.y1
        } else if self.step() > 0 {
            crossing(self.x1, self.y1, self.x2, self.y2, self.column(i))
        } else {
            crossing(self.x1, self.y1, self.x2, self.y2, self.column(i) + 1)
        }
    }

    /// The height at which the piece leaves its `i`-th column.
    pub open spec fn y_out(self, i: int) -> int {
        if i == self.columns() - 1 {
            self.y2
        } else {
            self.y_in(i + 1)
        }
    }

    /// The horizontal distance from the start to the edge through which the piece
    /// enters its `i`-th column.
    pub open spec fn reach(self, i: int) -> int {
        if self.step() > 0 {
            abs(256 * self.column(i) - self.x1)
        } else {
            abs(256 * (self.column(i) + 1) - self.x1)
        }
    }

    /// What the division that gives `y_in(i)` leaves over.
    pub open spec fn rem_in(self, i: int) -> int {
        (self.reach(i) * (self.y2 - self.y1)) % abs(self.x2 - self.x1)
    }

    /// The offset from the left edge at which the piece enters its `i`-th column.
    pub open spec fn fx_in(self, i: int) -> int {
        if i == 0 {
            frac_of(self.x1)
        } else if self.step() > 0 {
            0
        } else {
            256
        }
    }

    /// The offset from the left edge at which the piece leaves its `i`-th column.
    pub open spec fn fx_out(self, i: int) -> int {
        if i == self.columns() - 1 {
            frac_of(self.x2)
        } else if self.step() > 0 {
            256
        } else {
            0
        }
    }

    /// What the piece adds to its `i`-th column.
    pub open spec fn visit(self, i: int) -> Visit {
        let dy = self.y_out(i) - self.y_in(i);
        Visit { x: self.column(i), y: self.ey, cover: dy, area: (self.fx_in(i) + self.fx_out(i)) * dy }
    }

    /// The visits of the piece, in the order of travel.
    ///
    /// A piece without height only makes its last pixel the current one.
    pub open spec fn visits(self) -> Seq<Visit> {
        if self.y1 == self.y2 {
            seq![Visit { x: pixel_of(self.x2), y: self.ey, cover: 0, area: 0 }]
        } else {
            Seq::new(self.columns() as nat, |i: int| self.visit(i))
        }
    }
}

/// A straight segment in sub-pixel coordinates.
pub struct Segment {
    /// Horizontal start.
    pub x1: int,
    /// Vertical start.
    pub y1: int,
    /// Horizontal end.
    pub x2: int,
    /// Vertical end.
    pub y2: int,
}

impl Segment {
    /// Whether both end points lie in the drawable range.
    pub open spec fn ok(self) -> bool {
        &&& coord_ok(self.x1)
        &&& coord_ok(self.y1)
        &&& coord_ok(self.x2)
        &&& coord_ok(self.y2)
    }

    /// Whether the segment is so wide that it is drawn in two halves.
    pub open spec fn is_long(self) -> bool {
        abs(self.x2 - self.x1) >= DX_LIMIT
    }

    /// The first half of the segment, up to its middle.
    pub open spec fn first_half(self) -> Segment {
        Segment {
            x1: self.x1,
            y1: self.y1,
            x2: (self.x1 + self.x2) / 2,
            y2: (self.y1 + self.y2) / 2,
        }
    }

    /// The second half of the segment, from its middle on.
    pub open spec fn second_half(self) -> Segment {
        Segment {
            x1: (self.x1 + self.x2) / 2,
            y1: (self.y1 + self.y2) / 2,
            x2: self.x2,
            y2: self.y2,
        }
    }

    /// The number of pixel rows that the segment touches.
    pub open spec fn rows(self) -> int {
        abs(pixel_of(self.y2) - pixel_of(self.y1)) + 1
    }

    /// The direction of travel: 1 towards larger `y`, -1 towards smaller `y`.
    pub open spec fn step(self) -> int {
        if self.y2 < self.y1 {
            -1
        } else {
            1
        }
    }

    /// The `j`-th row on the way.
    pub open spec fn row(self, j: int) -> int {
        if self.step() > 0 {
            pixel_of(self.y1) + j
        } else {
            pixel_of(self.y1) - j
        }
    }

    /// The horizontal position at which the segment enters its `j`-th row.
    pub open spec fn x_in(self, j: int) -> int {
        if j == 0 {
            self.x1
        } else if self.step() > 0 {
            crossing(self.y1, self.x1, self.y2, self.x2, self.row(j))
        } else {
            crossing(self.y1, self.x1, self.y2, self.x2, self.row(j) + 1)
        }
    }

    /// The horizontal position at which the segment leaves its `j`-th row.
    pub open spec fn x_out(self, j: int) -> int {
        if j == self.rows() - 1 {
            self.x2
        } else {
            self.x_in(j + 1)
        }
    }

    /// The vertical distance from the start to the edge through which the segment
    /// enters its `j`-th row.
    pub open spec fn reach(self, j: int) -> int {
        if self.step() > 0 {
            abs(256 * self.row(j) - self.y1)
        } else {
            abs(256 * (self.row(j) + 1) - self.y1)
        }
    }

    /// What the division that gives `x_in(j)` leaves over.
    pub open spec fn rem_in(self, j: int) -> int {
        (self.reach(j) * (self.x2 - self.x1)) % abs(self.y2 - self.y1)
    }

    /// The height inside the row at which the segment enters its `j`-th row.
    pub open spec fn fy_in(self, j: int) -> int {
        if j == 0 {
            frac_of(self.y1)
        } else if self.step() > 0 {
            0
        } else {
            256
        }
    }

    /// The height inside the row at which the segment leaves its `j`-th row.
    pub open spec fn fy_out(self, j: int) -> int {
        if j == self.rows() - 1 {
            frac_of(self.y2)
        } else if self.step() > 0 {
            256
        } else {
            0
        }
    }

    /// The part of the segment that lies in its `j`-th row.
    pub open spec fn piece(self, j: int) -> RowPiece {
        RowPiece {
            ey: self.row(j),
            x1: self.x_in(j),
            y1: self.fy_in(j),
            x2: self.x_out(j),
            y2: self.fy_out(j),
        }
    }

    /// The visits of the first `n` rows: each row starts by making its first pixel
    /// the current one and then takes the visits of its piece.
    pub open spec fn visits_upto(self, n: int) -> Seq<Visit>
        decreases n,
    {
        if n <= 0 {
            Seq::empty()
        } else {
            let p = self.piece(n - 1);
            self.visits_upto(n - 1).push(Visit { x: pixel_of(p.x1), y: p.ey, cover: 0, area: 0 })
                + p.visits()
        }
    }

    /// The visits of the whole segment, row by row in the order of travel.
    pub open spec fn visits(self) -> Seq<Visit> {
        self.visits_upto(self.rows())
    }
}

/// What a cell store holds.
pub struct CellStore {
    /// The cells in the order in which they were started.
    pub cells: Seq<Cell>,
    /// Smallest pixel column touched so far.
    pub min_x: int,
    /// Largest pixel column touched so far.
    pub max_x: int,
    /// Smallest pixel row touched so far.
    pub min_y: int,
    /// Largest pixel row touched so far.
    pub max_y: int,
    /// The cells of each row from 0 to `max_y`, ordered by column; empty before sorting.
    pub rows: Seq<Seq<Cell>>,
}

impl CellStore {
    /// The store without any cell.
    pub open spec fn empty() -> CellStore {
        CellStore {
            cells: Seq::empty(),
            min_x: i32::MAX as int,
            max_x: i32::MIN as int,
            min_y: i32::MAX as int,
            max_y: i32::MIN as int,
            rows: Seq::empty(),
        }
    }

    /// Whether every cell lies inside the limits and the bounds, and every cell
    /// but perhaps the last one holds coverage.
    #[verifier::opaque]
    pub open spec fn cells_within(self) -> bool {
        &&& forall|i: int| 0 <= i < self.cells.len() ==> (#[trigger] self.cells[i]).within_limits()
        &&& forall|i: int|
            0 <= i < self.cells.len() ==> self.min_x <= (#[trigger] self.cells[i]).x <= self.max_x
        &&& forall|i: int|
            0 <= i < self.cells.len() ==> self.min_y <= (#[trigger] self.cells[i]).y <= self.max_y
        &&& forall|i: int| 0 <= i < self.cells.len() - 1 ==> !(#[trigger] self.cells[i]).is_blank()
    }

    /// Whether every sorted row is short enough to be swept and holds cells inside
    /// the limits.
    #[verifier::opaque]
    pub open spec fn rows_within(self) -> bool {
        &&& forall|y: int, i: int|
            0 <= y < self.rows.len() && 0 <= i < self.rows[y].len() ==> (
            #[trigger] self.rows[y][i]).within_limits()
        &&& forall|y: int| 0 <= y < self.rows.len() ==> (#[trigger] self.rows[y]).len() <= MAX_CELLS
        &&& forall|y: int| 0 <= y < self.rows.len() ==> ordered_by_x(#[trigger] self.rows[y])
    }

    /// Whether the store is well formed but for a last cell that may be blank.
    pub open spec fn wf_open(self) -> bool {
        &&& self.cells_within()
        &&& self.rows_within()
        &&& self.rows.len() <= PIXEL_MAX + 1
        &&& PIXEL_MIN <= self.min_x <= i32::MAX
        &&& i32::MIN <= self.max_x <= PIXEL_MAX
        &&& PIXEL_MIN <= self.min_y <= i32::MAX
        &&& i32::MIN <= self.max_y <= PIXEL_MAX
    }

    /// Whether the store is well formed: every cell holds coverage and lies
    /// inside the limits and the bounds.
    pub open spec fn wf(self) -> bool {
        &&& self.wf_open()
        &&& self.cells.len() > 0 ==> !self.cells.last().is_blank()
    }

    /// The store with the bounds widened to hold the end pixels of `s`.
    pub open spec fn with_bounds(self, s: Segment) -> CellStore {
        let ex1 = pixel_of(s.x1);
        let ex2 = pixel_of(s.x2);
        let ey1 = pixel_of(s.y1);
        let ey2 = pixel_of(s.y2);
        CellStore {
            min_x: min3(ex1, ex2, self.min_x),
            max_x: max3(ex1, ex2, self.max_x),
            min_y: min3(ey1, ey2, self.min_y),
            max_y: max3(ey1, ey2, self.max_y),
            ..self
        }
    }

    /// The store after sorting: unless rows exist already or no row from 0 on was
    /// touched, each row from 0 to `max_y` holds its cells ordered by column.
    pub open spec fn sorted(self) -> CellStore {
        if self.rows.len() > 0 || self.max_y < 0 {
            self
        } else {
            CellStore {
                rows: Seq::new((self.max_y + 1) as nat, |y: int| sorted_row(self.cells, y)),
                ..self
            }
        }
    }

    /// The store after the segments `segs` have been drawn in order.
    pub open spec fn with_lines(self, segs: Seq<Segment>) -> CellStore
        decreases segs.len(),
    {
        if segs.len() == 0 {
            self
        } else {
            self.with_lines(segs.drop_last()).with_line(segs.last())
        }
    }

    /// The store after the segment `s` has been drawn.
    ///
    /// A long segment is drawn as its two halves. Any other adds its visits and
    /// leaves no blank cell behind.
    pub open spec fn with_line(self, s: Segment) -> CellStore
        decreases abs(s.x2 - s.x1),
    {
        if s.is_long() {
            self.with_line(s.first_half()).with_line(s.second_half())
        } else {
            CellStore { cells: trim(apply_visits(self.cells, s.visits())), ..self.with_bounds(s) }
        }
    }
}

/// Drawing a single segment is drawing the sequence that holds only it.
pub proof fn lemma_with_lines_one(st: CellStore, s: Segment)
    ensures
        st.with_lines(seq![s]) == st.with_line(s),
{
    assert(seq![s].drop_last() =~= Seq::<Segment>::empty());
    assert(st.with_lines(Seq::<Segment>::empty()) == st);
    assert(seq![s].last() == s);
}

/// Drawing two runs of segments one after the other is drawing them in one run.
pub proof fn lemma_with_lines_concat(st: CellStore, a: Seq<Segment>, b: Seq<Segment>)
    ensures
        st.with_lines(a + b) == st.with_lines(a).with_lines(b),
    decreases b.len(),
{
    if b.len() == 0 {
        assert(a + b =~= a);
    } else {
        lemma_with_lines_concat(st, a, b.drop_last());
        assert((a + b).drop_last() =~= a + b.drop_last());
        assert((a + b).last() == b.last());
    }
}

/// Whether every segment of a sequence has no height.
pub open spec fn all_flat(segs: Seq<Segment>) -> bool {
    forall|i: int| 0 <= i < segs.len() ==> (#[trigger] segs[i]).y1 == segs[i].y2 && segs[i].ok()
}

/// A segment without height adds no cell: the cells stay as they are, and only
/// the bounds are widened.
pub proof fn lemma_flat_line_adds_no_cell(st: CellStore, s: Segment)
    requires
        st.wf(),
        s.ok(),
        s.y1 == s.y2,
    ensures
        st.with_line(s).cells == st.cells,
        st.with_line(s).rows == st.rows,
        st.with_line(s).wf(),
    decreases abs(s.x2 - s.x1),
{
    reveal(CellStore::cells_within);
    reveal(CellStore::rows_within);
    if s.is_long() {
        lemma_flat_line_adds_no_cell(st, s.first_half());
        lemma_flat_line_adds_no_cell(st.with_line(s.first_half()), s.second_half());
    } else {
        let ey = pixel_of(s.y1);
        let p = s.piece(0);
        let zv1 = Visit { x: pixel_of(s.x1), y: ey, cover: 0, area: 0 };
        let zv2 = Visit { x: pixel_of(s.x2), y: ey, cover: 0, area: 0 };
        assert(s.rows() == 1);
        assert(p == (RowPiece { ey, x1: s.x1, y1: frac_of(s.y1), x2: s.x2, y2: frac_of(s.y2) }));
        assert(p.visits() =~= seq![zv2]);
        assert(s.visits_upto(0) =~= Seq::<Visit>::empty());
        assert(s.visits() =~= seq![zv1, zv2]);
        let a1 = set_current(st.cells, zv1.x, zv1.y);
        lemma_apply_visits_push(st.cells, Seq::empty(), zv1);
        assert(Seq::<Visit>::empty().push(zv1) =~= seq![zv1]);
        lemma_apply_visits_push(st.cells, seq![zv1], zv2);
        assert(seq![zv1].push(zv2) =~= seq![zv1, zv2]);
        lemma_blank_visit(st.cells, zv1.x, zv1.y);
        lemma_blank_visit(a1, zv2.x, zv2.y);
        let a2 = set_current(a1, zv2.x, zv2.y);
        assert(apply_visits(st.cells, s.visits()) == a2);
        assert(trim(a2) =~= st.cells);
    }
}

/// Segments without height add no cell.
pub proof fn lemma_flat_lines_add_no_cell(st: CellStore, segs: Seq<Segment>)
    requires
        st.wf(),
        all_flat(segs),
    ensures
        st.with_lines(segs).cells == st.cells,
        st.with_lines(segs).rows == st.rows,
        st.with_lines(segs).wf(),
    decreases segs.len(),
{
    if segs.len() > 0 {
        assert(all_flat(segs.drop_last())) by {
            assert forall|i: int| 0 <= i < segs.drop_last().len() implies (
            #[trigger] segs.drop_last()[i]).y1 == segs.drop_last()[i].y2 && segs.drop_last()[i].ok() by {
                assert(segs.drop_last()[i] == segs[i]);
            }
        }
        lemma_flat_lines_add_no_cell(st, segs.drop_last());
        lemma_flat_line_adds_no_cell(st.with_lines(segs.drop_last()), segs.last());
    }
}

/// The row `row`, ordered by column, with `c` put behind the cells of its column.
pub open spec fn insert_by_x(row: Seq<Cell>, c: Cell) -> Seq<Cell>
    decreases row.len(),
{
    if row.len() == 0 || row.last().x <= c.x {
        row.push(c)
    } else {
        insert_by_x(row.drop_last(), c).push(row.last())
    }
}

/// The cells of pixel row `y`, ordered by column; cells of one column keep the
/// order in which they were started.
pub open spec fn sorted_row(cells: Seq<Cell>, y: int) -> Seq<Cell>
    decreases cells.len(),
{
    if cells.len() == 0 {
        Seq::empty()
    } else if cells.last().y == y {
        insert_by_x(sorted_row(cells.drop_last(), y), cells.last())
    } else {
        sorted_row(cells.drop_last(), y)
    }
}

/// Whether the columns of a row never decrease.
pub open spec fn ordered_by_x(row: Seq<Cell>) -> bool {
    forall|i: int, j: int| 0 <= i <= j < row.len() ==> row[i].x <= row[j].x
}

/// Whether every cell of a sequence satisfies the limits of the store.
pub open spec fn all_within(row: Seq<Cell>) -> bool {
    forall|i: int| 0 <= i < row.len() ==> (#[trigger] row[i]).within_limits()
}

/// Putting a cell into an ordered row keeps the row ordered, makes it one longer
/// and keeps every cell inside the limits.
pub proof fn lemma_insert_by_x(row: Seq<Cell>, c: Cell)
    ensures
        insert_by_x(row, c).len() == row.len() + 1,
        ordered_by_x(row) ==> ordered_by_x(insert_by_x(row, c)),
        all_within(row) && c.within_limits() ==> all_within(insert_by_x(row, c)),
        forall|i: int|
            0 <= i < insert_by_x(row, c).len() ==> (#[trigger] insert_by_x(row, c)[i]).y == c.y || (
            exists|j: int| 0 <= j < row.len() && row[j].y == insert_by_x(row, c)[i].y),
        insert_by_x(row, c).last().x >= c.x,
        row.len() > 0 ==> insert_by_x(row, c).last().x >= row.last().x,
        forall|i: int|
            0 <= i < insert_by_x(row, c).len() ==> (#[trigger] insert_by_x(row, c)[i]) == c || (
            exists|j: int| 0 <= j < row.len() && row[j] == insert_by_x(row, c)[i]),
    decreases row.len(),
{
    if row.len() == 0 || row.last().x <= c.x {
        let r = row.push(c);
        assert forall|i: int| 0 <= i < r.len() implies (#[trigger] r[i]) == c || (exists|j: int|
            0 <= j < row.len() && row[j] == r[i]) by {
            if i < row.len() {
                assert(row[i] == r[i]);
            }
        }
        assert forall|i: int| 0 <= i < r.len() implies (#[trigger] r[i]).y == c.y || (exists|
            j: int,
        | 0 <= j < row.len() && row[j].y == r[i].y) by {
            if i < row.len() {
                assert(row[i].y == r[i].y);
            }
        }
    } else {
        let front = row.drop_last();
        lemma_insert_by_x(front, c);
        let mid = insert_by_x(front, c);
        let r = mid.push(row.last());
        assert(ordered_by_x(row) ==> ordered_by_x(front));
        assert(all_within(row) ==> all_within(front));
        assert forall|i: int| 0 <= i < r.len() implies (#[trigger] r[i]) == c || (exists|j: int|
            0 <= j < row.len() && row[j] == r[i]) by {
            if i < mid.len() {
                assert(r[i] == mid[i]);
                if mid[i] != c {
                    let j = choose|j: int| 0 <= j < front.len() && front[j] == mid[i];
                    assert(row[j] == r[i]);
                }
            } else {
                assert(row[row.len() - 1] == r[i]);
            }
        }
        assert forall|i: int| 0 <= i < r.len() implies (#[trigger] r[i]).y == c.y || (exists|
            j: int,
        | 0 <= j < row.len() && row[j].y == r[i].y) by {
            if r[i] != c {
                let j = choose|j: int| 0 <= j < row.len() && row[j] == r[i];
                assert(row[j].y == r[i].y);
            }
        }
        if ordered_by_x(row) {
            assert forall|i: int, j: int| 0 <= i <= j < r.len() implies r[i].x <= r[j].x by {
                if j < mid.len() {
                    assert(r[i] == mid[i] && r[j] == mid[j]);
                } else if i < mid.len() {
                    assert(r[i] == mid[i]);
                    if mid[i] != c {
                        let k = choose|k: int| 0 <= k < front.len() && front[k] == mid[i];
                        assert(row[k].x <= row[row.len() - 1].x);
                    }
                }
            }
        }
    }
}

/// The sorted row is ordered by column, no longer than the cells it was taken
/// from, and holds only cells of its row that lie inside the limits if all do.
pub proof fn lemma_sorted_row(cells: Seq<Cell>, y: int)
    ensures
        ordered_by_x(sorted_row(cells, y)),
        sorted_row(cells, y).len() <= cells.len(),
        all_within(cells) ==> all_within(sorted_row(cells, y)),
        forall|i: int| 0 <= i < sorted_row(cells, y).len() ==> (#[trigger] sorted_row(cells, y)[i]).y == y,
    decreases cells.len(),
{
    if cells.len() > 0 {
        let front = cells.drop_last();
        lemma_sorted_row(front, y);
        assert(all_within(cells) ==> all_within(front));
        if cells.last().y == y {
            lemma_insert_by_x(sorted_row(front, y), cells.last());
            let r = sorted_row(cells, y);
            assert forall|i: int| 0 <= i < r.len() implies (#[trigger] r[i]).y == y by {
                if r[i].y != cells.last().y {
                    let j = choose|j: int|
                        0 <= j < sorted_row(front, y).len() && sorted_row(front, y)[j].y == r[i].y;
                }
            }
        }
    }
}

/// Putting a cell in front of the cells of larger columns, and behind all
/// others, is what `insert_by_x` does.
pub proof fn lemma_insert_position(row: Seq<Cell>, c: Cell, k: int)
    requires
        0 <= k <= row.len(),
        forall|j: int| k <= j < row.len() ==> (#[trigger] row[j]).x > c.x,
        k > 0 ==> row[k - 1].x <= c.x,
    ensures
        row.insert(k, c) == insert_by_x(row, c),
    decreases row.len() - k,
{
    if k == row.len() {
        assert(row.insert(k, c) =~= row.push(c));
    } else {
        let front = row.drop_last();
        lemma_insert_position(front, c, k);
        assert(row.insert(k, c) =~= front.insert(k, c).push(row.last()));
    }
}

/// The smallest of three integers.
pub open spec fn min3(a: int, b: int, c: int) -> int {
    if a <= b && a <= c {
        a
    } else if b <= c {
        b
    } else {
        c
    }
}

/// The largest of three integers.
pub open spec fn max3(a: int, b: int, c: int) -> int {
    if a >= b && a >= c {
        a
    } else if b >= c {
        b
    } else {
        c
    }
}

/// Whether the last cell lies at pixel `(x, y)` and has room for more.
pub open spec fn current_is(cells: Seq<Cell>, x: int, y: int) -> bool {
    cells.len() > 0 && cells.last().is_at(x, y) && cells.last().has_room()
}

/// One more visit is applied after the others.
pub proof fn lemma_apply_visits_push(cells: Seq<Cell>, visits: Seq<Visit>, v: Visit)
    ensures
        apply_visits(cells, visits.push(v)) == accumulate(apply_visits(cells, visits), v),
{
    assert(visits.push(v).drop_last() =~= visits);
}

/// Two runs of visits can be applied one after the other.
pub proof fn lemma_apply_visits_concat(cells: Seq<Cell>, a: Seq<Visit>, b: Seq<Visit>)
    ensures
        apply_visits(cells, a + b) == apply_visits(apply_visits(cells, a), b),
    decreases b.len(),
{
    if b.len() == 0 {
        assert(a + b =~= a);
    } else {
        lemma_apply_visits_concat(cells, a, b.drop_last());
        assert((a + b).drop_last() =~= a + b.drop_last());
        assert((a + b).last() == b.last());
    }
}

/// A visit that adds nothing only makes its pixel the current one.
pub proof fn lemma_blank_visit(cells: Seq<Cell>, x: int, y: int)
    requires
        pixel_ok(x),
        pixel_ok(y),
    ensures
        accumulate(cells, Visit { x, y, cover: 0, area: 0 }) == set_current(cells, x, y),
        current_is(set_current(cells, x, y), x, y),
{
    let s = set_current(cells, x, y);
    assert(add_to_last(s, 0, 0) =~= s);
}

/// A visit to the pixel that is current adds to the last cell.
pub proof fn lemma_visit_current(cells: Seq<Cell>, v: Visit)
    requires
        current_is(cells, v.x, v.y),
    ensures
        accumulate(cells, v) == add_to_last(cells, v.cover, v.area),
{
}

/// The quotient and remainder of a sum, from those of its two terms.
pub proof fn lemma_dda_step(p: int, q: int, d: int)
    requires
        d > 0,
    ensures
        (p % d) + (q % d) >= d ==> (p + q) / d == p / d + q / d + 1 && (p + q) % d == (p % d) + (q
            % d) - d,
        (p % d) + (q % d) < d ==> (p + q) / d == p / d + q / d && (p + q) % d == (p % d) + (q % d),
{
    vstd::arithmetic::div_mod::lemma_fundamental_div_mod(p, d);
    vstd::arithmetic::div_mod::lemma_fundamental_div_mod(q, d);
    vstd::arithmetic::div_mod::lemma_mod_bound(p, d);
    vstd::arithmetic::div_mod::lemma_mod_bound(q, d);
    let a = p / d;
    let b = q / d;
    let m = p % d;
    let r = q % d;
    if m + r >= d {
        assert((a + b + 1) * d == d * a + d * b + d) by (nonlinear_arith);
        vstd::arithmetic::div_mod::lemma_fundamental_div_mod_converse(
            p + q,
            d,
            a + b + 1,
            m + r - d,
        );
    } else {
        assert((a + b) * d == d * a + d * b) by (nonlinear_arith);
        vstd::arithmetic::div_mod::lemma_fundamental_div_mod_converse(p + q, d, a + b, m + r);
    }
}

/// A crossing inside the segment lies between the segment's ends.
pub proof fn lemma_crossing_between(a: int, db: int, d: int)
    requires
        0 <= a <= d,
        d > 0,
    ensures
        db >= 0 ==> 0 <= (a * db) / d <= db,
        db <= 0 ==> db <= (a * db) / d <= 0,
        a == d ==> (a * db) / d == db,
        a == 0 ==> (a * db) / d == 0,
{
    assert(d * db == db * d) by (nonlinear_arith);
    vstd::arithmetic::div_mod::lemma_fundamental_div_mod_converse(d * db, d, db, 0);
    assert(0 * db == 0) by (nonlinear_arith);
    if db >= 0 {
        assert(0 <= a * db <= d * db) by (nonlinear_arith)
            requires
                0 <= a <= d,
                db >= 0,
        ;
        vstd::arithmetic::div_mod::lemma_div_is_ordered(0, a * db, d);
        vstd::arithmetic::div_mod::lemma_div_is_ordered(a * db, d * db, d);
    } else {
        assert(d * db <= a * db <= 0) by (nonlinear_arith)
            requires
                0 <= a <= d,
                db <= 0,
        ;
        vstd::arithmetic::div_mod::lemma_div_is_ordered(d * db, a * db, d);
        vstd::arithmetic::div_mod::lemma_div_is_ordered(a * db, 0, d);
    }
}

/// The product of two bounded integers is bounded by the product of the bounds.
pub proof fn lemma_mul_bounded(a: int, b: int, ma: int, mb: int)
    requires
        -ma <= a <= ma,
        -mb <= b <= mb,
    ensures
        -(ma * mb) <= a * b <= ma * mb,
{
    assert(-(ma * mb) <= a * b <= ma * mb) by (nonlinear_arith)
        requires
            -ma <= a <= ma,
            -mb <= b <= mb,
    ;
}

/// The entry height of a column is a rounded share of the height of the piece.
pub proof fn lemma_piece_reach(pc: RowPiece, i: int)
    requires
        pc.ok(),
        pixel_of(pc.x1) != pixel_of(pc.x2),
        1 <= i <= pc.columns() - 1,
    ensures
        pc.reach(i) == (if pc.step() > 0 {
            256 - frac_of(pc.x1)
        } else {
            frac_of(pc.x1)
        }) + 256 * (i - 1),
        0 <= pc.reach(i) <= abs(pc.x2 - pc.x1),
        abs(pc.x2 - pc.x1) > 0,
        pc.y_in(i) == pc.y1 + (pc.reach(i) * (pc.y2 - pc.y1)) / abs(pc.x2 - pc.x1),
        0 <= pc.rem_in(i) < abs(pc.x2 - pc.x1),
        pc.y1 <= pc.y2 ==> pc.y1 <= pc.y_in(i) <= pc.y2,
        pc.y1 >= pc.y2 ==> pc.y1 >= pc.y_in(i) >= pc.y2,
{
    reveal(crossing);
    lemma_crossing_between(pc.reach(i), pc.y2 - pc.y1, abs(pc.x2 - pc.x1));
    vstd::arithmetic::div_mod::lemma_mod_bound(
        pc.reach(i) * (pc.y2 - pc.y1),
        abs(pc.x2 - pc.x1),
    );
}

/// From one column edge to the next the entry height grows by a fixed lift, and
/// by one more whenever the remainders add up to a whole.
pub proof fn lemma_piece_step(pc: RowPiece, i: int)
    requires
        pc.ok(),
        pixel_of(pc.x1) != pixel_of(pc.x2),
        1 <= i < pc.columns() - 1,
    ensures
        ({
            let d = abs(pc.x2 - pc.x1);
            let lift = (256 * (pc.y2 - pc.y1)) / d;
            let rem = (256 * (pc.y2 - pc.y1)) % d;
            &&& 0 <= rem < d
            &&& pc.rem_in(i) + rem >= d ==> pc.y_in(i + 1) == pc.y_in(i) + lift + 1 && pc.rem_in(
                i + 1,
            ) == pc.rem_in(i) + rem - d
            &&& pc.rem_in(i) + rem < d ==> pc.y_in(i + 1) == pc.y_in(i) + lift && pc.rem_in(i + 1)
                == pc.rem_in(i) + rem
        }),
{
    let d = abs(pc.x2 - pc.x1);
    let dy = pc.y2 - pc.y1;
    lemma_piece_reach(pc, i);
    lemma_piece_reach(pc, i + 1);
    let a = pc.reach(i);
    assert(pc.reach(i + 1) == a + 256);
    assert((a + 256) * dy == a * dy + 256 * dy) by (nonlinear_arith);
    lemma_dda_step(a * dy, 256 * dy, d);
    vstd::arithmetic::div_mod::lemma_mod_bound(256 * dy, d);
}

/// The entry position of a row is a rounded share of the width of the segment.
pub proof fn lemma_segment_reach(sg: Segment, j: int)
    requires
        sg.ok(),
        pixel_of(sg.y1) != pixel_of(sg.y2),
        1 <= j <= sg.rows() - 1,
    ensures
        sg.reach(j) == (if sg.step() > 0 {
            256 - frac_of(sg.y1)
        } else {
            frac_of(sg.y1)
        }) + 256 * (j - 1),
        0 <= sg.reach(j) <= abs(sg.y2 - sg.y1),
        abs(sg.y2 - sg.y1) > 0,
        sg.x_in(j) == sg.x1 + (sg.reach(j) * (sg.x2 - sg.x1)) / abs(sg.y2 - sg.y1),
        0 <= sg.rem_in(j) < abs(sg.y2 - sg.y1),
        sg.x1 <= sg.x2 ==> sg.x1 <= sg.x_in(j) <= sg.x2,
        sg.x1 >= sg.x2 ==> sg.x1 >= sg.x_in(j) >= sg.x2,
{
    reveal(crossing);
    lemma_crossing_between(sg.reach(j), sg.x2 - sg.x1, abs(sg.y2 - sg.y1));
    vstd::arithmetic::div_mod::lemma_mod_bound(
        sg.reach(j) * (sg.x2 - sg.x1),
        abs(sg.y2 - sg.y1),
    );
}

/// From one row edge to the next the entry position moves by a fixed lift, and
/// by one more whenever the remainders add up to a whole.
pub proof fn lemma_segment_step(sg: Segment, j: int)
    requires
        sg.ok(),
        pixel_of(sg.y1) != pixel_of(sg.y2),
        1 <= j < sg.rows() - 1,
    ensures
        ({
            let d = abs(sg.y2 - sg.y1);
            let lift = (256 * (sg.x2 - sg.x1)) / d;
            let rem = (256 * (sg.x2 - sg.x1)) % d;
            &&& 0 <= rem < d
            &&& sg.rem_in(j) + rem >= d ==> sg.x_in(j + 1) == sg.x_in(j) + lift + 1 && sg.rem_in(
                j + 1,
            ) == sg.rem_in(j) + rem - d
            &&& sg.rem_in(j) + rem < d ==> sg.x_in(j + 1) == sg.x_in(j) + lift && sg.rem_in(j + 1)
                == sg.rem_in(j) + rem
        }),
{
    let d = abs(sg.y2 - sg.y1);
    let dx = sg.x2 - sg.x1;
    lemma_segment_reach(sg, j);
    lemma_segment_reach(sg, j + 1);
    let a = sg.reach(j);
    assert(sg.reach(j + 1) == a + 256);
    assert((a + 256) * dx == a * dx + 256 * dx) by (nonlinear_arith);
    lemma_dda_step(a * dx, 256 * dx, d);
    vstd::arithmetic::div_mod::lemma_mod_bound(256 * dx, d);
}

/// The visits of one more row follow those of the rows before it.
pub proof fn lemma_visits_next_row(cells: Seq<Cell>, sg: Segment, j: int)
    requires
        j >= 0,
        pixel_ok(pixel_of(sg.piece(j).x1)),
        pixel_ok(sg.piece(j).ey),
    ensures
        apply_visits(cells, sg.visits_upto(j + 1)) == apply_visits(
            set_current(
                apply_visits(cells, sg.visits_upto(j)),
                pixel_of(sg.piece(j).x1),
                sg.piece(j).ey,
            ),
            sg.piece(j).visits(),
        ),
{
    let p = sg.piece(j);
    let before = sg.visits_upto(j);
    let zv = Visit { x: pixel_of(p.x1), y: p.ey, cover: 0, area: 0 };
    lemma_apply_visits_concat(cells, before.push(zv), p.visits());
    lemma_apply_visits_push(cells, before, zv);
    lemma_blank_visit(apply_visits(cells, before), zv.x, zv.y);
}

/// The cells of a path under construction, with the bounds of what was drawn.
#[derive(Debug)]
pub struct RasterizerCell {
    /// The cells in the order in which they were started.
    cells: Vec<Cell>,
    /// Smallest pixel column touched so far.
    min_x: i32,
    /// Largest pixel column touched so far.
    max_x: i32,
    /// Smallest pixel row touched so far.
    min_y: i32,
    /// Largest pixel row touched so far.
    max_y: i32,
    /// The cells of each row, ordered by column; empty before sorting.
    sorted_y: Vec<Vec<Cell>>,
}

impl View for RasterizerCell {
    type V = CellStore;

    closed spec fn view(&self) -> CellStore {
        CellStore {
            cells: self.cells@,
            min_x: self.min_x as int,
            max_x: self.max_x as int,
            min_y: self.min_y as int,
            max_y: self.max_y as int,
            rows: Seq::new(self.sorted_y@.len(), |y: int| self.sorted_y@[y]@),
        }
    }
}

impl Default for RasterizerCell {
    /// Creates a store without cells.
    fn default() -> (r: Self)
        ensures
            r@ == CellStore::empty(),
            r@.wf(),
    {
        Self::new()
    }
}

impl RasterizerCell {
    /// Creates a store without cells.
    pub fn new() -> (r: Self)
        ensures
            r@ == CellStore::empty(),
            r@.wf(),
    {
        reveal(CellStore::cells_within);
        reveal(CellStore::rows_within);
        let r = Self {
            cells: Vec::new(),
            min_x: i32::MAX,
            max_x: i32::MIN,
            min_y: i32::MAX,
            max_y: i32::MIN,
            sorted_y: Vec::new(),
        };
        assert(r@.rows =~= Seq::empty());
        r
    }

    /// Removes all cells, sorted rows and bounds.
    pub fn reset(&mut self)
        ensures
            final(self)@ == CellStore::empty(),
            final(self)@.wf(),
    {
        reveal(CellStore::cells_within);
        reveal(CellStore::rows_within);
        self.max_x = i32::MIN;
        self.max_y = i32::MIN;
        self.min_x = i32::MAX;
        self.min_y = i32::MAX;
        self.sorted_y.clear();
        self.cells.clear();
        assert(self@.rows =~= Seq::empty());
    }

    /// Returns the number of cells.
    pub fn total_cells(&self) -> (n: usize)
        ensures
            n == self@.cells.len(),
    {
        self.cells.len()
    }

    /// Returns the smallest pixel column touched so far.
    pub fn min_x(&self) -> (r: i32)
        ensures
            r == self@.min_x,
    {
        self.min_x
    }

    /// Returns the largest pixel column touched so far.
    pub fn max_x(&self) -> (r: i32)
        ensures
            r == self@.max_x,
    {
        self.max_x
    }

    /// Returns the smallest pixel row touched so far.
    pub fn min_y(&self) -> (r: i32)
        ensures
            r == self@.min_y,
    {
        self.min_y
    }

    /// Returns the largest pixel row touched so far.
    pub fn max_y(&self) -> (r: i32)
        ensures
            r == self@.max_y,
    {
        self.max_y
    }

    /// Reports whether the cells have been sorted into rows.
    pub fn is_sorted(&self) -> (r: bool)
        ensures
            r == (self@.rows.len() > 0),
    {
        !self.sorted_y.is_empty()
    }

    /// Reports whether the cells can be sorted and swept as they are: there are
    /// no more of them than can be sorted, and once they are sorted there is one
    /// row for each pixel row from 0 to the largest that a cell lies in.
    ///
    /// Rows that were sorted before are kept as they are: cells added since then
    /// are not sorted into them, and only their number is tested here.
    pub fn can_sweep(&self) -> (r: bool)
        ensures
            r == (self@.cells.len() <= MAX_CELLS && (self@.sorted().rows.len() == self@.max_y + 1
                || self@.max_y < 0)),
    {
        let n = self.cells.len();
        let rows = self.sorted_y.len();
        n as u64 <= MAX_CELLS && (rows == 0 || self.max_y < 0 || rows as u64 == (self.max_y as i64
            + 1) as u64)
    }

    /// Returns a copy of the cell at index `i`.
    pub fn cell(&self, i: usize) -> (c: Cell)
        requires
            i < self@.cells.len(),
        ensures
            c == self@.cells[i as int],
    {
        self.cells[i]
    }

    /// Makes the pixel `(x, y)` the current one.
    pub fn set_curr_cell(&mut self, x: i32, y: i32)
        requires
            old(self)@.wf_open(),
            pixel_ok(x as int),
            pixel_ok(y as int),
            old(self)@.min_x <= x <= old(self)@.max_x,
            old(self)@.min_y <= y <= old(self)@.max_y,
        ensures
            final(self)@ == (CellStore {
                cells: set_current(old(self)@.cells, x as int, y as int),
                ..old(self)@
            }),
            final(self)@.wf_open(),
            current_is(final(self)@.cells, x as int, y as int),
    {
        reveal(CellStore::cells_within);
        reveal(CellStore::rows_within);
        let n = self.cells.len();
        if n > 0 {
            let last = self.cells[n - 1];
            if last.equal(x, y) && last.can_take_more() {
                return ;
            }
            if last.is_empty() {
                self.cells.pop();
            }
        }
        self.cells.push(Cell::at(x, y));
    }

    /// Adds `cover` and `area` to the current cell.
    fn add_to_current(&mut self, cover: i64, area: i64)
        requires
            old(self)@.wf_open(),
            old(self)@.cells.len() > 0,
            old(self)@.cells.last().has_room(),
            -256 <= cover <= 256,
            -131072 <= area <= 131072,
        ensures
            final(self)@ == (CellStore {
                cells: add_to_last(old(self)@.cells, cover as int, area as int),
                ..old(self)@
            }),
            final(self)@.wf_open(),
            final(self)@.cells.len() > 0,
            final(self)@.cells.last().x == old(self)@.cells.last().x,
            final(self)@.cells.last().y == old(self)@.cells.last().y,
    {
        reveal(CellStore::cells_within);
        reveal(CellStore::rows_within);
        let n = self.cells.len();
        let c = self.cells[n - 1];
        self.cells[n - 1] = Cell { x: c.x, y: c.y, cover: c.cover + cover, area: c.area + area };
    }

    /// Adds the part of a segment that lies in one pixel row.
    ///
    /// `x1` and `x2` are sub-pixel coordinates, `y1` and `y2` heights inside row
    /// `ey`. The pixel of `(x1, ey)` must be the current one.
    fn render_hline(&mut self, ey: i32, x1: i64, y1: i64, x2: i64, y2: i64)
        requires
            old(self)@.wf_open(),
            (RowPiece {
                ey: ey as int,
                x1: x1 as int,
                y1: y1 as int,
                x2: x2 as int,
                y2: y2 as int,
            }).ok(),
            current_is(old(self)@.cells, pixel_of(x1 as int), ey as int),
            old(self)@.min_x <= pixel_of(x1 as int) <= old(self)@.max_x,
            old(self)@.min_x <= pixel_of(x2 as int) <= old(self)@.max_x,
            old(self)@.min_y <= ey <= old(self)@.max_y,
        ensures
            final(self)@ == (CellStore {
                cells: apply_visits(
                    old(self)@.cells,
                    (RowPiece {
                        ey: ey as int,
                        x1: x1 as int,
                        y1: y1 as int,
                        x2: x2 as int,
                        y2: y2 as int,
                    }).visits(),
                ),
                ..old(self)@
            }),
            final(self)@.wf_open(),
            final(self)@.cells.len() > 0,
            final(self)@.cells.last().is_at(pixel_of(x2 as int), ey as int),
    {
        let ghost start = self@;
        let ghost pc = RowPiece {
            ey: ey as int,
            x1: x1 as int,
            y1: y1 as int,
            x2: x2 as int,
            y2: y2 as int,
        };
        let ex1 = pixel_floor(x1);
        let ex2 = pixel_floor(x2);
        let fx1 = pixel_frac(x1);
        let fx2 = pixel_frac(x2);
        if y1 == y2 {
            self.set_curr_cell(ex2 as i32, ey);
            proof {
                let v = Visit { x: ex2 as int, y: ey as int, cover: 0, area: 0 };
                lemma_blank_visit(start.cells, ex2 as int, ey as int);
                lemma_apply_visits_push(start.cells, Seq::empty(), v);
                assert(Seq::<Visit>::empty().push(v) =~= pc.visits());
            }
            return ;
        }
        let dy = y2 - y1;
        if ex1 == ex2 {
            proof {
                lemma_mul_bounded((fx1 + fx2) as int, dy as int, 510, 256);
            }
            self.add_to_current(dy, (fx1 + fx2) * dy);
            proof {
                let v = pc.visit(0);
                lemma_visit_current(start.cells, v);
                lemma_apply_visits_push(start.cells, Seq::empty(), v);
                assert(Seq::<Visit>::empty().push(v) =~= pc.visits());
            }
            return ;
        }
        let ghost m = pc.columns();
        let ghost vs = pc.visits();
        let a1: i64 = if x2 < x1 {
            fx1
        } else {
            256 - fx1
        };
        let first: i64 = if x2 < x1 {
            0
        } else {
            256
        };
        let incr: i64 = if x2 < x1 {
            -1
        } else {
            1
        };
        let dx: i64 = if x2 < x1 {
            x1 - x2
        } else {
            x2 - x1
        };
        proof {
            lemma_piece_reach(pc, 1);
            lemma_mul_bounded(a1 as int, dy as int, 256, 256);
        }
        let p: i64 = a1 * dy;
        let (delta0, xmod0) = floor_div_rem(p, dx);
        proof {
            lemma_mul_bounded((fx1 + first) as int, delta0 as int, 511, 256);
        }
        self.add_to_current(delta0, (fx1 + first) * delta0);
        proof {
            let v = pc.visit(0);
            lemma_visit_current(start.cells, v);
            lemma_apply_visits_push(start.cells, Seq::empty(), v);
            assert(Seq::<Visit>::empty().push(v) =~= vs.take(1));
        }
        let mut ex: i64 = ex1 + incr;
        self.set_curr_cell(ex as i32, ey);
        let mut y: i64 = y1 + delta0;
        let ghost mut i: int = 1;
        proof {
            lemma_mul_bounded(256, dy as int, 256, 256);
        }
        let (lift, rem) = floor_div_rem(256 * dy, dx);
        let mut xmod: i64 = xmod0 - dx;
        while ex != ex2
            invariant
                pc == (RowPiece {
                    ey: ey as int,
                    x1: x1 as int,
                    y1: y1 as int,
                    x2: x2 as int,
                    y2: y2 as int,
                }),
                pc.ok(),
                y1 != y2,
                m == pc.columns(),
                vs == pc.visits(),
                ex1 == pixel_of(x1 as int),
                ex2 == pixel_of(x2 as int),
                ex1 != ex2,
                incr == pc.step(),
                dx == abs(x2 - x1),
                dx > 0,
                lift == (256 * (y2 - y1)) / (dx as int),
                rem == (256 * (y2 - y1)) % (dx as int),
                1 <= i <= m - 1,
                ex == pc.column(i),
                y == pc.y_in(i),
                xmod + dx == pc.rem_in(i),
                self@ == (CellStore {
                    cells: set_current(apply_visits(start.cells, vs.take(i)), ex as int, ey as int),
                    ..start
                }),
                self@.wf_open(),
                current_is(self@.cells, ex as int, ey as int),
                start.min_x <= ex1 <= start.max_x,
                start.min_x <= ex2 <= start.max_x,
                start.min_y <= ey <= start.max_y,
            decreases m - 1 - i,
        {
            proof {
                lemma_piece_step(pc, i);
                lemma_piece_reach(pc, i);
                lemma_piece_reach(pc, i + 1);
            }
            let mut delta: i64 = lift;
            xmod = xmod + rem;
            if xmod >= 0 {
                xmod = xmod - dx;
                delta = delta + 1;
            }
            assert(y + delta == pc.y_in(i + 1));
            self.add_to_current(delta, 256 * delta);
            proof {
                let v = pc.visit(i);
                assert(v.cover == delta);
                assert(v.area == 256 * delta);
                lemma_apply_visits_push(start.cells, vs.take(i), v);
                assert(vs.take(i).push(v) =~= vs.take(i + 1));
            }
            y = y + delta;
            ex = ex + incr;
            self.set_curr_cell(ex as i32, ey);
            proof {
                i = i + 1;
            }
        }
        proof {
            lemma_piece_reach(pc, m - 1);
        }
        let delta: i64 = y2 - y;
        proof {
            lemma_mul_bounded((fx2 + 256 - first) as int, delta as int, 511, 256);
        }
        self.add_to_current(delta, (fx2 + 256 - first) * delta);
        proof {
            let v = pc.visit(m - 1);
            assert(v.cover == delta);
            assert(v.area == (fx2 + 256 - first) * delta);
            lemma_apply_visits_push(start.cells, vs.take(m - 1), v);
            assert(vs.take(m - 1).push(v) =~= vs);
        }
    }

    /// Removes the last cell if it holds no coverage.
    fn pop_last_cell_if_empty(&mut self)
        requires
            old(self)@.wf_open(),
        ensures
            final(self)@ == (CellStore { cells: trim(old(self)@.cells), ..old(self)@ }),
            final(self)@.wf(),
    {
        reveal(CellStore::cells_within);
        reveal(CellStore::rows_within);
        let n = self.cells.len();
        if n > 0 && self.cells[n - 1].is_empty() {
            self.cells.pop();
        }
    }

    /// Widens the bounds to hold the end pixels of a segment.
    fn widen_bounds(&mut self, ex1: i32, ey1: i32, ex2: i32, ey2: i32)
        requires
            old(self)@.wf(),
            pixel_ok(ex1 as int),
            pixel_ok(ey1 as int),
            pixel_ok(ex2 as int),
            pixel_ok(ey2 as int),
        ensures
            final(self)@ == (CellStore {
                min_x: min3(ex1 as int, ex2 as int, old(self)@.min_x),
                max_x: max3(ex1 as int, ex2 as int, old(self)@.max_x),
                min_y: min3(ey1 as int, ey2 as int, old(self)@.min_y),
                max_y: max3(ey1 as int, ey2 as int, old(self)@.max_y),
                ..old(self)@
            }),
            final(self)@.wf(),
    {
        reveal(CellStore::cells_within);
        reveal(CellStore::rows_within);
        if ex1 < self.min_x {
            self.min_x = ex1;
        }
        if ex2 < self.min_x {
            self.min_x = ex2;
        }
        if ex1 > self.max_x {
            self.max_x = ex1;
        }
        if ex2 > self.max_x {
            self.max_x = ex2;
        }
        if ey1 < self.min_y {
            self.min_y = ey1;
        }
        if ey2 < self.min_y {
            self.min_y = ey2;
        }
        if ey1 > self.max_y {
            self.max_y = ey1;
        }
        if ey2 > self.max_y {
            self.max_y = ey2;
        }
    }

    /// Draws a segment that is not long.
    #[verifier::rlimit(30)]
    fn line_short(&mut self, x1: i64, y1: i64, x2: i64, y2: i64)
        requires
            old(self)@.wf(),
            (Segment { x1: x1 as int, y1: y1 as int, x2: x2 as int, y2: y2 as int }).ok(),
            !(Segment { x1: x1 as int, y1: y1 as int, x2: x2 as int, y2: y2 as int }).is_long(),
        ensures
            final(self)@ == old(self)@.with_line(
                Segment { x1: x1 as int, y1: y1 as int, x2: x2 as int, y2: y2 as int },
            ),
            final(self)@.wf(),
    {
        let ghost sg = Segment { x1: x1 as int, y1: y1 as int, x2: x2 as int, y2: y2 as int };
        let ghost n = sg.rows();
        let ghost start = self@;
        let dx: i64 = x2 - x1;
        let dy: i64 = y2 - y1;
        let ex1 = pixel_floor(x1);
        let ex2 = pixel_floor(x2);
        let ey1 = pixel_floor(y1);
        let ey2 = pixel_floor(y2);
        let fy1 = pixel_frac(y1);
        let fy2 = pixel_frac(y2);
        self.widen_bounds(ex1 as i32, ey1 as i32, ex2 as i32, ey2 as i32);
        let ghost wide = self@;
        assert(wide == start.with_bounds(sg));
        self.set_curr_cell(ex1 as i32, ey1 as i32);
        assert(sg.visits_upto(0) =~= Seq::<Visit>::empty());
        if ey1 == ey2 {
            proof {
                lemma_visits_next_row(start.cells, sg, 0);
            }
            self.render_hline(ey1 as i32, x1, fy1, x2, fy2);
            self.pop_last_cell_if_empty();
            return ;
        }
        let a1: i64 = if dy < 0 {
            fy1
        } else {
            256 - fy1
        };
        let first: i64 = if dy < 0 {
            0
        } else {
            256
        };
        let incr: i64 = if dy < 0 {
            -1
        } else {
            1
        };
        let dya: i64 = if dy < 0 {
            -dy
        } else {
            dy
        };
        proof {
            lemma_segment_reach(sg, 1);
            lemma_mul_bounded(a1 as int, dx as int, 256, DX_LIMIT as int);
            lemma_visits_next_row(start.cells, sg, 0);
        }
        let p: i64 = a1 * dx;
        let (delta0, xmod0) = floor_div_rem(p, dya);
        let mut x_from: i64 = x1 + delta0;
        self.render_hline(ey1 as i32, x1, fy1, x_from, first);
        let mut ey: i64 = ey1 + incr;
        let ghost mut j: int = 1;
        self.set_curr_cell(pixel_floor(x_from) as i32, ey as i32);
        proof {
            lemma_mul_bounded(256, dx as int, 256, DX_LIMIT as int);
        }
        let (lift, rem) = floor_div_rem(256 * dx, dya);
        let mut xmod: i64 = xmod0 - dya;
        while ey != ey2
            invariant
                sg == (Segment { x1: x1 as int, y1: y1 as int, x2: x2 as int, y2: y2 as int }),
                sg.ok(),
                !sg.is_long(),
                n == sg.rows(),
                dx == x2 - x1,
                ey1 == pixel_of(y1 as int),
                ey2 == pixel_of(y2 as int),
                ey1 != ey2,
                incr == sg.step(),
                first == (if sg.step() > 0 {
                    256int
                } else {
                    0int
                }),
                dya == abs(y2 - y1),
                dya > 0,
                lift == (256 * (x2 - x1)) / (dya as int),
                rem == (256 * (x2 - x1)) % (dya as int),
                1 <= j <= n - 1,
                ey == sg.row(j),
                x_from == sg.x_in(j),
                xmod + dya == sg.rem_in(j),
                wide == start.with_bounds(sg),
                wide.wf(),
                self@ == (CellStore {
                    cells: set_current(
                        apply_visits(start.cells, sg.visits_upto(j)),
                        pixel_of(x_from as int),
                        ey as int,
                    ),
                    ..wide
                }),
                self@.wf_open(),
                current_is(self@.cells, pixel_of(x_from as int), ey as int),
            decreases n - 1 - j,
        {
            proof {
                lemma_segment_step(sg, j);
                lemma_segment_reach(sg, j);
                lemma_segment_reach(sg, j + 1);
                lemma_visits_next_row(start.cells, sg, j);
            }
            let mut delta: i64 = lift;
            xmod = xmod + rem;
            if xmod >= 0 {
                xmod = xmod - dya;
                delta = delta + 1;
            }
            let x_to: i64 = x_from + delta;
            assert(x_to == sg.x_in(j + 1));
            self.render_hline(ey as i32, x_from, 256 - first, x_to, first);
            x_from = x_to;
            ey = ey + incr;
            self.set_curr_cell(pixel_floor(x_from) as i32, ey as i32);
            proof {
                j = j + 1;
            }
        }
        proof {
            lemma_segment_reach(sg, n - 1);
            lemma_visits_next_row(start.cells, sg, n - 1);
        }
        self.render_hline(ey as i32, x_from, 256 - first, x2, fy2);
        self.pop_last_cell_if_empty();
    }

    /// Draws the segment from `(x1, y1)` to `(x2, y2)`, given in sub-pixel
    /// coordinates: every pixel that the segment passes through receives the
    /// cover and the area of the part of the segment inside it.
    pub fn line(&mut self, x1: i64, y1: i64, x2: i64, y2: i64)
        requires
            old(self)@.wf(),
            (Segment { x1: x1 as int, y1: y1 as int, x2: x2 as int, y2: y2 as int }).ok(),
        ensures
            final(self)@ == old(self)@.with_line(
                Segment { x1: x1 as int, y1: y1 as int, x2: x2 as int, y2: y2 as int },
            ),
            final(self)@.wf(),
        decreases abs(x2 - x1),
    {
        let dx: i64 = x2 - x1;
        if dx >= DX_LIMIT || dx <= -DX_LIMIT {
            let (cx, _) = floor_div_rem(x1 + x2, 2);
            let (cy, _) = floor_div_rem(y1 + y2, 2);
            self.line(x1, y1, cx, cy);
            self.line(cx, cy, x2, y2);
        } else {
            self.line_short(x1, y1, x2, y2);
        }
    }

    /// Sorts the cells into rows from 0 to the largest row touched, each row
    /// ordered by column. Cells of one pixel keep their order, and rows below 0
    /// are left out. Does nothing if rows exist already.
    pub fn sort_cells(&mut self)
        requires
            old(self)@.wf(),
            old(self)@.cells.len() <= MAX_CELLS,
        ensures
            final(self)@ == old(self)@.sorted(),
            final(self)@.wf(),
            forall|y: int|
                0 <= y < final(self)@.rows.len() ==> ordered_by_x(#[trigger] final(self)@.rows[y]),
    {
        if !self.sorted_y.is_empty() || self.max_y < 0 {
            proof {
                reveal(CellStore::rows_within);
            }
            return ;
        }
        let ghost start = self@;
        let nrows: usize = (self.max_y + 1) as usize;
        let mut rows: Vec<Vec<Cell>> = Vec::new();
        let mut r: usize = 0;
        while r < nrows
            invariant
                r <= nrows,
                rows@.len() == r,
                forall|y: int| 0 <= y < r ==> (#[trigger] rows@[y])@ == Seq::<Cell>::empty(),
            decreases nrows - r,
        {
            rows.push(Vec::new());
            r = r + 1;
        }
        let n = self.cells.len();
        let mut i: usize = 0;
        while i < n
            invariant
                self@ == start,
                start.wf(),
                n == self.cells@.len(),
                i <= n,
                nrows == start.max_y + 1,
                rows@.len() == nrows,
                forall|y: int|
                    0 <= y < nrows ==> (#[trigger] rows@[y])@ == sorted_row(
                        self.cells@.take(i as int),
                        y,
                    ),
            decreases n - i,
        {
            let c = self.cells[i];
            proof {
                reveal(CellStore::cells_within);
                assert(self.cells@.take(i + 1).drop_last() =~= self.cells@.take(i as int));
            }
            if c.y >= 0 {
                let idx = c.y as usize;
                Self::insert_sorted(&mut rows[idx], c);
            }
            i = i + 1;
        }
        proof {
            reveal(CellStore::cells_within);
            reveal(CellStore::rows_within);
            assert(self.cells@.take(n as int) =~= self.cells@);
            assert forall|y: int| 0 <= y < nrows implies ordered_by_x(#[trigger] rows@[y]@)
                && rows@[y]@.len() <= MAX_CELLS && all_within(rows@[y]@) by {
                lemma_sorted_row(self.cells@, y);
            }
        }
        self.sorted_y = rows;
        proof {
            reveal(CellStore::cells_within);
            reveal(CellStore::rows_within);
            assert(self@.rows =~= start.sorted().rows);
        }
    }

    /// Puts `c` into a row that is ordered by column, behind the cells of its column.
    fn insert_sorted(row: &mut Vec<Cell>, c: Cell)
        ensures
            final(row)@ == insert_by_x(old(row)@, c),
    {
        let mut k: usize = row.len();
        while k > 0 && row[k - 1].x > c.x
            invariant
                row@ == old(row)@,
                k <= row@.len(),
                forall|j: int| k <= j < row@.len() ==> (#[trigger] row@[j]).x > c.x,
            decreases k,
        {
            k = k - 1;
        }
        proof {
            lemma_insert_position(row@, c, k as int);
        }
        row.insert(k, c);
    }

    /// Returns the number of cells in the sorted row `y`.
    pub fn scanline_num_cells(&self, y: i32) -> (n: usize)
        requires
            0 <= y < self@.rows.len(),
        ensures
            n == self@.rows[y as int].len(),
    {
        self.sorted_y[y as usize].len()
    }

    /// Returns the cells of the sorted row `y`.
    pub fn scanline_cells(&self, y: i32) -> (r: &Vec<Cell>)
        requires
            0 <= y < self@.rows.len(),
        ensures
            r@ == self@.rows[y as int],
    {
        &self.sorted_y[y as usize]
    }
}

} // verus!
