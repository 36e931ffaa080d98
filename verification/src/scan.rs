//! Scanlines: the spans of coverage of one pixel row.

use crate::cell::pixel_ok;
use vstd::prelude::*;

verus! {

/// The value of `last_x` while a scanline holds no span.
pub const LAST_X: i32 = 0x7FFF_FFF0;

/// The longest run that can be added to a scanline at once.
pub const MAX_RUN: i32 = 0x100_0000;

/// A run of adjacent pixels in one row, with the coverage of each.
#[derive(Clone, Debug, Default, PartialEq, Eq, Hash)]
pub struct Span {
    /// Column of the first pixel.
    pub x: i32,
    /// Number of pixels.
    pub len: i32,
    /// Coverage of each pixel.
    pub covers: Vec<u8>,
}

/// What a span holds.
pub struct SpanView {
    /// Column of the first pixel.
    pub x: int,
    /// Number of pixels.
    pub len: int,
    /// Coverage of each pixel.
    pub covers: Seq<u8>,
}

impl View for Span {
    type V = SpanView;

    open spec fn view(&self) -> SpanView {
        SpanView { x: self.x as int, len: self.len as int, covers: self.covers@ }
    }
}

impl SpanView {
    /// Whether the span holds one coverage value for each of its pixels.
    pub open spec fn wf(self) -> bool {
        &&& 1 <= self.len
        &&& self.covers.len() == self.len
        &&& pixel_ok(self.x)
        &&& pixel_ok(self.x + self.len - 1)
    }

    /// The column behind the last pixel.
    pub open spec fn end(self) -> int {
        self.x + self.len
    }

    /// The span with a run of `len` pixels of coverage `cover` added behind it.
    pub open spec fn extended(self, len: int, cover: u8) -> SpanView {
        SpanView {
            len: self.len + len,
            covers: self.covers + Seq::new(len as nat, |i: int| cover),
            ..self
        }
    }
}

/// The spans of a scanline, in the order in which they were started.
pub open spec fn span_views(spans: Seq<Span>) -> Seq<SpanView> {
    Seq::new(spans.len(), |i: int| spans[i]@)
}

/// What a scanline holds.
pub struct ScanlineView {
    /// Column of the last pixel added, counted from `min_x`; `LAST_X` if there is none.
    pub last_x: int,
    /// The column from which `last_x` is counted.
    pub min_x: int,
    /// The pixel row.
    pub y: int,
    /// The spans in the order in which they were started.
    pub spans: Seq<SpanView>,
}

impl ScanlineView {
    /// Whether every span is well formed and `last_x` is the last pixel of the
    /// last span.
    pub open spec fn wf(self) -> bool {
        &&& pixel_ok(self.min_x)
        &&& forall|i: int| 0 <= i < self.spans.len() ==> (#[trigger] self.spans[i]).wf()
        &&& if self.spans.len() == 0 {
            self.last_x == LAST_X
        } else {
            self.last_x == self.spans.last().end() - 1 - self.min_x
        }
    }

    /// The coverage of the pixel in column `px`: that of the last span that holds
    /// it, and none outside all spans.
    pub open spec fn cover_at(self, px: int) -> Option<u8>
        decreases self.spans.len(),
    {
        if self.spans.len() == 0 {
            None
        } else {
            let s = self.spans.last();
            if s.x <= px < s.end() && 0 <= px - s.x < s.covers.len() {
                Some(s.covers[px - s.x])
            } else {
                (ScanlineView { spans: self.spans.drop_last(), ..self }).cover_at(px)
            }
        }
    }

    /// The scanline with a run of `len` pixels of coverage `cover` added at
    /// column `x`: the run extends the last span if it starts right behind it,
    /// and starts a new span if not.
    pub open spec fn with_span(self, x: int, len: int, cover: u8) -> ScanlineView {
        if x - self.min_x == self.last_x + 1 && self.spans.len() > 0 {
            ScanlineView {
                last_x: x - self.min_x + len - 1,
                spans: self.spans.update(
                    self.spans.len() - 1,
                    self.spans.last().extended(len, cover),
                ),
                ..self
            }
        } else {
            ScanlineView {
                last_x: x - self.min_x + len - 1,
                spans: self.spans.push(
                    SpanView { x, len, covers: Seq::new(len as nat, |i: int| cover) },
                ),
                ..self
            }
        }
    }

    /// The scanline with one pixel of coverage `cover` added at column `x`.
    pub open spec fn with_cell(self, x: int, cover: u8) -> ScanlineView {
        self.with_span(x, 1, cover)
    }

    /// The scanline without spans.
    pub open spec fn cleared(self) -> ScanlineView {
        ScanlineView { last_x: LAST_X as int, spans: Seq::empty(), ..self }
    }
}

/// A run that is added to a scanline is found again pixel by pixel: every pixel
/// of the run has the coverage of the run, whether the run has extended the
/// last span or started a new one.
pub proof fn lemma_added_run_is_kept(sl: ScanlineView, x: int, len: int, cover: u8, px: int)
    requires
        sl.wf(),
        1 <= len,
        x <= px < x + len,
    ensures
        sl.with_span(x, len, cover).cover_at(px) == Some(cover),
{
    let after = sl.with_span(x, len, cover);
    let last = after.spans.last();
    if x - sl.min_x == sl.last_x + 1 && sl.spans.len() > 0 {
        let before = sl.spans.last();
        assert(before.wf());
        assert(last == before.extended(len, cover));
        assert(before.end() == x);
        assert(last.covers[px - last.x] == cover);
    } else {
        assert(last.covers[px - last.x] == cover);
    }
}

/// A scanline that keeps one coverage value for each pixel of its spans.
#[derive(Clone, Debug, Default, PartialEq, Eq, Hash)]
pub struct ScanlineU8 {
    /// Column of the last pixel added, counted from `min_x`.
    last_x: i32,
    /// The column from which `last_x` is counted.
    min_x: i32,
    /// The pixel row.
    pub y: i32,
    /// The spans in the order in which they were started.
    pub spans: Vec<Span>,
}

impl View for ScanlineU8 {
    type V = ScanlineView;

    closed spec fn view(&self) -> ScanlineView {
        ScanlineView {
            last_x: self.last_x as int,
            min_x: self.min_x as int,
            y: self.y as int,
            spans: span_views(self.spans@),
        }
    }
}

impl ScanlineU8 {
    /// What a new scanline holds.
    pub open spec fn new_spec() -> ScanlineView {
        ScanlineView { last_x: LAST_X as int, min_x: 0, y: 0, spans: Seq::empty() }
    }

    /// Creates a scanline without spans.
    pub fn new() -> (r: Self)
        ensures
            r@ == Self::new_spec(),
            r@.wf(),
    {
        let r = Self { last_x: LAST_X, min_x: 0, y: 0, spans: Vec::new() };
        assert(r@.spans =~= Seq::empty());
        r
    }

    /// Removes all spans.
    pub fn reset_spans(&mut self)
        requires
            pixel_ok(old(self)@.min_x),
        ensures
            final(self)@ == old(self)@.cleared(),
            final(self)@.wf(),
    {
        self.last_x = LAST_X;
        self.spans.clear();
        assert(self@.spans =~= Seq::empty());
    }

    /// Removes all spans and sets the column from which positions are counted.
    pub fn reset(&mut self, min_x: i32, _max_x: i32)
        ensures
            final(self)@ == (ScanlineView { min_x: min_x as int, ..old(self)@.cleared() }),
            pixel_ok(min_x as int) ==> final(self)@.wf(),
    {
        self.last_x = LAST_X;
        self.min_x = min_x;
        self.spans.clear();
        assert(self@.spans =~= Seq::empty());
    }

    /// Sets the pixel row.
    pub fn finalize(&mut self, y: i32)
        ensures
            final(self)@ == (ScanlineView { y: y as int, ..old(self)@ }),
    {
        self.y = y;
    }

    /// Returns the number of spans.
    pub fn num_spans(&self) -> (n: usize)
        ensures
            n == self@.spans.len(),
    {
        self.spans.len()
    }

    /// Returns the span at index `i`.
    pub fn span(&self, i: usize) -> (s: &Span)
        requires
            i < self@.spans.len(),
        ensures
            s@ == self@.spans[i as int],
    {
        &self.spans[i]
    }

    /// Returns the pixel row.
    pub fn row(&self) -> (y: i32)
        ensures
            y == self@.y,
    {
        self.y
    }

    /// Returns the column from which positions are counted.
    pub fn min_x(&self) -> (r: i32)
        ensures
            r == self@.min_x,
    {
        self.min_x
    }

    /// Adds a run of `len` pixels of coverage `cover` at column `x`.
    ///
    /// The run extends the last span if it starts right behind it, and starts a
    /// new span if not.
    pub fn add_span(&mut self, x: i32, len: i32, cover: u8)
        requires
            old(self)@.wf(),
            pixel_ok(x as int),
            1 <= len <= MAX_RUN,
            pixel_ok(x + len - 1),
        ensures
            final(self)@ == old(self)@.with_span(x as int, len as int, cover),
            final(self)@.wf(),
    {
        let ghost before = self@;
        let ghost old_spans = self.spans@;
        let rx = x - self.min_x;
        let n = self.spans.len();
        if rx == self.last_x + 1 {
            assert(n > 0);
            let ghost last = self.spans@[n - 1]@;
            let cur = &mut self.spans[n - 1];
            cur.len = cur.len + len;
            let mut i: i32 = 0;
            while i < len
                invariant
                    0 <= i <= len,
                    cur.x == last.x,
                    cur.len == last.len + len,
                    cur.covers@ == last.covers + Seq::new(i as nat, |k: int| cover),
                decreases len - i,
            {
                cur.covers.push(cover);
                i = i + 1;
                assert(cur.covers@ =~= last.covers + Seq::new(i as nat, |k: int| cover));
            }
            assert(cur@ == last.extended(len as int, cover));
            assert(span_views(self.spans@) =~= before.spans.update(
                n - 1,
                last.extended(len as int, cover),
            ));
        } else {
            let mut covers: Vec<u8> = Vec::new();
            let mut i: i32 = 0;
            while i < len
                invariant
                    0 <= i <= len,
                    covers@ == Seq::new(i as nat, |k: int| cover),
                decreases len - i,
            {
                covers.push(cover);
                i = i + 1;
                assert(covers@ =~= Seq::new(i as nat, |k: int| cover));
            }
            let span = Span { x, len, covers };
            self.spans.push(span);
            assert(span_views(self.spans@) =~= before.spans.push(
                SpanView {
                    x: x as int,
                    len: len as int,
                    covers: Seq::new(len as nat, |k: int| cover),
                },
            ));
        }
        self.last_x = rx + len - 1;
    }

    /// Adds one pixel of coverage `cover` at column `x`.
    ///
    /// The pixel extends the last span if it lies right behind it, and starts a
    /// new span if not.
    pub fn add_cell(&mut self, x: i32, cover: u8)
        requires
            old(self)@.wf(),
            pixel_ok(x as int),
        ensures
            final(self)@ == old(self)@.with_cell(x as int, cover),
            final(self)@.wf(),
    {
        self.add_span(x, 1, cover);
    }
}

} // verus!
