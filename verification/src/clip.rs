//! Clipping of line segments against a rectangular box.

use crate::cell::{
    abs, all_flat, coord_ok, lemma_with_lines_concat, lemma_with_lines_one, RasterizerCell, Segment,
};
use vstd::prelude::*;

verus! {

/// The quotient `n / d` rounded to the nearest integer, halves away from zero.
pub open spec fn round_div(n: int, d: int) -> int {
    if (n >= 0) == (d > 0) {
        (2 * abs(n) + abs(d)) / (2 * abs(d))
    } else {
        -((2 * abs(n) + abs(d)) / (2 * abs(d)))
    }
}

/// The nearest value of type `i64` to `v`.
pub open spec fn clamp_i64(v: int) -> int {
    if v < i64::MIN {
        i64::MIN as int
    } else if v > i64::MAX {
        i64::MAX as int
    } else {
        v
    }
}

/// The rounded value of `a * b / c`, kept inside `i64`.
///
/// A division by zero gives the largest or smallest value by the sign of
/// `a * b`, and zero if the product is zero.
pub open spec fn mul_div_spec(a: int, b: int, c: int) -> int {
    if c != 0 {
        clamp_i64(round_div(a * b, c))
    } else if a * b > 0 {
        i64::MAX as int
    } else if a * b < 0 {
        i64::MIN as int
    } else {
        0
    }
}

/// The magnitude of `v`.
fn magnitude(v: i64) -> (r: u128)
    ensures
        r == abs(v as int),
        r <= 0x8000_0000_0000_0000,
{
    if v < 0 {
        (-(v as i128)) as u128
    } else {
        v as u128
    }
}

/// Multiplies `a` by `b` and divides by `c`, rounding to the nearest integer.
pub fn mul_div(a: i64, b: i64, c: i64) -> (r: i64)
    ensures
        r == mul_div_spec(a as int, b as int, c as int),
{
    let ma = magnitude(a);
    let mb = magnitude(b);
    let mc = magnitude(c);
    let negative = ((a < 0) != (b < 0)) && a != 0 && b != 0;
    proof {
        assert(0 <= ma * mb <= 0x8000_0000_0000_0000 * 0x8000_0000_0000_0000) by (nonlinear_arith)
            requires
                0 <= ma <= 0x8000_0000_0000_0000,
                0 <= mb <= 0x8000_0000_0000_0000,
        ;
        assert(ma * mb == abs((a as int) * (b as int))) by (nonlinear_arith)
            requires
                ma == abs(a as int),
                mb == abs(b as int),
        ;
        assert(((a as int) * (b as int) < 0) == negative && ((a as int) * (b as int) == 0) == (a
            == 0 || b == 0)) by (nonlinear_arith)
            requires
                negative == (((a < 0) != (b < 0)) && a != 0 && b != 0),
        ;
    }
    let n: u128 = ma * mb;
    if c == 0 {
        if n == 0 {
            return 0;
        }
        return if negative {
            i64::MIN
        } else {
            i64::MAX
        };
    }
    let q: u128 = (2 * n + mc) / (2 * mc);
    let neg = negative != (c < 0);
    proof {
        let nn = (a as int) * (b as int);
        assert(neg == !((nn >= 0) == (c > 0)) || n == 0);
        if n == 0 {
            assert(q == 0) by (nonlinear_arith)
                requires
                    q == (mc as int) / (2 * mc),
                    mc > 0,
            ;
        }
    }
    if neg {
        if q >= 0x8000_0000_0000_0000 {
            i64::MIN
        } else {
            -(q as i64)
        }
    } else {
        if q > 0x7FFF_FFFF_FFFF_FFFF {
            i64::MAX
        } else {
            q as i64
        }
    }
}

/// The rounded value of `n / d`, kept inside `i64`.
///
/// A division by zero gives the largest or smallest value by the sign of `n`,
/// and zero if `n` is zero.
pub open spec fn round_div_clamped(n: int, d: int) -> int {
    if d != 0 {
        clamp_i64(round_div(n, d))
    } else if n > 0 {
        i64::MAX as int
    } else if n < 0 {
        i64::MIN as int
    } else {
        0
    }
}

/// Divides `n` by `d`, rounding to the nearest integer.
pub fn div_round(n: i128, d: i64) -> (r: i64)
    requires
        -0x2000_0000_0000_0000_0000_0000_0000_0000 <= n <= 0x2000_0000_0000_0000_0000_0000_0000_0000,
    ensures
        r == round_div_clamped(n as int, d as int),
{
    if d == 0 {
        return if n > 0 {
            i64::MAX
        } else if n < 0 {
            i64::MIN
        } else {
            0
        };
    }
    let mn: u128 = if n < 0 {
        (-n) as u128
    } else {
        n as u128
    };
    let md = magnitude(d);
    let q: u128 = (2 * mn + md) / (2 * md);
    let neg = (n < 0) != (d < 0);
    proof {
        if n == 0 {
            assert(q == 0) by (nonlinear_arith)
                requires
                    q == (md as int) / (2 * md),
                    md > 0,
            ;
        }
    }
    if neg {
        if q >= 0x8000_0000_0000_0000 {
            i64::MIN
        } else {
            -(q as i64)
        }
    } else {
        if q > 0x7FFF_FFFF_FFFF_FFFF {
            i64::MAX
        } else {
            q as i64
        }
    }
}

/// A rounded share `a / c` of `b`, with `a` between zero and `c`, lies between
/// zero and `b`.
pub proof fn lemma_round_div_between(a: int, b: int, c: int)
    requires
        c != 0,
        (0 <= a <= c) || (c <= a <= 0),
    ensures
        b >= 0 ==> 0 <= round_div(a * b, c) <= b,
        b <= 0 ==> b <= round_div(a * b, c) <= 0,
        a == 0 ==> round_div(a * b, c) == 0,
        a == c ==> round_div(a * b, c) == b,
{
    let n = a * b;
    let d = abs(c);
    let m = abs(a);
    let k = abs(b);
    assert(abs(n) == m * k) by (nonlinear_arith)
        requires
            n == a * b,
            m == abs(a),
            k == abs(b),
    ;
    assert(0 <= m * k <= d * k) by (nonlinear_arith)
        requires
            0 <= m <= d,
            0 <= k,
    ;
    assert((2 * k) * d + d == 2 * (d * k) + d) by (nonlinear_arith);
    assert(k * (2 * d) + d == 2 * (d * k) + d) by (nonlinear_arith);
    vstd::arithmetic::div_mod::lemma_fundamental_div_mod_converse(2 * (d * k) + d, 2 * d, k, d);
    vstd::arithmetic::div_mod::lemma_div_is_ordered(2 * (m * k) + d, 2 * (d * k) + d, 2 * d);
    vstd::arithmetic::div_mod::lemma_div_pos_is_pos(2 * (m * k) + d, 2 * d);
    assert(a == 0 ==> m * k == 0) by (nonlinear_arith)
        requires
            m == abs(a),
    ;
    vstd::arithmetic::div_mod::lemma_fundamental_div_mod_converse(d, 2 * d, 0, d);
    assert(a == c ==> m * k == d * k);
    assert(b > 0 && a != 0 ==> ((n >= 0) == (c > 0))) by (nonlinear_arith)
        requires
            n == a * b,
            (0 <= a <= c) || (c <= a <= 0),
            c != 0,
    ;
    assert(b < 0 && a != 0 ==> ((n >= 0) != (c > 0))) by (nonlinear_arith)
        requires
            n == a * b,
            (0 <= a <= c) || (c <= a <= 0),
            c != 0,
    ;
    assert(b == 0 ==> n == 0) by (nonlinear_arith)
        requires
            n == a * b,
    ;
}

/// A side of the clip box on which a point can lie.
#[derive(Clone, Copy, Debug, Default, PartialEq, Eq, Hash)]
pub enum ClipSide {
    /// Inside the box.
    #[default]
    Inside,
    /// Left of the box.
    Left,
    /// Right of the box.
    Right,
    /// Below the box.
    Bottom,
    /// Above the box.
    Top,
}

impl ClipSide {
    /// The flag bits of a point inside the box.
    pub const INSIDE: u8 = 0;

    /// The flag bit of a point left of the box.
    pub const LEFT: u8 = 1;

    /// The flag bit of a point right of the box.
    pub const RIGHT: u8 = 2;

    /// The flag bit of a point below the box.
    pub const BOTTOM: u8 = 4;

    /// The flag bit of a point above the box.
    pub const TOP: u8 = 8;

    /// The flag bit of the side.
    pub open spec fn bits_spec(self) -> u8 {
        match self {
            ClipSide::Inside => 0,
            ClipSide::Left => 1,
            ClipSide::Right => 2,
            ClipSide::Bottom => 4,
            ClipSide::Top => 8,
        }
    }

    /// Returns the flag bit of the side.
    pub fn bits(self) -> (r: u8)
        ensures
            r == self.bits_spec(),
    {
        match self {
            ClipSide::Inside => 0,
            ClipSide::Left => 1,
            ClipSide::Right => 2,
            ClipSide::Bottom => 4,
            ClipSide::Top => 8,
        }
    }

    /// Returns the flags of the point `(x, y)` against the box from `(x1, y1)` to `(x2, y2)`.
    pub fn clip_flags_i64(x: i64, y: i64, x1: i64, y1: i64, x2: i64, y2: i64) -> (code: u8)
        ensures
            code == (ClipBox { x1: x1 as int, y1: y1 as int, x2: x2 as int, y2: y2 as int }).flags(
                x as int,
                y as int,
            ),
    {
        let l: u8 = if x < x1 {
            1
        } else {
            0
        };
        let r: u8 = if x > x2 {
            2
        } else {
            0
        };
        let b: u8 = if y < y1 {
            4
        } else {
            0
        };
        let t: u8 = if y > y2 {
            8
        } else {
            0
        };
        proof {
            lemma_flag_bits(l, r, b, t);
        }
        l | r | b | t
    }
}

/// Flags of different sides combine by addition, and the masks of the two axes
/// take them apart again.
pub proof fn lemma_flag_bits(l: u8, r: u8, b: u8, t: u8)
    by (bit_vector)
    requires
        l == 0 || l == 1,
        r == 0 || r == 2,
        b == 0 || b == 4,
        t == 0 || t == 8,
    ensures
        ((l | r) | b) | t == l + r + b + t,
        (((l | r) | b) | t) & 3 == l + r,
        (((l | r) | b) | t) & 12 == b + t,
        (((l | r) | b) | t) & (8u8 | 4u8) == b + t,
        (((l | r) | b) | t) & (1u8 | 2u8) == l + r,
{
}

/// The bounds of a clip box.
pub struct ClipBox {
    /// Smallest horizontal coordinate inside the box.
    pub x1: int,
    /// Smallest vertical coordinate inside the box.
    pub y1: int,
    /// Largest horizontal coordinate inside the box.
    pub x2: int,
    /// Largest vertical coordinate inside the box.
    pub y2: int,
}

impl ClipBox {
    /// Whether the bounds are sorted.
    pub open spec fn sorted(self) -> bool {
        self.x1 <= self.x2 && self.y1 <= self.y2
    }

    /// Whether the bounds are sorted and lie in the drawable range.
    pub open spec fn ok(self) -> bool {
        &&& self.sorted()
        &&& coord_ok(self.x1)
        &&& coord_ok(self.y1)
        &&& coord_ok(self.x2)
        &&& coord_ok(self.y2)
    }

    /// The flags of the point `(x, y)`: 1 left, 2 right, 4 below, 8 above the box.
    pub open spec fn flags(self, x: int, y: int) -> int {
        (if x < self.x1 {
            1int
        } else {
            0int
        }) + (if x > self.x2 {
            2int
        } else {
            0int
        }) + (if y < self.y1 {
            4int
        } else {
            0int
        }) + (if y > self.y2 {
            8int
        } else {
            0int
        })
    }

    /// The horizontal flags of `x`: 1 left of the box, 2 right of it.
    pub open spec fn x_bits(self, x: int) -> int {
        (if x < self.x1 {
            1int
        } else {
            0int
        }) + (if x > self.x2 {
            2int
        } else {
            0int
        })
    }

    /// The vertical flags of `y`: 4 below the box, 8 above it.
    pub open spec fn y_bits(self, y: int) -> int {
        (if y < self.y1 {
            4int
        } else {
            0int
        }) + (if y > self.y2 {
            8int
        } else {
            0int
        })
    }

    /// On which side `x` lies: -1 left of the box, 1 right of it, 0 inside.
    pub open spec fn side_x(self, x: int) -> int {
        if x < self.x1 {
            -1
        } else if x > self.x2 {
            1
        } else {
            0
        }
    }

    /// On which side `y` lies: -1 below the box, 1 above it, 0 inside.
    pub open spec fn side_y(self, y: int) -> int {
        if y < self.y1 {
            -1
        } else if y > self.y2 {
            1
        } else {
            0
        }
    }

    /// The nearest horizontal coordinate inside the box.
    pub open spec fn clamp_x(self, x: int) -> int {
        if x < self.x1 {
            self.x1
        } else if x > self.x2 {
            self.x2
        } else {
            x
        }
    }

    /// The horizontal edge on the given side.
    pub open spec fn edge_y(self, side: int) -> int {
        if side < 0 {
            self.y1
        } else {
            self.y2
        }
    }

    /// The points at which the segment passes a vertical edge of the box, in the
    /// order of travel.
    pub open spec fn crossings(self, s: Segment) -> Seq<(int, int)> {
        let a = self.side_x(s.x1);
        let c = self.side_x(s.x2);
        let left = (self.x1, cut_y(s, self.x1));
        let right = (self.x2, cut_y(s, self.x2));
        if a == c {
            Seq::empty()
        } else if a < c {
            (if a < 0 {
                seq![left]
            } else {
                Seq::empty()
            }) + (if c > 0 {
                seq![right]
            } else {
                Seq::empty()
            })
        } else {
            (if a > 0 {
                seq![right]
            } else {
                Seq::empty()
            }) + (if c < 0 {
                seq![left]
            } else {
                Seq::empty()
            })
        }
    }

    /// What is drawn of the part from `p` to `q`.
    ///
    /// Both points are first moved horizontally onto the box. A part inside the
    /// box vertically is drawn whole, one wholly above or wholly below it is not
    /// drawn, and any other is cut at the horizontal edges that it passes.
    pub open spec fn clip_part(self, p: (int, int), q: (int, int)) -> Seq<Segment> {
        let s = Segment { x1: self.clamp_x(p.0), y1: p.1, x2: self.clamp_x(q.0), y2: q.1 };
        let a = self.side_y(s.y1);
        let c = self.side_y(s.y2);
        if a == 0 && c == 0 {
            seq![s]
        } else if a == c {
            Seq::empty()
        } else {
            seq![
                Segment {
                    x1: if a == 0 {
                        s.x1
                    } else {
                        cut_x(s, self.edge_y(a))
                    },
                    y1: if a == 0 {
                        s.y1
                    } else {
                        self.edge_y(a)
                    },
                    x2: if c == 0 {
                        s.x2
                    } else {
                        cut_x(s, self.edge_y(c))
                    },
                    y2: if c == 0 {
                        s.y2
                    } else {
                        self.edge_y(c)
                    },
                },
            ]
        }
    }

    /// Whether both ends of the segment `s` lie beyond one and the same edge of
    /// the box: both left of it, both right of it, both below it or both above
    /// it.
    pub open spec fn beyond_one_edge(self, s: Segment) -> bool {
        ||| (self.side_x(s.x1) != 0 && self.side_x(s.x1) == self.side_x(s.x2))
        ||| (self.side_y(s.y1) != 0 && self.side_y(s.y1) == self.side_y(s.y2))
    }

    /// What is drawn of the segment `s`: nothing, if both its ends lie beyond one
    /// and the same edge of the box. Any other segment is parted where it passes
    /// a vertical edge of the box, and each part is clipped by `clip_part`.
    pub open spec fn emitted(self, s: Segment) -> Seq<Segment> {
        let mid = self.crossings(s);
        let p = (s.x1, s.y1);
        let q = (s.x2, s.y2);
        if self.beyond_one_edge(s) {
            Seq::empty()
        } else if mid.len() == 0 {
            self.clip_part(p, q)
        } else if mid.len() == 1 {
            self.clip_part(p, mid[0]) + self.clip_part(mid[0], q)
        } else {
            self.clip_part(p, mid[0]) + self.clip_part(mid[0], mid[1]) + self.clip_part(mid[1], q)
        }
    }
}

/// The height at which the segment reaches the horizontal position `ex`.
pub open spec fn cut_y(s: Segment, ex: int) -> int {
    s.y1 + mul_div_spec(ex - s.x1, s.y2 - s.y1, s.x2 - s.x1)
}

/// The horizontal position at which the segment reaches the height `ey`.
pub open spec fn cut_x(s: Segment, ey: int) -> int {
    s.x1 + mul_div_spec(ey - s.y1, s.x2 - s.x1, s.y2 - s.y1)
}

/// A rectangle with sorted bounds.
#[derive(Clone, Copy, Debug, PartialEq, Eq, Hash)]
pub struct Rectangle {
    /// Smallest horizontal coordinate.
    x1: i64,
    /// Smallest vertical coordinate.
    y1: i64,
    /// Largest horizontal coordinate.
    x2: i64,
    /// Largest vertical coordinate.
    y2: i64,
}

impl View for Rectangle {
    type V = ClipBox;

    closed spec fn view(&self) -> ClipBox {
        ClipBox { x1: self.x1 as int, y1: self.y1 as int, x2: self.x2 as int, y2: self.y2 as int }
    }
}

impl Rectangle {
    /// The bounds of the rectangle with the corners `(x1, y1)` and `(x2, y2)`.
    pub open spec fn new_spec(x1: i64, y1: i64, x2: i64, y2: i64) -> ClipBox {
        ClipBox {
            x1: if x1 > x2 {
                x2 as int
            } else {
                x1 as int
            },
            y1: if y1 > y2 {
                y2 as int
            } else {
                y1 as int
            },
            x2: if x1 > x2 {
                x1 as int
            } else {
                x2 as int
            },
            y2: if y1 > y2 {
                y1 as int
            } else {
                y2 as int
            },
        }
    }

    /// Creates a rectangle from two corners, with the bounds sorted.
    pub fn new(x1: i64, y1: i64, x2: i64, y2: i64) -> (r: Self)
        ensures
            r@ == Self::new_spec(x1, y1, x2, y2),
            r@.sorted(),
    {
        let (x1, x2) = if x1 > x2 {
            (x2, x1)
        } else {
            (x1, x2)
        };
        let (y1, y2) = if y1 > y2 {
            (y2, y1)
        } else {
            (y1, y2)
        };
        Self { x1, y1, x2, y2 }
    }

    /// Widens the rectangle so that it holds the point `(x, y)`.
    pub fn expand(&mut self, x: i64, y: i64)
        ensures
            final(self)@.x1 == (if x < old(self)@.x1 {
                x as int
            } else {
                old(self)@.x1
            }),
            final(self)@.y1 == (if y < old(self)@.y1 {
                y as int
            } else {
                old(self)@.y1
            }),
            final(self)@.x2 == (if x > old(self)@.x2 {
                x as int
            } else {
                old(self)@.x2
            }),
            final(self)@.y2 == (if y > old(self)@.y2 {
                y as int
            } else {
                old(self)@.y2
            }),
            old(self)@.sorted() ==> final(self)@.sorted(),
    {
        if x < self.x1 {
            self.x1 = x;
        }
        if x > self.x2 {
            self.x2 = x;
        }
        if y < self.y1 {
            self.y1 = y;
        }
        if y > self.y2 {
            self.y2 = y;
        }
    }

    /// Widens the rectangle so that it holds the rectangle `r`.
    pub fn expand_rect(&mut self, r: &Rectangle)
        requires
            old(self)@.sorted(),
            r@.sorted(),
        ensures
            final(self)@ == (ClipBox {
                x1: if r@.x1 < old(self)@.x1 {
                    r@.x1
                } else {
                    old(self)@.x1
                },
                y1: if r@.y1 < old(self)@.y1 {
                    r@.y1
                } else {
                    old(self)@.y1
                },
                x2: if r@.x2 > old(self)@.x2 {
                    r@.x2
                } else {
                    old(self)@.x2
                },
                y2: if r@.y2 > old(self)@.y2 {
                    r@.y2
                } else {
                    old(self)@.y2
                },
            }),
            final(self)@.sorted(),
    {
        self.expand(r.x1, r.y1);
        self.expand(r.x2, r.y2);
    }

    /// Returns the smallest horizontal coordinate.
    pub fn x1(&self) -> (r: i64)
        ensures
            r == self@.x1,
    {
        self.x1
    }

    /// Returns the largest horizontal coordinate.
    pub fn x2(&self) -> (r: i64)
        ensures
            r == self@.x2,
    {
        self.x2
    }

    /// Returns the smallest vertical coordinate.
    pub fn y1(&self) -> (r: i64)
        ensures
            r == self@.y1,
    {
        self.y1
    }

    /// Returns the largest vertical coordinate.
    pub fn y2(&self) -> (r: i64)
        ensures
            r == self@.y2,
    {
        self.y2
    }

    /// Returns the flags of the point `(x, y)`: 1 left, 2 right, 4 below, 8 above.
    pub fn clip_flags(&self, x: i64, y: i64) -> (code: u8)
        ensures
            code == self@.flags(x as int, y as int),
    {
        ClipSide::clip_flags_i64(x, y, self.x1, self.y1, self.x2, self.y2)
    }

    /// Returns the flags of the point `(x, y)`: 1 left, 2 right, 4 below, 8 above.
    pub fn clip_flags_i64(&self, x: i64, y: i64) -> (code: u8)
        ensures
            code == self@.flags(x as int, y as int),
    {
        ClipSide::clip_flags_i64(x, y, self.x1, self.y1, self.x2, self.y2)
    }
}

/// The masks of the two axes take the flags of a point apart.
pub proof fn lemma_flags_split(b: ClipBox, x: int, y: int, f: u8)
    requires
        f == b.flags(x, y),
    ensures
        f & (1u8 | 2u8) == b.x_bits(x),
        f & (8u8 | 4u8) == b.y_bits(y),
{
    let l: u8 = if x < b.x1 {
        1
    } else {
        0
    };
    let r: u8 = if x > b.x2 {
        2
    } else {
        0
    };
    let bb: u8 = if y < b.y1 {
        4
    } else {
        0
    };
    let t: u8 = if y > b.y2 {
        8
    } else {
        0
    };
    lemma_flag_bits(l, r, bb, t);
}

/// Where a segment reaches a vertical line between its ends, its height lies
/// between the heights of its ends.
pub proof fn lemma_cut_y_between(s: Segment, e: int)
    requires
        s.ok(),
        s.x1 != s.x2,
        (s.x1 <= e <= s.x2) || (s.x2 <= e <= s.x1),
    ensures
        s.y1 <= s.y2 ==> s.y1 <= cut_y(s, e) <= s.y2,
        s.y1 >= s.y2 ==> s.y1 >= cut_y(s, e) >= s.y2,
        coord_ok(cut_y(s, e)),
        cut_y(s, e) == s.y1 + round_div((e - s.x1) * (s.y2 - s.y1), s.x2 - s.x1),
{
    lemma_round_div_between(e - s.x1, s.y2 - s.y1, s.x2 - s.x1);
}

/// Where a segment reaches a horizontal line between its ends, its horizontal
/// position lies between those of its ends.
pub proof fn lemma_cut_x_between(s: Segment, e: int)
    requires
        s.ok(),
        s.y1 != s.y2,
        (s.y1 <= e <= s.y2) || (s.y2 <= e <= s.y1),
    ensures
        s.x1 <= s.x2 ==> s.x1 <= cut_x(s, e) <= s.x2,
        s.x1 >= s.x2 ==> s.x1 >= cut_x(s, e) >= s.x2,
        coord_ok(cut_x(s, e)),
        cut_x(s, e) == s.x1 + round_div((e - s.y1) * (s.x2 - s.x1), s.y2 - s.y1),
{
    lemma_round_div_between(e - s.y1, s.x2 - s.x1, s.y2 - s.y1);
}

/// Full containment: a segment whose ends lie both beyond one and the same edge
/// of the box, whichever of the four, draws nothing.
pub proof fn lemma_beyond_same_edge_draws_nothing(b: ClipBox, s: Segment)
    requires
        b.beyond_one_edge(s),
    ensures
        b.emitted(s) == Seq::<Segment>::empty(),
{
}

/// A segment whose ends lie both inside the box is drawn as it is.
pub proof fn lemma_inside_is_drawn_whole(b: ClipBox, s: Segment)
    requires
        b.sorted(),
        b.flags(s.x1, s.y1) == 0,
        b.flags(s.x2, s.y2) == 0,
    ensures
        b.emitted(s) == seq![s],
{
    assert(b.crossings(s) =~= Seq::<(int, int)>::empty());
}

/// What is drawn of a segment without height has no height either.
pub proof fn lemma_flat_segment_is_drawn_flat(b: ClipBox, s: Segment)
    requires
        b.ok(),
        s.ok(),
        s.y1 == s.y2,
    ensures
        all_flat(b.emitted(s)),
{
    assert((b.x1 - s.x1) * (s.y2 - s.y1) == 0 && (b.x2 - s.x1) * (s.y2 - s.y1) == 0)
        by (nonlinear_arith)
        requires
            s.y2 - s.y1 == 0,
    ;
    if s.x1 != s.x2 {
        vstd::arithmetic::div_mod::lemma_fundamental_div_mod_converse(
            abs(s.x2 - s.x1),
            2 * abs(s.x2 - s.x1),
            0,
            abs(s.x2 - s.x1),
        );
    }
    assert(s.x1 != s.x2 ==> cut_y(s, b.x1) == s.y1 && cut_y(s, b.x2) == s.y1);
    let segs = b.emitted(s);
    assert forall|i: int| 0 <= i < segs.len() implies (#[trigger] segs[i]).y1 == segs[i].y2
        && segs[i].ok() by {}
}

/// Whether both ends of every segment of a sequence lie inside the box `b`.
pub open spec fn all_inside(b: ClipBox, segs: Seq<Segment>) -> bool {
    forall|i: int|
        0 <= i < segs.len() ==> b.flags((#[trigger] segs[i]).x1, segs[i].y1) == 0 && b.flags(
            segs[i].x2,
            segs[i].y2,
        ) == 0
}

/// What is drawn of a part of a segment lies inside the box, and is one segment
/// at most.
pub proof fn lemma_part_is_inside(b: ClipBox, p: (int, int), q: (int, int))
    requires
        b.ok(),
        coord_ok(p.0),
        coord_ok(p.1),
        coord_ok(q.0),
        coord_ok(q.1),
    ensures
        all_inside(b, b.clip_part(p, q)),
        b.clip_part(p, q).len() <= 1,
{
    let s = Segment { x1: b.clamp_x(p.0), y1: p.1, x2: b.clamp_x(q.0), y2: q.1 };
    let a = b.side_y(s.y1);
    let c = b.side_y(s.y2);
    if a != c {
        if a != 0 {
            lemma_cut_x_between(s, b.edge_y(a));
        }
        if c != 0 {
            lemma_cut_x_between(s, b.edge_y(c));
        }
    }
}

/// What the clipper draws lies inside the clip box: both ends of every segment
/// that is drawn of a line lie inside the box, and there are three of them at
/// most.
pub proof fn lemma_emitted_is_inside(b: ClipBox, s: Segment)
    requires
        b.ok(),
        s.ok(),
    ensures
        all_inside(b, b.emitted(s)),
        b.emitted(s).len() <= 3,
{
    let mid = b.crossings(s);
    let p = (s.x1, s.y1);
    let q = (s.x2, s.y2);
    if b.side_x(s.x1) != b.side_x(s.x2) {
        if (s.x1 <= b.x1 <= s.x2) || (s.x2 <= b.x1 <= s.x1) {
            lemma_cut_y_between(s, b.x1);
        }
        if (s.x1 <= b.x2 <= s.x2) || (s.x2 <= b.x2 <= s.x1) {
            lemma_cut_y_between(s, b.x2);
        }
    }
    if mid.len() == 0 {
        lemma_part_is_inside(b, p, q);
    } else if mid.len() == 1 {
        lemma_part_is_inside(b, p, mid[0]);
        lemma_part_is_inside(b, mid[0], q);
    } else {
        lemma_part_is_inside(b, p, mid[0]);
        lemma_part_is_inside(b, mid[0], mid[1]);
        lemma_part_is_inside(b, mid[1], q);
    }
    let segs = b.emitted(s);
    assert forall|i: int| 0 <= i < segs.len() implies b.flags((#[trigger] segs[i]).x1, segs[i].y1)
        == 0 && b.flags(segs[i].x2, segs[i].y2) == 0 by {
        if mid.len() == 0 {
        } else if mid.len() == 1 {
            let first = b.clip_part(p, mid[0]);
            let second = b.clip_part(mid[0], q);
            if i < first.len() {
                assert(segs[i] == first[i]);
            } else {
                assert(segs[i] == second[i - first.len()]);
            }
        } else {
            let first = b.clip_part(p, mid[0]);
            let second = b.clip_part(mid[0], mid[1]);
            let third = b.clip_part(mid[1], q);
            if i < first.len() {
                assert(segs[i] == first[i]);
            } else if i < first.len() + second.len() {
                assert(segs[i] == second[i - first.len()]);
            } else {
                assert(segs[i] == third[i - first.len() - second.len()]);
            }
        }
    }
}

/// The state of a clipper.
pub struct ClipState {
    /// Horizontal position of the current point.
    pub x: int,
    /// Vertical position of the current point.
    pub y: int,
    /// The clip box, if one is set.
    pub clip_box: Option<ClipBox>,
    /// The flags of the current point against the clip box.
    pub flag: int,
}

impl ClipState {
    /// Whether the current point and the box lie in the drawable range and the
    /// flags are those of the current point.
    pub open spec fn wf(self) -> bool {
        &&& coord_ok(self.x)
        &&& coord_ok(self.y)
        &&& match self.clip_box {
            Some(b) => b.ok() && self.flag == b.flags(self.x, self.y),
            None => true,
        }
    }

    /// The segments that are drawn for a line from the current point to `(x2, y2)`:
    /// the line itself without a clip box, and what the box leaves of it otherwise.
    pub open spec fn emitted(self, x2: int, y2: int) -> Seq<Segment> {
        let s = Segment { x1: self.x, y1: self.y, x2, y2 };
        match self.clip_box {
            Some(b) => b.emitted(s),
            None => seq![s],
        }
    }

    /// The state with `(x, y)` as the current point.
    pub open spec fn moved_to(self, x: int, y: int) -> ClipState {
        ClipState {
            x,
            y,
            flag: match self.clip_box {
                Some(b) => b.flags(x, y),
                None => self.flag,
            },
            ..self
        }
    }
}

/// Clips the lines of a path against a box on their way into a cell store.
#[derive(Clone, Copy, Debug, PartialEq, Eq, Hash)]
pub struct Clip {
    /// Horizontal position of the current point.
    x1: i64,
    /// Vertical position of the current point.
    y1: i64,
    /// The clip box, if one is set.
    clip_box: Option<Rectangle>,
    /// The flags of the current point against the clip box.
    clip_flag: u8,
}

impl View for Clip {
    type V = ClipState;

    closed spec fn view(&self) -> ClipState {
        ClipState {
            x: self.x1 as int,
            y: self.y1 as int,
            clip_box: match self.clip_box {
                Some(b) => Some(b@),
                None => None,
            },
            flag: self.clip_flag as int,
        }
    }
}

impl Default for Clip {
    fn default() -> (r: Self)
        ensures
            r@ == (ClipState { x: 0, y: 0, clip_box: None, flag: 0 }),
    {
        Self::new()
    }
}

impl Clip {
    /// Creates a clipper without a clip box, with the origin as its current point.
    pub fn new() -> (r: Self)
        ensures
            r@ == (ClipState { x: 0, y: 0, clip_box: None, flag: 0 }),
            r@.wf(),
    {
        Self { x1: 0, y1: 0, clip_box: None, clip_flag: ClipSide::INSIDE }
    }

    /// Draws what the horizontal edges of the box leave of a segment that lies
    /// between the vertical edges.
    fn line_clip_y(
        &self,
        ras: &mut RasterizerCell,
        x1: i64,
        y1: i64,
        x2: i64,
        y2: i64,
        f1: u8,
        f2: u8,
    )
        requires
            self@.wf(),
            old(ras)@.wf(),
            (Segment { x1: x1 as int, y1: y1 as int, x2: x2 as int, y2: y2 as int }).ok(),
            self@.clip_box matches Some(b) ==> {
                &&& b.x1 <= x1 <= b.x2
                &&& b.x1 <= x2 <= b.x2
                &&& f1 & (8u8 | 4u8) == b.y_bits(y1 as int)
                &&& f2 & (8u8 | 4u8) == b.y_bits(y2 as int)
            },
        ensures
            final(ras)@.wf(),
            final(ras)@ == (match self@.clip_box {
                Some(b) => old(ras)@.with_lines(
                    b.clip_part((x1 as int, y1 as int), (x2 as int, y2 as int)),
                ),
                None => old(ras)@,
            }),
    {
        let b = match self.clip_box {
            None => {
                return ;
            },
            Some(b) => b,
        };
        let ghost s = Segment { x1: x1 as int, y1: y1 as int, x2: x2 as int, y2: y2 as int };
        let ghost parts = b@.clip_part((x1 as int, y1 as int), (x2 as int, y2 as int));
        let f1 = f1 & (ClipSide::TOP | ClipSide::BOTTOM);
        let f2 = f2 & (ClipSide::TOP | ClipSide::BOTTOM);
        if f1 == ClipSide::INSIDE && f2 == ClipSide::INSIDE {
            proof {
                lemma_with_lines_one(ras@, s);
            }
            ras.line(x1, y1, x2, y2);
        } else {
            if f1 == f2 {
                assert(parts =~= Seq::<Segment>::empty());
                return ;
            }
            let (mut tx1, mut ty1, mut tx2, mut ty2) = (x1, y1, x2, y2);
            proof {
                if (y1 <= b@.y1 <= y2) || (y2 <= b@.y1 <= y1) {
                    lemma_cut_x_between(s, b@.y1);
                }
                if (y1 <= b@.y2 <= y2) || (y2 <= b@.y2 <= y1) {
                    lemma_cut_x_between(s, b@.y2);
                }
            }
            if f1 == ClipSide::BOTTOM {
                tx1 = x1 + mul_div(b.y1 - y1, x2 - x1, y2 - y1);
                ty1 = b.y1;
            }
            if f1 == ClipSide::TOP {
                tx1 = x1 + mul_div(b.y2 - y1, x2 - x1, y2 - y1);
                ty1 = b.y2;
            }
            if f2 == ClipSide::BOTTOM {
                tx2 = x1 + mul_div(b.y1 - y1, x2 - x1, y2 - y1);
                ty2 = b.y1;
            }
            if f2 == ClipSide::TOP {
                tx2 = x1 + mul_div(b.y2 - y1, x2 - x1, y2 - y1);
                ty2 = b.y2;
            }
            proof {
                let t = Segment { x1: tx1 as int, y1: ty1 as int, x2: tx2 as int, y2: ty2 as int };
                assert(parts =~= seq![t]);
                lemma_with_lines_one(ras@, t);
            }
            ras.line(tx1, ty1, tx2, ty2);
        }
    }

    /// Draws the line from the current point to `(x2, y2)` into `ras`, as far as
    /// the clip box leaves it, and makes `(x2, y2)` the current point.
    ///
    /// A line with both ends beyond one and the same edge of the box draws
    /// nothing. Any other line is parted where it passes the left or the right
    /// edge of the box; the part outside that edge is drawn along the edge, and
    /// each part is then cut at the bottom and top edges.
    pub fn line_to(&mut self, ras: &mut RasterizerCell, x2: i64, y2: i64)
        requires
            old(self)@.wf(),
            old(ras)@.wf(),
            coord_ok(x2 as int),
            coord_ok(y2 as int),
        ensures
            final(ras)@ == old(ras)@.with_lines(old(self)@.emitted(x2 as int, y2 as int)),
            final(ras)@.wf(),
            final(self)@ == old(self)@.moved_to(x2 as int, y2 as int),
            final(self)@.wf(),
    {
        let ghost start = ras@;
        let ghost s = Segment { x1: self.x1 as int, y1: self.y1 as int, x2: x2 as int, y2: y2 as int };
        if let Some(b) = self.clip_box {
            let ghost bx = b@;
            let f2 = b.clip_flags_i64(x2, y2);
            let (x1, y1, f1) = (self.x1, self.y1, self.clip_flag);
            proof {
                lemma_flags_split(bx, x1 as int, y1 as int, f1);
                lemma_flags_split(bx, x2 as int, y2 as int, f2);
            }
            // Both points above or both below the box.
            let fy1 = (ClipSide::TOP | ClipSide::BOTTOM) & f1;
            let fy2 = (ClipSide::TOP | ClipSide::BOTTOM) & f2;
            proof {
                assert(fy1 == f1 & (8u8 | 4u8) && fy2 == f2 & (8u8 | 4u8)) by (bit_vector)
                    requires
                        fy1 == (8u8 | 4u8) & f1,
                        fy2 == (8u8 | 4u8) & f2,
                ;
            }
            if fy1 != ClipSide::INSIDE && fy1 == fy2 {
                proof {
                    lemma_beyond_same_edge_draws_nothing(bx, s);
                }
                self.x1 = x2;
                self.y1 = y2;
                self.clip_flag = f2;
                return ;
            }
            let sx1 = f1 & (ClipSide::LEFT | ClipSide::RIGHT);
            let sx2 = f2 & (ClipSide::LEFT | ClipSide::RIGHT);
            let ghost p = (x1 as int, y1 as int);
            let ghost q = (x2 as int, y2 as int);
            let ghost mid = bx.crossings(s);
            proof {
                if x1 != x2 {
                    if (x1 <= bx.x1 <= x2) || (x2 <= bx.x1 <= x1) {
                        lemma_cut_y_between(s, bx.x1);
                    }
                    if (x1 <= bx.x2 <= x2) || (x2 <= bx.x2 <= x1) {
                        lemma_cut_y_between(s, bx.x2);
                    }
                }
            }
            match (sx1, sx2) {
                (0, 0) => {
                    assert(mid =~= Seq::<(int, int)>::empty());
                    self.line_clip_y(ras, x1, y1, x2, y2, f1, f2);
                },
                (0, 2) => {
                    let y3 = y1 + mul_div(b.x2 - x1, y2 - y1, x2 - x1);
                    let f3 = b.clip_flags_i64(b.x2, y3);
                    proof {
                        assert(mid =~= seq![(bx.x2, y3 as int)]);
                        lemma_flags_split(bx, bx.x2, y3 as int, f3);
                        lemma_with_lines_concat(
                            start,
                            bx.clip_part(p, mid[0]),
                            bx.clip_part(mid[0], q),
                        );
                    }
                    self.line_clip_y(ras, x1, y1, b.x2, y3, f1, f3);
                    self.line_clip_y(ras, b.x2, y3, b.x2, y2, f3, f2);
                },
                (2, 0) => {
                    let y3 = y1 + mul_div(b.x2 - x1, y2 - y1, x2 - x1);
                    let f3 = b.clip_flags_i64(b.x2, y3);
                    proof {
                        assert(mid =~= seq![(bx.x2, y3 as int)]);
                        lemma_flags_split(bx, bx.x2, y3 as int, f3);
                        lemma_with_lines_concat(
                            start,
                            bx.clip_part(p, mid[0]),
                            bx.clip_part(mid[0], q),
                        );
                    }
                    self.line_clip_y(ras, b.x2, y1, b.x2, y3, f1, f3);
                    self.line_clip_y(ras, b.x2, y3, x2, y2, f3, f2);
                },
                (0, 1) => {
                    let y3 = y1 + mul_div(b.x1 - x1, y2 - y1, x2 - x1);
                    let f3 = b.clip_flags_i64(b.x1, y3);
                    proof {
                        assert(mid =~= seq![(bx.x1, y3 as int)]);
                        lemma_flags_split(bx, bx.x1, y3 as int, f3);
                        lemma_with_lines_concat(
                            start,
                            bx.clip_part(p, mid[0]),
                            bx.clip_part(mid[0], q),
                        );
                    }
                    self.line_clip_y(ras, x1, y1, b.x1, y3, f1, f3);
                    self.line_clip_y(ras, b.x1, y3, b.x1, y2, f3, f2);
                },
                (2, 1) => {
                    let y3 = y1 + mul_div(b.x2 - x1, y2 - y1, x2 - x1);
                    let y4 = y1 + mul_div(b.x1 - x1, y2 - y1, x2 - x1);
                    let f3 = b.clip_flags_i64(b.x2, y3);
                    let f4 = b.clip_flags_i64(b.x1, y4);
                    proof {
                        assert(mid =~= seq![(bx.x2, y3 as int), (bx.x1, y4 as int)]);
                        lemma_flags_split(bx, bx.x2, y3 as int, f3);
                        lemma_flags_split(bx, bx.x1, y4 as int, f4);
                        lemma_with_lines_concat(
                            start,
                            bx.clip_part(p, mid[0]) + bx.clip_part(mid[0], mid[1]),
                            bx.clip_part(mid[1], q),
                        );
                        lemma_with_lines_concat(
                            start,
                            bx.clip_part(p, mid[0]),
                            bx.clip_part(mid[0], mid[1]),
                        );
                    }
                    self.line_clip_y(ras, b.x2, y1, b.x2, y3, f1, f3);
                    self.line_clip_y(ras, b.x2, y3, b.x1, y4, f3, f4);
                    self.line_clip_y(ras, b.x1, y4, b.x1, y2, f4, f2);
                },
                (1, 0) => {
                    let y3 = y1 + mul_div(b.x1 - x1, y2 - y1, x2 - x1);
                    let f3 = b.clip_flags_i64(b.x1, y3);
                    proof {
                        assert(mid =~= seq![(bx.x1, y3 as int)]);
                        lemma_flags_split(bx, bx.x1, y3 as int, f3);
                        lemma_with_lines_concat(
                            start,
                            bx.clip_part(p, mid[0]),
                            bx.clip_part(mid[0], q),
                        );
                    }
                    self.line_clip_y(ras, b.x1, y1, b.x1, y3, f1, f3);
                    self.line_clip_y(ras, b.x1, y3, x2, y2, f3, f2);
                },
                (1, 2) => {
                    let y3 = y1 + mul_div(b.x1 - x1, y2 - y1, x2 - x1);
                    let y4 = y1 + mul_div(b.x2 - x1, y2 - y1, x2 - x1);
                    let f3 = b.clip_flags_i64(b.x1, y3);
                    let f4 = b.clip_flags_i64(b.x2, y4);
                    proof {
                        assert(mid =~= seq![(bx.x1, y3 as int), (bx.x2, y4 as int)]);
                        lemma_flags_split(bx, bx.x1, y3 as int, f3);
                        lemma_flags_split(bx, bx.x2, y4 as int, f4);
                        lemma_with_lines_concat(
                            start,
                            bx.clip_part(p, mid[0]) + bx.clip_part(mid[0], mid[1]),
                            bx.clip_part(mid[1], q),
                        );
                        lemma_with_lines_concat(
                            start,
                            bx.clip_part(p, mid[0]),
                            bx.clip_part(mid[0], mid[1]),
                        );
                    }
                    self.line_clip_y(ras, b.x1, y1, b.x1, y3, f1, f3);
                    self.line_clip_y(ras, b.x1, y3, b.x2, y4, f3, f4);
                    self.line_clip_y(ras, b.x2, y4, b.x2, y2, f4, f2);
                },
                (1, 1) => {
                    assert(bx.beyond_one_edge(s));
                },
                (2, 2) => {
                    assert(bx.beyond_one_edge(s));
                },
                (_, _) => {
                    assert(false);
                },
            }
            self.clip_flag = f2;
        } else {
            proof {
                lemma_with_lines_one(start, s);
            }
            ras.line(self.x1, self.y1, x2, y2);
        }
        self.x1 = x2;
        self.y1 = y2;
    }

    /// Makes `(x2, y2)` the current point and notes its flags against the clip box.
    pub fn move_to(&mut self, x2: i64, y2: i64)
        requires
            old(self)@.wf(),
            coord_ok(x2 as int),
            coord_ok(y2 as int),
        ensures
            final(self)@ == old(self)@.moved_to(x2 as int, y2 as int),
            final(self)@.wf(),
    {
        self.x1 = x2;
        self.y1 = y2;
        if let Some(b) = self.clip_box {
            self.clip_flag = ClipSide::clip_flags_i64(x2, y2, b.x1, b.y1, b.x2, b.y2);
        }
    }

    /// Sets the clip box to the rectangle with the corners `(x1, y1)` and `(x2, y2)`.
    pub fn clip_box(&mut self, x1: i64, y1: i64, x2: i64, y2: i64)
        requires
            old(self)@.wf(),
            coord_ok(x1 as int),
            coord_ok(y1 as int),
            coord_ok(x2 as int),
            coord_ok(y2 as int),
        ensures
            final(self)@.clip_box == Some(Rectangle::new_spec(x1, y1, x2, y2)),
            final(self)@ == (ClipState {
                clip_box: Some(Rectangle::new_spec(x1, y1, x2, y2)),
                ..old(self)@
            }).moved_to(old(self)@.x, old(self)@.y),
            final(self)@.wf(),
    {
        let b = Rectangle::new(x1, y1, x2, y2);
        self.clip_flag = b.clip_flags_i64(self.x1, self.y1);
        self.clip_box = Some(b);
    }
}

} // verus!
