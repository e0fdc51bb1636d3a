//! Slopes as exact fractions: compared by cross-multiplication, never
//! divided out.

use vstd::prelude::*;
use crate::vector::lemma_product_bounds;

pub mod order;

verus! {

/// The fraction `num / den` as mathematics sees it: what a [`Slope`] stands
/// for.
pub struct Ratio {
    pub num: int,
    pub den: int,
}

impl Ratio {
    /// `self > y / x`, decided by cross-multiplication. It is the order of
    /// the fractions whenever both denominators are positive.
    pub open spec fn above(self, y: int, x: int) -> bool {
        self.num * x > self.den * y
    }

    /// `self >= y / x`.
    pub open spec fn at_least(self, y: int, x: int) -> bool {
        self.num * x >= self.den * y
    }

    /// `self < y / x`.
    pub open spec fn below(self, y: int, x: int) -> bool {
        self.num * x < self.den * y
    }

    /// `self <= y / x`.
    pub open spec fn at_most(self, y: int, x: int) -> bool {
        self.num * x <= self.den * y
    }

    /// A slope inside the first octant: between 0 and 1, over a positive
    /// denominator.
    pub open spec fn in_octant(self) -> bool {
        0 <= self.num <= self.den && 0 < self.den
    }

    /// The quotient `num / den` rounded toward zero, for a positive
    /// denominator.
    pub open spec fn truncated(self) -> int {
        if self.num >= 0 {
            self.num / self.den
        } else {
            -((-self.num) / self.den)
        }
    }
}

/// The boundary of a wedge of sight: the rational number `y / x`, kept as
/// its two integers and never divided out.
#[derive(Debug, Clone, Copy, PartialEq, Eq, Structural)]
pub struct Slope {
    x: i64,
    y: i64,
}

impl View for Slope {
    type V = Ratio;

    closed spec fn view(&self) -> Ratio {
        Ratio { num: self.y as int, den: self.x as int }
    }
}

impl Slope {
    pub fn new(y: i64, x: i64) -> (s: Slope)
        ensures
            s@ == (Ratio { num: y as int, den: x as int }),
    {
        Slope { x, y }
    }

    /// The whole part of the slope, rounded toward zero. A slope has a
    /// positive denominator.
    pub fn to_num(&self) -> (q: i64)
        requires
            self@.den > 0,
        ensures
            q == self@.truncated(),
    {
        self.y / self.x
    }

    /// `self > y / x`.
    pub fn greater(&self, y: i64, x: i64) -> (r: bool)
        ensures
            r == self@.above(y as int, x as int),
    {
        proof {
            lemma_product_bounds(self.y as int, x as int, 0x8000_0000_0000_0000);
            lemma_product_bounds(self.x as int, y as int, 0x8000_0000_0000_0000);
        }
        (self.y as i128) * (x as i128) > (self.x as i128) * (y as i128)
    }

    /// `self >= y / x`.
    pub fn greater_or_equal(&self, y: i64, x: i64) -> (r: bool)
        ensures
            r == self@.at_least(y as int, x as int),
    {
        proof {
            lemma_product_bounds(self.y as int, x as int, 0x8000_0000_0000_0000);
            lemma_product_bounds(self.x as int, y as int, 0x8000_0000_0000_0000);
        }
        (self.y as i128) * (x as i128) >= (self.x as i128) * (y as i128)
    }

    /// `self < y / x`.
    pub fn less(&self, y: i64, x: i64) -> (r: bool)
        ensures
            r == self@.below(y as int, x as int),
    {
        proof {
            lemma_product_bounds(self.y as int, x as int, 0x8000_0000_0000_0000);
            lemma_product_bounds(self.x as int, y as int, 0x8000_0000_0000_0000);
        }
        (self.y as i128) * (x as i128) < (self.x as i128) * (y as i128)
    }

    /// `self <= y / x`.
    pub fn less_or_equal(&self, y: i64, x: i64) -> (r: bool)
        ensures
            r == self@.at_most(y as int, x as int),
    {
        proof {
            lemma_product_bounds(self.y as int, x as int, 0x8000_0000_0000_0000);
            lemma_product_bounds(self.x as int, y as int, 0x8000_0000_0000_0000);
        }
        (self.y as i128) * (x as i128) <= (self.x as i128) * (y as i128)
    }

    /// The row in which a boundary of this slope enters column `x`: the
    /// slope times `x - 1/2`, rounded to the nearest row, a tie going up.
    pub(crate) fn row_at(&self, x: i64) -> (row: i64)
        requires
            self@.in_octant(),
            self@.den <= 0x4_0000_0000,
            1 <= x <= 0x1_0000_0000,
        ensures
            row == entry_row(self@, x as int),
            0 <= row <= x,
    {
        proof {
            lemma_product_bounds(2 * x - 1, self.y as int, 0x4_0000_0000);
            lemma_entry_row_bounds(self@, x as int);
        }
        let n: i128 = (2 * x as i128 - 1) * (self.y as i128) + self.x as i128;
        let d: i128 = 2 * self.x as i128;
        (n / d) as i64
    }
}

/// The row in which a boundary of slope `s` crosses the left edge of column
/// `x`, cell centres lying on whole coordinates.
pub open spec fn entry_row(s: Ratio, x: int) -> int {
    ((2 * x - 1) * s.num + s.den) / (2 * s.den)
}

/// A boundary inside the octant enters every column at or under the
/// diagonal and never under the axis.
pub proof fn lemma_entry_row_bounds(s: Ratio, x: int)
    requires
        s.in_octant(),
        1 <= x,
    ensures
        0 <= entry_row(s, x) <= x,
        (2 * x - 1) * s.num >= 0,
{
    let n = (2 * x - 1) * s.num + s.den;
    let d = 2 * s.den;
    assert(0 <= (2 * x - 1) * s.num <= (2 * x - 1) * s.den) by (nonlinear_arith)
        requires
            0 <= s.num <= s.den,
            1 <= x,
    ;
    assert((2 * x - 1) * s.den + s.den == x * d) by (nonlinear_arith)
        requires
            d == 2 * s.den,
    ;
    assert(0 <= n / d <= x) by (nonlinear_arith)
        requires
            0 <= n <= x * d,
            d > 0,
    ;
}

/// Of two slopes over positive denominators, cross-multiplication puts
/// exactly one first, or finds them the same angle.
pub proof fn lemma_slopes_compare(a: Ratio, b: Ratio)
    requires
        a.den > 0,
        b.den > 0,
    ensures
        a.above(b.num, b.den) || a.below(b.num, b.den) || a.num * b.den == a.den * b.num,
        !(a.above(b.num, b.den) && a.below(b.num, b.den)),
        a.above(b.num, b.den) == b.below(a.num, a.den),
        a.at_least(b.num, b.den) == !a.below(b.num, b.den),
        a.at_most(b.num, b.den) == !a.above(b.num, b.den),
        a == b ==> a.at_least(b.num, b.den) && a.at_most(b.num, b.den),
{
    assert(a.num * b.den == b.den * a.num && a.den * b.num == b.num * a.den)
        by (nonlinear_arith);
}

/// Over positive denominators the order by cross-multiplication carries
/// over: what lies above a slope lies above all that the slope is at
/// least.
pub proof fn lemma_slope_order_carries(a: Ratio, b: Ratio, c: Ratio)
    requires
        a.den > 0,
        b.den > 0,
        c.den > 0,
        a.above(b.num, b.den),
        b.at_least(c.num, c.den),
    ensures
        a.above(c.num, c.den),
{
    assert(a.num * c.den > a.den * c.num) by (nonlinear_arith)
        requires
            a.den > 0,
            b.den > 0,
            c.den > 0,
            a.num * b.den > a.den * b.num,
            b.num * c.den >= b.den * c.num,
    ;
}

} // verus!
