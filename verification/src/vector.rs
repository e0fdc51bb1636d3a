use vstd::prelude::*;

verus! {

/// A position on the grid, or a displacement between two positions.
#[derive(Debug, Clone, Copy, PartialEq, Eq, Structural)]
pub struct Vector {
    pub x: i32,
    pub y: i32,
}

impl Vector {
    /// Squared Euclidean distance between two positions, as a mathematical
    /// integer.
    pub open spec fn spec_square_distance(self, other: Vector) -> int {
        (other.x - self.x) * (other.x - self.x) + (other.y - self.y) * (other.y - self.y)
    }

    /// Whether `other` lies strictly closer to `self` than `range_limit`.
    pub open spec fn spec_in_range(self, other: Vector, range_limit: int) -> bool {
        self.spec_square_distance(other) < range_limit * range_limit
    }

    pub fn new(x: i32, y: i32) -> (v: Vector)
        ensures
            v == (Vector { x, y }),
    {
        Vector { x, y }
    }

    /// Squared Euclidean distance to `other`. The caller keeps the two far
    /// enough inside the `i32` plane for the result to fit.
    pub fn square_distance(&self, other: &Vector) -> (d: i32)
        requires
            self.spec_square_distance(*other) <= i32::MAX,
        ensures
            d == self.spec_square_distance(*other),
    {
        let xx: i64 = other.x as i64 - self.x as i64;
        let yy: i64 = other.y as i64 - self.y as i64;
        proof {
            lemma_square_bounds(xx as int, yy as int, i32::MAX as int);
        }
        let d: i64 = xx * xx + yy * yy;
        d as i32
    }

    /// Whether `other` is strictly closer than `range_limit`. Decided exactly
    /// for every pair of positions and every limit: nothing here can
    /// overflow.
    pub fn in_range(&self, other: &Vector, range_limit: i32) -> (within: bool)
        ensures
            within == self.spec_in_range(*other, range_limit as int),
    {
        let xx: i128 = other.x as i128 - self.x as i128;
        let yy: i128 = other.y as i128 - self.y as i128;
        let limit: i128 = range_limit as i128;
        proof {
            lemma_product_bounds(xx as int, xx as int, 0x1_0000_0000);
            lemma_product_bounds(yy as int, yy as int, 0x1_0000_0000);
            lemma_product_bounds(limit as int, limit as int, 0x1_0000_0000);
        }
        xx * xx + yy * yy < limit * limit
    }
}

impl core::ops::Add for Vector {
    type Output = Vector;

    fn add(self, rhs: Vector) -> (sum: Vector) {
        Vector { x: self.x + rhs.x, y: self.y + rhs.y }
    }
}

/// `a + b` adds coordinate by coordinate, and asks that neither sum leaves
/// `i32`.
impl vstd::std_specs::ops::AddSpecImpl for Vector {
    open spec fn obeys_add_spec() -> bool {
        true
    }

    open spec fn add_req(self, rhs: Vector) -> bool {
        &&& i32::MIN <= self.x + rhs.x <= i32::MAX
        &&& i32::MIN <= self.y + rhs.y <= i32::MAX
    }

    open spec fn add_spec(self, rhs: Vector) -> Vector {
        Vector { x: (self.x + rhs.x) as i32, y: (self.y + rhs.y) as i32 }
    }
}

/// A product of two numbers of magnitude at most `m` has magnitude at most
/// `m * m`.
pub proof fn lemma_product_bounds(a: int, b: int, m: int)
    requires
        -m <= a <= m,
        -m <= b <= m,
    ensures
        -(m * m) <= a * b <= m * m,
{
    assert(-(m * m) <= a * b <= m * m) by (nonlinear_arith)
        requires
            -m <= a <= m,
            -m <= b <= m,
    ;
}

/// Two squares whose sum stays below a bound each stay below it.
pub proof fn lemma_square_bounds(a: int, b: int, m: int)
    requires
        a * a + b * b <= m,
    ensures
        0 <= a * a <= m,
        0 <= b * b <= m,
{
    assert(0 <= a * a && 0 <= b * b) by (nonlinear_arith);
}

} // verus!
