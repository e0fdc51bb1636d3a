//! What can be seen, as mathematics: the scan of one octant written as a
//! function of the open cells, with no grid and no mutation in it.

use vstd::prelude::*;
use crate::slope::{entry_row, Ratio};
use crate::vector::Vector;

verus! {

/// One more than the farthest that two cells can lie apart along an axis.
/// Columns from here on hold no cell at all.
pub open spec fn reach() -> int {
    0x1_0000_0000
}

/// An observer looking into one octant: the cells that let light through,
/// where the observer stands, and which of the eight octants is scanned.
/// Every cell that is not open stops light, be it a wall or a place outside
/// the map.
pub struct Eye {
    pub open: Set<Vector>,
    pub origin: Vector,
    pub octant: int,
}

/// The displacement that an octant gives to its cell in column `row`,
/// `col` cells off the axis.
pub open spec fn octant_offset(octant: int, row: int, col: int) -> (int, int) {
    if octant == 0 {
        (col, -row)
    } else if octant == 1 {
        (row, -col)
    } else if octant == 2 {
        (row, col)
    } else if octant == 3 {
        (col, row)
    } else if octant == 4 {
        (-col, row)
    } else if octant == 5 {
        (-row, col)
    } else if octant == 6 {
        (-row, -col)
    } else {
        (-col, -row)
    }
}

/// The cell of an octant that a position falls on: its column and its
/// offset from the axis. It undoes [`octant_offset`].
pub open spec fn local_of(origin: Vector, octant: int, p: Vector) -> (int, int) {
    let dx = p.x - origin.x;
    let dy = p.y - origin.y;
    if octant == 0 {
        (-dy, dx)
    } else if octant == 1 {
        (dx, -dy)
    } else if octant == 2 {
        (dx, dy)
    } else if octant == 3 {
        (dy, dx)
    } else if octant == 4 {
        (dy, -dx)
    } else if octant == 5 {
        (-dx, dy)
    } else if octant == 6 {
        (-dx, -dy)
    } else {
        (-dy, -dx)
    }
}

/// Where on the plane the cell `(x, y)` of an octant lies.
pub open spec fn cell_pos(origin: Vector, octant: int, x: int, y: int) -> (int, int) {
    let d = octant_offset(octant, x, y);
    (origin.x + d.0, origin.y + d.1)
}

/// Whether a point of the plane is a position at all.
pub open spec fn is_position(p: (int, int)) -> bool {
    i32::MIN <= p.0 <= i32::MAX && i32::MIN <= p.1 <= i32::MAX
}

pub open spec fn position(p: (int, int)) -> Vector {
    Vector { x: p.0 as i32, y: p.1 as i32 }
}

/// Whether the cell `(x, y)` of the eye's octant stops light.
pub open spec fn blocks(e: Eye, x: int, y: int) -> bool {
    let p = cell_pos(e.origin, e.octant, x, y);
    !(is_position(p) && e.open.contains(position(p)))
}

/// The highest row of column `x` that a wedge under `top` reaches.
///
/// The boundary enters the column in some row. Where that cell is a wall,
/// light passes on into the row above only if the wall's upper left corner
/// is cut off, that is the cell above is open, and the boundary clears the
/// cut. Where it is open, the row above counts once the boundary clears
/// the lower right corner of the cell above, or the middle of its lower
/// edge where that corner is cut off.
pub open spec fn top_row(e: Eye, x: int, top: Ratio) -> int {
    let y = entry_row(top, x);
    if blocks(e, x, y) {
        if top.at_least(2 * y + 1, 2 * x) && !blocks(e, x, y + 1) {
            y + 1
        } else {
            y
        }
    } else {
        let ax = if blocks(e, x + 1, y + 1) {
            2 * x + 1
        } else {
            2 * x
        };
        if top.above(2 * y + 1, ax) {
            y + 1
        } else {
            y
        }
    }
}

/// The lowest row of column `x` that a wedge over `bottom` reaches: the row
/// in which the boundary enters, or the one above where that cell is a
/// wall with its upper left corner cut off and the boundary passes over
/// the cut.
pub open spec fn bottom_row(e: Eye, x: int, bottom: Ratio) -> int {
    let y = entry_row(bottom, x);
    if bottom.at_least(2 * y + 1, 2 * x) && blocks(e, x, y) && !blocks(e, x, y + 1) {
        y + 1
    } else {
        y
    }
}

/// Whether the cell `(x, y)` is lit, given that the wedge between `top`
/// and `bottom` spans rows `bottom_y` to `top_y` of its column. A wall is,
/// and so is an open cell strictly inside the span; an open cell in the
/// first or last row is lit only if the boundary there clears the near
/// corner of the cell's inner square.
pub open spec fn lit(
    e: Eye,
    x: int,
    y: int,
    top_y: int,
    bottom_y: int,
    top: Ratio,
    bottom: Ratio,
) -> bool {
    blocks(e, x, y) || ((y != top_y || top.above(4 * y - 1, 4 * x + 1)) && (y != bottom_y
        || bottom.below(4 * y + 1, 4 * x - 1)))
}

/// The boundary that a wall casts upward: through its upper left corner,
/// or through the middle of its upper edge where the corner is cut off,
/// that is where the cell above the wall is open. It becomes the bottom of
/// the wedge that goes on above the wall.
pub open spec fn upper_edge(e: Eye, x: int, y: int) -> Ratio {
    Ratio { num: 2 * y + 1, den: if blocks(e, x, y + 1) { 2 * x - 1 } else { 2 * x } }
}

/// The boundary under a wall that stands right above the open cell
/// `(x, y)`: through the wall's lower right corner, or through the middle
/// of its lower edge where that corner is cut off, that is where the cell
/// right of the wall is open. It becomes the top of the wedge that goes on
/// below the wall.
pub open spec fn lower_edge(e: Eye, x: int, y: int) -> Ratio {
    Ratio { num: 2 * y + 1, den: if blocks(e, x + 1, y + 1) { 2 * x + 1 } else { 2 * x } }
}

/// Whether the scan of a wedge marks the cell `c`, counted from the point
/// where the walk down column `x` stands at row `y`.
///
/// `was_opaque` tells what the cell above was, if one was walked. A wall
/// under an open cell closes the wedge above it: that part goes on into
/// the next column over the wall's upper edge. An open cell under a wall
/// lowers `top` to the wall's lower edge, and the wedge ends there if
/// nothing is left of it. Under the last row, the wedge goes on into the
/// next column if it ended on an open cell.
pub open spec fn rows_mark(
    e: Eye,
    x: int,
    top_y: int,
    bottom_y: int,
    y: int,
    was_opaque: Option<bool>,
    top: Ratio,
    bottom: Ratio,
    c: (int, int),
) -> bool
    decreases reach() - x, 0int, y - bottom_y + 1,
{
    if x < 1 || x >= reach() {
        false
    } else if y < bottom_y {
        was_opaque == Some(false) && column_mark(e, x + 1, top, bottom, c)
    } else {
        let here = c == (x, y) && lit(e, x, y, top_y, bottom_y, top, bottom);
        if blocks(e, x, y) {
            let above = was_opaque == Some(false) && top.above(
                upper_edge(e, x, y).num,
                upper_edge(e, x, y).den,
            ) && column_mark(e, x + 1, top, upper_edge(e, x, y), c);
            here || above || rows_mark(e, x, top_y, bottom_y, y - 1, Some(true), top, bottom, c)
        } else if was_opaque == Some(true) {
            let edge = lower_edge(e, x, y);
            here || (!bottom.at_least(edge.num, edge.den) && rows_mark(
                e,
                x,
                top_y,
                bottom_y,
                y - 1,
                Some(false),
                edge,
                bottom,
                c,
            ))
        } else {
            here || rows_mark(e, x, top_y, bottom_y, y - 1, Some(false), top, bottom, c)
        }
    }
}

/// Whether the scan of the wedge between `top` and `bottom`, from column
/// `x` outward, marks the cell `c`.
#[verifier::opaque]
pub open spec fn column_mark(e: Eye, x: int, top: Ratio, bottom: Ratio, c: (int, int)) -> bool
    decreases reach() - x, 1int, 0int,
{
    if x < 1 || x >= reach() {
        false
    } else {
        rows_mark(
            e,
            x,
            top_row(e, x, top),
            bottom_row(e, x, bottom),
            top_row(e, x, top),
            None,
            top,
            bottom,
            c,
        )
    }
}

/// A boundary that a wedge can have: inside the octant, over integers
/// small enough to multiply.
pub open spec fn wedge_side(s: Ratio) -> bool {
    s.in_octant() && s.den <= 0x4_0000_0000
}

/// A position falls on the cell `(x, y)` of an octant exactly if it is
/// where that cell lies.
pub proof fn lemma_cell_of_position(origin: Vector, octant: int, x: int, y: int, p: Vector)
    requires
        0 <= octant < 8,
    ensures
        local_of(origin, octant, p) == (x, y) <==> (is_position(cell_pos(origin, octant, x, y))
            && p == position(cell_pos(origin, octant, x, y))),
{
}

/// The octants keep distances: a position is as far from the origin as
/// its cell is from the corner of the octant.
pub proof fn lemma_local_distance(origin: Vector, octant: int, p: Vector)
    requires
        0 <= octant < 8,
    ensures
        origin.spec_square_distance(p) == local_of(origin, octant, p).0 * local_of(
            origin,
            octant,
            p,
        ).0 + local_of(origin, octant, p).1 * local_of(origin, octant, p).1,
{
    let dx = p.x - origin.x;
    let dy = p.y - origin.y;
    assert((-dx) * (-dx) == dx * dx) by (nonlinear_arith);
    assert((-dy) * (-dy) == dy * dy) by (nonlinear_arith);
}

/// Both ends of a wedge's span in a column lie between the axis and the
/// diagonal.
pub proof fn lemma_rows_in_octant(e: Eye, x: int, s: Ratio)
    requires
        1 <= x,
        s.in_octant(),
    ensures
        0 <= top_row(e, x, s) <= x,
        0 <= bottom_row(e, x, s) <= x,
{
    crate::slope::lemma_entry_row_bounds(s, x);
    let y = entry_row(s, x);
    assert(s.at_least(2 * y + 1, 2 * x) ==> y < x) by (nonlinear_arith)
        requires
            0 <= s.num <= s.den,
            0 < s.den,
            0 <= y <= x,
    ;
    assert(s.above(2 * y + 1, 2 * x + 1) ==> y < x) by (nonlinear_arith)
        requires
            0 <= s.num <= s.den,
            0 < s.den,
            0 <= y <= x,
    ;
    assert(s.above(2 * y + 1, 2 * x) ==> y < x) by (nonlinear_arith)
        requires
            0 <= s.num <= s.den,
            0 < s.den,
            0 <= y <= x,
    ;
}

/// What the walk does at one row of a column, spelled out.
pub proof fn lemma_rows_step(
    e: Eye,
    x: int,
    top_y: int,
    bottom_y: int,
    y: int,
    was_opaque: Option<bool>,
    top: Ratio,
    bottom: Ratio,
    c: (int, int),
)
    requires
        1 <= x < reach(),
    ensures
        rows_mark(e, x, top_y, bottom_y, y, was_opaque, top, bottom, c) == (if y < bottom_y {
            was_opaque == Some(false) && column_mark(e, x + 1, top, bottom, c)
        } else if blocks(e, x, y) {
            (c == (x, y) && lit(e, x, y, top_y, bottom_y, top, bottom)) || (was_opaque == Some(
                false,
            ) && top.above(upper_edge(e, x, y).num, upper_edge(e, x, y).den) && column_mark(
                e,
                x + 1,
                top,
                upper_edge(e, x, y),
                c,
            )) || rows_mark(e, x, top_y, bottom_y, y - 1, Some(true), top, bottom, c)
        } else if was_opaque == Some(true) {
            (c == (x, y) && lit(e, x, y, top_y, bottom_y, top, bottom)) || (!bottom.at_least(
                lower_edge(e, x, y).num,
                lower_edge(e, x, y).den,
            ) && rows_mark(
                e,
                x,
                top_y,
                bottom_y,
                y - 1,
                Some(false),
                lower_edge(e, x, y),
                bottom,
                c,
            ))
        } else {
            (c == (x, y) && lit(e, x, y, top_y, bottom_y, top, bottom)) || rows_mark(
                e,
                x,
                top_y,
                bottom_y,
                y - 1,
                Some(false),
                top,
                bottom,
                c,
            )
        }),
{
    reveal_with_fuel(rows_mark, 2);
    reveal_with_fuel(column_mark, 2);
}

/// What the scan does on entering a column, spelled out.
pub proof fn lemma_column_step(e: Eye, x: int, top: Ratio, bottom: Ratio, c: (int, int))
    ensures
        column_mark(e, x, top, bottom, c) == (1 <= x < reach() && rows_mark(
            e,
            x,
            top_row(e, x, top),
            bottom_row(e, x, bottom),
            top_row(e, x, top),
            None,
            top,
            bottom,
            c,
        )),
{
    reveal_with_fuel(column_mark, 1);
}

/// A scan that starts in column `x` marks nothing nearer than column `x`.
pub proof fn lemma_marks_lie_outward(e: Eye, x: int, top: Ratio, bottom: Ratio, c: (int, int))
    requires
        column_mark(e, x, top, bottom, c),
    ensures
        c.0 >= x,
    decreases reach() - x, 1int, 0int,
{
    lemma_column_step(e, x, top, bottom, c);
    lemma_rows_mark_outward(
        e,
        x,
        top_row(e, x, top),
        bottom_row(e, x, bottom),
        top_row(e, x, top),
        None,
        top,
        bottom,
        c,
    );
}

/// The walk down column `x` marks nothing nearer than column `x`.
pub proof fn lemma_rows_mark_outward(
    e: Eye,
    x: int,
    top_y: int,
    bottom_y: int,
    y: int,
    was_opaque: Option<bool>,
    top: Ratio,
    bottom: Ratio,
    c: (int, int),
)
    requires
        rows_mark(e, x, top_y, bottom_y, y, was_opaque, top, bottom, c),
    ensures
        c.0 >= x,
    decreases reach() - x, 0int, y - bottom_y + 1,
{
    reveal_with_fuel(rows_mark, 2);
    reveal_with_fuel(column_mark, 2);
    if y < bottom_y {
        lemma_marks_lie_outward(e, x + 1, top, bottom, c);
    } else if blocks(e, x, y) {
        if column_mark(e, x + 1, top, upper_edge(e, x, y), c) {
            lemma_marks_lie_outward(e, x + 1, top, upper_edge(e, x, y), c);
        } else if rows_mark(e, x, top_y, bottom_y, y - 1, Some(true), top, bottom, c) {
            lemma_rows_mark_outward(e, x, top_y, bottom_y, y - 1, Some(true), top, bottom, c);
        }
    } else if was_opaque == Some(true) {
        let edge = lower_edge(e, x, y);
        if rows_mark(e, x, top_y, bottom_y, y - 1, Some(false), edge, bottom, c) {
            lemma_rows_mark_outward(e, x, top_y, bottom_y, y - 1, Some(false), edge, bottom, c);
        }
    } else {
        if rows_mark(e, x, top_y, bottom_y, y - 1, Some(false), top, bottom, c) {
            lemma_rows_mark_outward(e, x, top_y, bottom_y, y - 1, Some(false), top, bottom, c);
        }
    }
}

/// Whether the observer at `origin` sees `p` through the given octant,
/// however far away it is.
pub open spec fn octant_sees(open: Set<Vector>, origin: Vector, octant: int, p: Vector) -> bool {
    column_mark(
        Eye { open, origin, octant },
        1,
        Ratio { num: 1, den: 1 },
        Ratio { num: 0, den: 1 },
        local_of(origin, octant, p),
    )
}

/// Whether the observer sees `p` through one of the first `count` octants.
pub open spec fn octants_see(open: Set<Vector>, origin: Vector, count: int, p: Vector) -> bool
    decreases count,
{
    if count <= 0 {
        false
    } else {
        octants_see(open, origin, count - 1, p) || octant_sees(open, origin, count - 1, p)
    }
}

/// Whether `p` is near enough to `origin` for a range limit. A negative
/// limit is no limit.
pub open spec fn within_range(origin: Vector, p: Vector, range_limit: int) -> bool {
    range_limit < 0 || origin.spec_in_range(p, range_limit)
}

/// Whether an observer at `origin`, over the open cells `open` and with
/// unlimited range, sees `p`: its own cell always, and what the scans of
/// the eight octants mark.
pub open spec fn sees(open: Set<Vector>, origin: Vector, p: Vector) -> bool {
    p == origin || octants_see(open, origin, 8, p)
}

/// Whether an observer with a range limit sees `p`: its own cell always,
/// and of the rest what it would see with unlimited range and is strictly
/// nearer than the limit.
pub open spec fn sees_within(open: Set<Vector>, origin: Vector, range_limit: int, p: Vector) -> bool {
    p == origin || (within_range(origin, p, range_limit) && octants_see(open, origin, 8, p))
}

} // verus!
