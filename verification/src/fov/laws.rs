//! What holds of sight, whatever the map: laws of the scan, proved from its
//! definition.

use vstd::prelude::*;
use crate::fov::sight::{
    blocks, bottom_row, cell_pos, column_mark, is_position, lemma_column_step,
    lemma_marks_lie_outward, lemma_rows_step, local_of, lower_edge, octant_sees, octants_see,
    position, reach, rows_mark, sees, sees_within, top_row, upper_edge, within_range, Eye,
};
use crate::fov::{lemma_same_terrain_same_open, open_cells, same_terrain, Area};
use crate::slope::{entry_row, Ratio};
use crate::vector::Vector;

verus! {

/// An area in which no cell is visible.
pub open spec fn nothing_visible<A: Area>(area: &A) -> bool {
    forall|p: Vector| !#[trigger] area.spec_visible(p)
}

/// What a look around makes visible: `after` is `before` with everything
/// marked that an observer at `origin` sees within `range_limit`.
pub open spec fn looked_from<A: Area>(
    after: &A,
    before: &A,
    origin: Vector,
    range_limit: int,
) -> bool {
    &&& same_terrain(after, before)
    &&& forall|p: Vector| #[trigger]
        after.spec_visible(p) == (before.spec_visible(p) || (before.spec_in_bounds(p)
            && sees_within(open_cells(before), origin, range_limit, p)))
}

/// An observer sees the cell it stands on, be it a wall, and whatever the
/// range limit.
pub proof fn lemma_origin_is_seen(open: Set<Vector>, origin: Vector, range_limit: int)
    ensures
        sees_within(open, origin, range_limit, origin),
        sees(open, origin, origin),
{
}

/// With no range limit an observer sees what [`sees`] says.
pub proof fn lemma_unlimited_range(open: Set<Vector>, origin: Vector, range_limit: int, p: Vector)
    requires
        range_limit < 0,
    ensures
        sees_within(open, origin, range_limit, p) == sees(open, origin, p),
{
}

/// A range limit only takes away: what is seen within a limit is seen
/// without one.
pub proof fn lemma_limited_sight_is_sight(
    open: Set<Vector>,
    origin: Vector,
    range_limit: int,
    p: Vector,
)
    requires
        sees_within(open, origin, range_limit, p),
    ensures
        sees(open, origin, p),
{
}

/// Sight grows with the range: what is seen within a limit is seen within
/// every wider limit, and with no limit at all.
pub proof fn lemma_wider_range_sees_more(
    open: Set<Vector>,
    origin: Vector,
    narrow: int,
    wide: int,
    p: Vector,
)
    requires
        0 <= narrow <= wide || wide < 0,
        sees_within(open, origin, narrow, p),
    ensures
        sees_within(open, origin, wide, p),
{
    if wide >= 0 && p != origin {
        assert(narrow * narrow <= wide * wide) by (nonlinear_arith)
            requires
                0 <= narrow <= wide,
        ;
    }
}

/// A limit that reaches past a cell is as good as none for that cell.
pub proof fn lemma_far_limit_is_no_limit(
    open: Set<Vector>,
    origin: Vector,
    range_limit: int,
    p: Vector,
)
    requires
        origin.spec_square_distance(p) < range_limit * range_limit,
    ensures
        sees_within(open, origin, range_limit, p) == sees(open, origin, p),
{
}

/// A range limit of zero leaves the observer's own cell and nothing else.
pub proof fn lemma_zero_range_sees_only_origin(open: Set<Vector>, origin: Vector, p: Vector)
    ensures
        sees_within(open, origin, 0, p) == (p == origin),
{
    assert(origin.spec_square_distance(p) >= 0) by (nonlinear_arith)
        requires
            origin.spec_square_distance(p) == (p.x - origin.x) * (p.x - origin.x) + (p.y
                - origin.y) * (p.y - origin.y),
    ;
}

/// Looking twice sees the same: hide everything, look around, hide
/// everything again and look around again from the same place over the
/// same terrain, and exactly the same cells are visible both times.
pub proof fn lemma_second_look_sees_the_same<A: Area>(
    first_hidden: &A,
    first_look: &A,
    second_hidden: &A,
    second_look: &A,
    origin: Vector,
    range_limit: int,
)
    requires
        nothing_visible(first_hidden),
        looked_from(first_look, first_hidden, origin, range_limit),
        same_terrain(second_hidden, first_look),
        nothing_visible(second_hidden),
        looked_from(second_look, second_hidden, origin, range_limit),
    ensures
        forall|p: Vector| #[trigger] second_look.spec_visible(p) == first_look.spec_visible(p),
{
    lemma_same_terrain_same_open(first_look, first_hidden);
    lemma_same_terrain_same_open(second_hidden, first_look);
    assert forall|p: Vector| #[trigger]
        second_look.spec_visible(p) == first_look.spec_visible(p) by {
        assert(!first_hidden.spec_visible(p));
        assert(!second_hidden.spec_visible(p));
        assert(second_hidden.spec_in_bounds(p) == first_look.spec_in_bounds(p));
        assert(first_look.spec_in_bounds(p) == first_hidden.spec_in_bounds(p));
    }
}

/// A boundary that does not point below the axis.
pub open spec fn rising(s: Ratio) -> bool {
    s.num >= 0 && s.den > 0
}

/// A boundary that enters column `x` above the row of the axis.
pub open spec fn clears_axis(s: Ratio, x: int) -> bool {
    rising(s) && (2 * x - 1) * s.num >= s.den
}

/// Where a rising boundary enters a column.
pub proof fn lemma_entry_row_of_rising(s: Ratio, x: int)
    requires
        rising(s),
        1 <= x,
    ensures
        entry_row(s, x) >= 0,
        (entry_row(s, x) >= 1) == ((2 * x - 1) * s.num >= s.den),
        clears_axis(s, x) ==> clears_axis(s, x + 1),
        s.at_least(1, 2 * x) ==> clears_axis(s, x + 1),
{
    let n = (2 * x - 1) * s.num + s.den;
    let d = 2 * s.den;
    assert((2 * x - 1) * s.num >= 0) by (nonlinear_arith)
        requires
            s.num >= 0,
            x >= 1,
    ;
    assert(n / d >= 0 && (n / d >= 1) == (n >= d)) by (nonlinear_arith)
        requires
            n >= 0,
            d > 0,
    ;
    assert((2 * (x + 1) - 1) * s.num >= (2 * x - 1) * s.num) by (nonlinear_arith)
        requires
            s.num >= 0,
    ;
    assert((2 * (x + 1) - 1) * s.num >= s.num * (2 * x)) by (nonlinear_arith)
        requires
            s.num >= 0,
    ;
}

/// The edge over a wall at or above the axis enters the next column above
/// the axis.
pub proof fn lemma_upper_edge_clears_axis(e: Eye, x: int, y: int)
    requires
        1 <= x,
        0 <= y,
    ensures
        rising(upper_edge(e, x, y)),
        clears_axis(upper_edge(e, x, y), x + 1),
{
    assert((2 * (x + 1) - 1) * (2 * y + 1) >= 2 * x) by (nonlinear_arith)
        requires
            1 <= x,
            0 <= y,
    ;
}

/// Once the bottom of a wedge has risen above the axis, the scan marks no
/// cell on the axis any more.
pub proof fn lemma_axis_stays_dark(e: Eye, x: int, top: Ratio, bottom: Ratio, j: int)
    requires
        1 <= x,
        clears_axis(bottom, x),
    ensures
        !column_mark(e, x, top, bottom, (j, 0int)),
    decreases reach() - x, 1int, 0int,
{
    lemma_column_step(e, x, top, bottom, (j, 0int));
    if x < reach() {
        lemma_entry_row_of_rising(bottom, x);
        lemma_axis_rows_stay_dark(
            e,
            x,
            top_row(e, x, top),
            bottom_row(e, x, bottom),
            top_row(e, x, top),
            None,
            top,
            bottom,
            j,
        );
    }
}

/// The walk down a column whose last row lies above the axis marks no cell
/// on the axis, in this column or further out.
pub proof fn lemma_axis_rows_stay_dark(
    e: Eye,
    x: int,
    top_y: int,
    bottom_y: int,
    y: int,
    was_opaque: Option<bool>,
    top: Ratio,
    bottom: Ratio,
    j: int,
)
    requires
        1 <= x < reach(),
        clears_axis(bottom, x),
        bottom_y >= 1,
    ensures
        !rows_mark(e, x, top_y, bottom_y, y, was_opaque, top, bottom, (j, 0int)),
    decreases reach() - x, 0int, y - bottom_y + 1,
{
    lemma_rows_step(e, x, top_y, bottom_y, y, was_opaque, top, bottom, (j, 0int));
    lemma_entry_row_of_rising(bottom, x);
    if y < bottom_y {
        lemma_axis_stays_dark(e, x + 1, top, bottom, j);
    } else if blocks(e, x, y) {
        lemma_upper_edge_clears_axis(e, x, y);
        lemma_axis_stays_dark(e, x + 1, top, upper_edge(e, x, y), j);
        lemma_axis_rows_stay_dark(e, x, top_y, bottom_y, y - 1, Some(true), top, bottom, j);
    } else if was_opaque == Some(true) {
        lemma_axis_rows_stay_dark(
            e,
            x,
            top_y,
            bottom_y,
            y - 1,
            Some(false),
            lower_edge(e, x, y),
            bottom,
            j,
        );
    } else {
        lemma_axis_rows_stay_dark(e, x, top_y, bottom_y, y - 1, Some(false), top, bottom, j);
    }
}

/// A wall on the axis of an octant, in column `k`, hides every cell of the
/// axis beyond it from a scan that starts at or before that column.
pub proof fn lemma_axis_wall_hides(e: Eye, k: int, x: int, top: Ratio, bottom: Ratio, j: int)
    requires
        1 <= x <= k < j,
        blocks(e, k, 0),
        rising(bottom),
    ensures
        !column_mark(e, x, top, bottom, (j, 0int)),
    decreases reach() - x, 1int, 0int,
{
    lemma_column_step(e, x, top, bottom, (j, 0int));
    if x < reach() {
        lemma_axis_wall_hides_rows(
            e,
            k,
            x,
            top_row(e, x, top),
            top_row(e, x, top),
            None,
            top,
            bottom,
            j,
        );
    }
}

/// The walk down a column at or before a wall on the axis marks no cell of
/// the axis beyond the wall.
pub proof fn lemma_axis_wall_hides_rows(
    e: Eye,
    k: int,
    x: int,
    top_y: int,
    y: int,
    was_opaque: Option<bool>,
    top: Ratio,
    bottom: Ratio,
    j: int,
)
    requires
        1 <= x <= k < j,
        x < reach(),
        blocks(e, k, 0),
        rising(bottom),
        was_opaque == Some(false) ==> y + 1 >= bottom_row(e, x, bottom) && !blocks(e, x, y + 1),
    ensures
        !rows_mark(
            e,
            x,
            top_y,
            bottom_row(e, x, bottom),
            y,
            was_opaque,
            top,
            bottom,
            (j, 0int),
        ),
    decreases reach() - x, 0int, y - bottom_row(e, x, bottom) + 1,
{
    let bottom_y = bottom_row(e, x, bottom);
    lemma_rows_step(e, x, top_y, bottom_y, y, was_opaque, top, bottom, (j, 0int));
    lemma_entry_row_of_rising(bottom, x);
    if y < bottom_y {
        if was_opaque == Some(false) {
            if x < k {
                lemma_axis_wall_hides(e, k, x + 1, top, bottom, j);
            } else {
                // The last row walked is open, so it is not the row of the
                // wall: the bottom of the wedge lies above the axis.
                assert(bottom_y >= 1);
                lemma_axis_stays_dark(e, x + 1, top, bottom, j);
            }
        }
    } else if blocks(e, x, y) {
        lemma_upper_edge_clears_axis(e, x, y);
        if x < k {
            lemma_axis_wall_hides(e, k, x + 1, top, upper_edge(e, x, y), j);
        } else {
            lemma_axis_stays_dark(e, x + 1, top, upper_edge(e, x, y), j);
        }
        lemma_axis_wall_hides_rows(e, k, x, top_y, y - 1, Some(true), top, bottom, j);
    } else if was_opaque == Some(true) {
        lemma_axis_wall_hides_rows(
            e,
            k,
            x,
            top_y,
            y - 1,
            Some(false),
            lower_edge(e, x, y),
            bottom,
            j,
        );
    } else {
        lemma_axis_wall_hides_rows(e, k, x, top_y, y - 1, Some(false), top, bottom, j);
    }
}

/// A wedge that lies on the axis: its bottom is the axis itself, and its
/// top points above it.
pub open spec fn on_axis(top: Ratio, bottom: Ratio) -> bool {
    bottom.num == 0 && bottom.den > 0 && top.num > 0 && top.den > 0
}

/// A wedge on the axis reaches down to the row of the axis in every
/// column, and up to it at least.
pub proof fn lemma_axis_wedge_rows(e: Eye, x: int, top: Ratio, bottom: Ratio)
    requires
        1 <= x,
        on_axis(top, bottom),
    ensures
        bottom_row(e, x, bottom) == 0,
        top_row(e, x, top) >= 0,
        forall|y: int, d: int| y >= 0 && d > 0 ==> !#[trigger] bottom.at_least(2 * y + 1, d),
        forall|y: int| y >= 0 ==> #[trigger] top.above(4 * y - 1, 4 * x + 1) || y > 0,
        bottom.below(1, 4 * x - 1),
{
    lemma_entry_row_of_rising(top, x);
    lemma_entry_row_of_rising(bottom, x);
    assert((2 * x - 1) * bottom.num == 0) by (nonlinear_arith)
        requires
            bottom.num == 0,
    ;
    assert(bottom.num * (2 * x) == 0 && bottom.num * (4 * x - 1) == 0) by (nonlinear_arith)
        requires
            bottom.num == 0,
    ;
    assert forall|y: int, d: int| y >= 0 && d > 0 implies !#[trigger] bottom.at_least(
        2 * y + 1,
        d,
    ) by {
        assert(bottom.num * d == 0 && bottom.den * (2 * y + 1) > 0) by (nonlinear_arith)
            requires
                bottom.num == 0,
                bottom.den > 0,
                y >= 0,
        ;
    }
    assert(top.num * (4 * x + 1) > top.den * (4 * 0 - 1)) by (nonlinear_arith)
        requires
            top.num > 0,
            top.den > 0,
            x >= 1,
    ;
}

/// A scan along the axis marks the first cell of the axis that it comes
/// to after open cells only, wall or not.
pub proof fn lemma_axis_is_lit(e: Eye, k: int, x: int, top: Ratio, bottom: Ratio)
    requires
        1 <= x <= k < reach(),
        on_axis(top, bottom),
        forall|j: int| x <= j < k ==> !#[trigger] blocks(e, j, 0),
    ensures
        column_mark(e, x, top, bottom, (k, 0int)),
    decreases k - x, 1int, 0int,
{
    lemma_column_step(e, x, top, bottom, (k, 0int));
    lemma_axis_wedge_rows(e, x, top, bottom);
    lemma_axis_rows_are_lit(
        e,
        k,
        x,
        top_row(e, x, top),
        top_row(e, x, top),
        None,
        top,
        bottom,
    );
}

/// The walk down a column of a wedge on the axis comes to the axis, and
/// marks the first cell of the axis after open cells only.
pub proof fn lemma_axis_rows_are_lit(
    e: Eye,
    k: int,
    x: int,
    top_y: int,
    y: int,
    was_opaque: Option<bool>,
    top: Ratio,
    bottom: Ratio,
)
    requires
        1 <= x <= k < reach(),
        on_axis(top, bottom),
        0 <= y,
        forall|j: int| x <= j < k ==> !#[trigger] blocks(e, j, 0),
    ensures
        rows_mark(e, x, top_y, 0, y, was_opaque, top, bottom, (k, 0int)),
    decreases k - x, 0int, y,
{
    lemma_rows_step(e, x, top_y, 0, y, was_opaque, top, bottom, (k, 0int));
    lemma_axis_wedge_rows(e, x, top, bottom);
    let edge = lower_edge(e, x, y);
    assert(!bottom.at_least(2 * y + 1, edge.den));
    if y > 0 {
        if blocks(e, x, y) {
            lemma_axis_rows_are_lit(e, k, x, top_y, y - 1, Some(true), top, bottom);
        } else if was_opaque == Some(true) {
            lemma_axis_rows_are_lit(e, k, x, top_y, y - 1, Some(false), edge, bottom);
        } else {
            lemma_axis_rows_are_lit(e, k, x, top_y, y - 1, Some(false), top, bottom);
        }
    } else if x == k {
        assert(top.above(4 * y - 1, 4 * x + 1));
    } else {
        assert(!blocks(e, x, 0));
        let next_top = if was_opaque == Some(true) {
            edge
        } else {
            top
        };
        lemma_rows_step(e, x, top_y, 0, y - 1, Some(false), next_top, bottom, (k, 0int));
        lemma_axis_is_lit(e, k, x + 1, next_top, bottom);
    }
}

/// The first cell on the diagonal of an octant is always marked.
pub proof fn lemma_diagonal_neighbour_is_lit(e: Eye)
    ensures
        column_mark(e, 1, Ratio { num: 1, den: 1 }, Ratio { num: 0, den: 1 }, (1int, 1int)),
{
    let top = Ratio { num: 1, den: 1 };
    let bottom = Ratio { num: 0, den: 1 };
    lemma_column_step(e, 1, top, bottom, (1int, 1int));
    assert(entry_row(top, 1) == 1) by (nonlinear_arith)
        requires
            top.num == 1,
            top.den == 1,
    ;
    assert(entry_row(bottom, 1) == 0) by (nonlinear_arith)
        requires
            bottom.num == 0,
            bottom.den == 1,
    ;
    assert(top_row(e, 1, top) == 1);
    assert(bottom_row(e, 1, bottom) == 0);
    lemma_rows_step(e, 1, 1, 0, 1, None, top, bottom, (1int, 1int));
}

/// A step of one cell along a row or along a column.
pub open spec fn cardinal(dx: int, dy: int) -> bool {
    (dx == 0 && (dy == 1 || dy == -1)) || (dy == 0 && (dx == 1 || dx == -1))
}

/// The point that lies `steps` steps of `(dx, dy)` from `origin`.
pub open spec fn along(origin: Vector, dx: int, dy: int, steps: int) -> (int, int) {
    (origin.x + steps * dx, origin.y + steps * dy)
}

/// Whether a point of the plane is a cell that lets light through.
pub open spec fn is_open(open: Set<Vector>, at: (int, int)) -> bool {
    is_position(at) && open.contains(position(at))
}

/// The octant whose axis points along a cardinal step.
pub open spec fn octant_along(dx: int, dy: int) -> int {
    if dx == 1 {
        2
    } else if dx == -1 {
        5
    } else if dy == 1 {
        3
    } else {
        0
    }
}

/// Along a row or a column an observer sees as far as the first cell that
/// stops light, that cell included: every cell with nothing but open cells
/// between it and the observer is seen.
pub proof fn lemma_clear_line_is_seen(open: Set<Vector>, origin: Vector, dx: int, dy: int, k: int)
    requires
        cardinal(dx, dy),
        1 <= k,
        is_position(along(origin, dx, dy, k)),
        forall|j: int| 1 <= j < k ==> is_open(open, #[trigger] along(origin, dx, dy, j)),
    ensures
        sees(open, origin, position(along(origin, dx, dy, k))),
{
    let o = octant_along(dx, dy);
    let e = Eye { open, origin, octant: o };
    let p = position(along(origin, dx, dy, k));
    assert forall|j: int| 1 <= j < k implies !#[trigger] blocks(e, j, 0) by {
        assert(is_open(open, along(origin, dx, dy, j)));
        assert(cell_pos(origin, o, j, 0) == along(origin, dx, dy, j));
    }
    assert(local_of(origin, o, p) == (k, 0int));
    lemma_axis_is_lit(e, k, 1, Ratio { num: 1, den: 1 }, Ratio { num: 0, den: 1 });
    assert(octant_sees(open, origin, o, p));
    reveal_with_fuel(octants_see, 9);
}

/// Through no octant does an observer see a cell that lies, along a row
/// or a column, behind a cell that stops light.
proof fn lemma_octant_is_blind_behind_wall(
    open: Set<Vector>,
    origin: Vector,
    dx: int,
    dy: int,
    k: int,
    j: int,
    octant: int,
)
    requires
        cardinal(dx, dy),
        1 <= k < j,
        !is_open(open, along(origin, dx, dy, k)),
        is_position(along(origin, dx, dy, j)),
        0 <= octant < 8,
    ensures
        !octant_sees(open, origin, octant, position(along(origin, dx, dy, j))),
{
    let e = Eye { open, origin, octant };
    let p = position(along(origin, dx, dy, j));
    let c = local_of(origin, octant, p);
    let top = Ratio { num: 1, den: 1 };
    let bottom = Ratio { num: 0, den: 1 };
    if column_mark(e, 1, top, bottom, c) {
        lemma_marks_lie_outward(e, 1, top, bottom, c);
        assert(c == (j, 0int));
        assert(cell_pos(origin, octant, k, 0) == along(origin, dx, dy, k));
        lemma_axis_wall_hides(e, k, 1, top, bottom, j);
    }
}

/// Nothing is seen through a wall: where a cell of the observer's row or
/// column stops light, no cell behind it on that line is seen, however the
/// rest of the map lies.
pub proof fn lemma_wall_hides_the_line_behind(
    open: Set<Vector>,
    origin: Vector,
    dx: int,
    dy: int,
    k: int,
    j: int,
)
    requires
        cardinal(dx, dy),
        1 <= k < j,
        !is_open(open, along(origin, dx, dy, k)),
        is_position(along(origin, dx, dy, j)),
    ensures
        !sees(open, origin, position(along(origin, dx, dy, j))),
{
    lemma_octant_is_blind_behind_wall(open, origin, dx, dy, k, j, 0);
    lemma_octant_is_blind_behind_wall(open, origin, dx, dy, k, j, 1);
    lemma_octant_is_blind_behind_wall(open, origin, dx, dy, k, j, 2);
    lemma_octant_is_blind_behind_wall(open, origin, dx, dy, k, j, 3);
    lemma_octant_is_blind_behind_wall(open, origin, dx, dy, k, j, 4);
    lemma_octant_is_blind_behind_wall(open, origin, dx, dy, k, j, 5);
    lemma_octant_is_blind_behind_wall(open, origin, dx, dy, k, j, 6);
    lemma_octant_is_blind_behind_wall(open, origin, dx, dy, k, j, 7);
    reveal_with_fuel(octants_see, 9);
    assert(j * dx != 0 || j * dy != 0) by (nonlinear_arith)
        requires
            cardinal(dx, dy),
            j > 1,
    ;
}

/// An observer sees all eight cells around it, whatever they are and
/// whatever stands beside them.
pub proof fn lemma_neighbours_are_seen(open: Set<Vector>, origin: Vector, p: Vector)
    requires
        -1 <= p.x - origin.x <= 1,
        -1 <= p.y - origin.y <= 1,
    ensures
        sees(open, origin, p),
{
    let dx = p.x - origin.x;
    let dy = p.y - origin.y;
    if dx != 0 && dy != 0 {
        let o: int = if dx == 1 && dy == 1 {
            2
        } else if dx == 1 {
            1
        } else if dy == 1 {
            5
        } else {
            6
        };
        lemma_diagonal_neighbour_is_lit(Eye { open, origin, octant: o });
        assert(local_of(origin, o, p) == (1int, 1int));
        assert(octant_sees(open, origin, o, p));
        reveal_with_fuel(octants_see, 9);
    } else if dx != 0 || dy != 0 {
        assert(along(origin, dx, dy, 1) == (p.x as int, p.y as int));
        lemma_clear_line_is_seen(open, origin, dx, dy, 1);
    }
}

/// Sight is mutual between neighbours: of two cells that touch, by a side
/// or by a corner, each is seen from the other.
pub proof fn lemma_neighbours_see_each_other(open: Set<Vector>, a: Vector, b: Vector)
    requires
        -1 <= a.x - b.x <= 1,
        -1 <= a.y - b.y <= 1,
    ensures
        sees(open, a, b) == sees(open, b, a),
        sees(open, a, b),
{
    lemma_neighbours_are_seen(open, a, b);
    lemma_neighbours_are_seen(open, b, a);
}

/// Whether every cell strictly between `origin` and the cell `k` steps
/// away lets light through.
pub open spec fn clear_between(open: Set<Vector>, origin: Vector, dx: int, dy: int, k: int) -> bool {
    forall|j: int| 1 <= j < k ==> is_open(open, #[trigger] along(origin, dx, dy, j))
}

/// Along a row or a column sight is exactly a clear line: a cell is seen
/// if and only if every cell between it and the observer lets light
/// through.
pub proof fn lemma_sight_along_a_line(open: Set<Vector>, origin: Vector, dx: int, dy: int, k: int)
    requires
        cardinal(dx, dy),
        1 <= k,
        is_position(along(origin, dx, dy, k)),
    ensures
        sees(open, origin, position(along(origin, dx, dy, k))) == clear_between(
            open,
            origin,
            dx,
            dy,
            k,
        ),
{
    if clear_between(open, origin, dx, dy, k) {
        lemma_clear_line_is_seen(open, origin, dx, dy, k);
    } else {
        let j = choose|j: int| 1 <= j < k && !is_open(open, #[trigger] along(origin, dx, dy, j));
        lemma_wall_hides_the_line_behind(open, origin, dx, dy, j, k);
    }
}

/// Sight along a row or a column is mutual: of two cells on one row or one
/// column, each is seen from the other or neither is.
pub proof fn lemma_sight_along_a_line_is_mutual(open: Set<Vector>, a: Vector, b: Vector)
    requires
        a.x == b.x || a.y == b.y,
    ensures
        sees(open, a, b) == sees(open, b, a),
{
    if a != b {
        let k = if a.x == b.x {
            if b.y > a.y {
                b.y - a.y
            } else {
                a.y - b.y
            }
        } else if b.x > a.x {
            b.x - a.x
        } else {
            a.x - b.x
        };
        let dx: int = if a.x == b.x {
            0
        } else if b.x > a.x {
            1
        } else {
            -1
        };
        let dy: int = if a.x != b.x {
            0
        } else if b.y > a.y {
            1
        } else {
            -1
        };
        assert(k * dx == b.x - a.x && k * dy == b.y - a.y && k * (-dx) == a.x - b.x && k * (-dy)
            == a.y - b.y) by (nonlinear_arith)
            requires
                dx == 0 ==> dy * dy == 1 && k * dy == b.y - a.y && a.x == b.x,
                dx != 0 ==> dy == 0 && dx * dx == 1 && k * dx == b.x - a.x && a.y == b.y,
        ;
        assert(along(a, dx, dy, k) == (b.x as int, b.y as int));
        assert(along(b, -dx, -dy, k) == (a.x as int, a.y as int));
        lemma_sight_along_a_line(open, a, dx, dy, k);
        lemma_sight_along_a_line(open, b, -dx, -dy, k);
        assert forall|j: int| 1 <= j < k implies along(a, dx, dy, j) == along(
            b,
            -dx,
            -dy,
            k - j,
        ) by {
            assert((k - j) * (-dx) == j * dx - k * dx && (k - j) * (-dy) == j * dy - k * dy)
                by (nonlinear_arith);
        }
        if clear_between(open, a, dx, dy, k) {
            assert forall|j: int| 1 <= j < k implies is_open(
                open,
                #[trigger] along(b, -dx, -dy, j),
            ) by {
                assert(along(a, dx, dy, k - j) == along(b, -dx, -dy, k - (k - j)));
                assert(is_open(open, along(a, dx, dy, k - j)));
            }
        }
        if clear_between(open, b, -dx, -dy, k) {
            assert forall|j: int| 1 <= j < k implies is_open(
                open,
                #[trigger] along(a, dx, dy, j),
            ) by {
                assert(is_open(open, along(b, -dx, -dy, k - j)));
            }
        }
    }
}

} // verus!
