//! Field of view by recursive shadow casting over exact slopes.
//!
//! An observer's surroundings are cut into eight octants. Each octant is
//! scanned column by column, outward from the observer, keeping the wedge
//! of directions that is still open between a top and a bottom slope. A
//! wall inside the wedge splits it: the part above the wall goes on by
//! itself, the part below goes on with a lower top. What the scan marks
//! is stated in [`sight`], and proved of the code here.

use vstd::prelude::*;
use crate::fov::sight::{
    blocks, bottom_row, cell_pos, column_mark, is_position, lemma_cell_of_position,
    lemma_column_step, lemma_local_distance, lemma_marks_lie_outward, lemma_rows_in_octant,
    lemma_rows_step, lit, local_of, lower_edge, octant_offset, octant_sees, octants_see, position,
    reach, rows_mark, sees_within, top_row, upper_edge, wedge_side, within_range, Eye,
};
use crate::slope::Slope;
use crate::vector::{lemma_product_bounds, Vector};

pub mod laws;
pub mod sight;

verus! {

/// What the scan needs of a map: where it ends, where light passes, and a
/// way to mark a cell. The scan works on anything that offers these three.
///
/// The three `spec_` functions say what an area is to the scan, and the
/// three methods answer to them. `revealed_from` is for whatever else an
/// implementor wants to state of an area and the same area after some of
/// its cells were marked visible; it has to hold between an area and
/// itself, and to carry over a chain of such marks, which is what the two
/// proof functions ask. An implementation that is not verified gives these
/// six any body: they are never run.
pub trait Area: Sized {
    spec fn spec_in_bounds(&self, pos: Vector) -> bool;

    spec fn spec_transparent(&self, pos: Vector) -> bool;

    spec fn spec_visible(&self, pos: Vector) -> bool;

    spec fn revealed_from(&self, before: &Self) -> bool;

    proof fn revealed_from_itself(&self)
        ensures
            self.revealed_from(self),
    ;

    proof fn revealed_from_earlier(&self, between: &Self, before: &Self)
        requires
            self.revealed_from(between),
            between.revealed_from(before),
        ensures
            self.revealed_from(before),
    ;

    /// Whether light passes through the cell at `pos`.
    fn transparent(&self, pos: Vector) -> (clear: bool)
        ensures
            clear == self.spec_transparent(pos),
    ;

    /// Whether `pos` lies inside the area.
    fn in_bounds(&self, pos: Vector) -> (inside: bool)
        ensures
            inside == self.spec_in_bounds(pos),
    ;

    /// Marks the cell at `pos` as visible or not. Nothing else changes, and
    /// a position outside the area changes nothing at all.
    fn set_visibility(&mut self, pos: Vector, visibility: bool)
        ensures
            forall|p: Vector| #[trigger]
                final(self).spec_in_bounds(p) == old(self).spec_in_bounds(p),
            forall|p: Vector| #[trigger]
                final(self).spec_transparent(p) == old(self).spec_transparent(p),
            forall|p: Vector| #[trigger]
                final(self).spec_visible(p) == (if p == pos && old(self).spec_in_bounds(pos) {
                    visibility
                } else {
                    old(self).spec_visible(p)
                }),
            visibility ==> final(self).revealed_from(old(self)),
    ;
}

/// The cells of an area that let light through. All others stop it: the
/// opaque ones, and every position outside the area.
pub open spec fn open_cells<A: Area>(area: &A) -> Set<Vector> {
    Set::new(|p: Vector| area.spec_in_bounds(p) && area.spec_transparent(p))
}

/// Two areas that the scan cannot tell apart: the same bounds and the same
/// open cells.
pub open spec fn same_terrain<A: Area>(area: &A, other: &A) -> bool {
    &&& forall|p: Vector| #[trigger] area.spec_in_bounds(p) == other.spec_in_bounds(p)
    &&& forall|p: Vector| #[trigger] area.spec_transparent(p) == other.spec_transparent(p)
}

/// Areas with the same terrain have the same open cells.
pub proof fn lemma_same_terrain_same_open<A: Area>(area: &A, other: &A)
    requires
        same_terrain(area, other),
    ensures
        open_cells(area) == open_cells(other),
{
    assert(open_cells(area) =~= open_cells(other));
}

/// The displacement that `octant` gives to the cell in column `row`, `col`
/// cells off the axis. Octants are numbered clockwise from north-north-east
/// with `y` growing downward.
pub fn transform_octant(row: i32, col: i32, octant: usize) -> (v: Vector)
    requires
        octant < 8,
        i32::MIN < row,
        i32::MIN < col,
    ensures
        (v.x as int, v.y as int) == octant_offset(octant as int, row as int, col as int),
{
    let d = offset_in(octant, row as i64, col as i64);
    Vector::new(d.0 as i32, d.1 as i32)
}

/// [`transform_octant`] over distances too long for a `Vector`.
fn offset_in(octant: usize, row: i64, col: i64) -> (d: (i64, i64))
    requires
        octant < 8,
        i64::MIN < row,
        i64::MIN < col,
    ensures
        (d.0 as int, d.1 as int) == octant_offset(octant as int, row as int, col as int),
{
    if octant == 0 {
        (col, -row)
    } else if octant == 1 {
        (row, -col)
    } else if octant == 2 {
        (row, col)
    } else if octant == 3 {
        (col, row)
    } else if octant == 4 {
        (-col, row)
    } else if octant == 5 {
        (-row, col)
    } else if octant == 6 {
        (-row, -col)
    } else {
        (-col, -row)
    }
}

/// The position of the cell `(x, y)` of an octant, if the plane has one
/// there.
fn cell_at(origin: Vector, octant: usize, x: i64, y: i64) -> (p: Option<Vector>)
    requires
        octant < 8,
        -0x4_0000_0000 <= x <= 0x4_0000_0000,
        -0x4_0000_0000 <= y <= 0x4_0000_0000,
    ensures
        p == (if is_position(cell_pos(origin, octant as int, x as int, y as int)) {
            Some(position(cell_pos(origin, octant as int, x as int, y as int)))
        } else {
            None
        }),
{
    let d = offset_in(octant, x, y);
    let px: i64 = origin.x as i64 + d.0;
    let py: i64 = origin.y as i64 + d.1;
    if px < i32::MIN as i64 || px > i32::MAX as i64 || py < i32::MIN as i64 || py > i32::MAX as i64
    {
        None
    } else {
        Some(Vector::new(px as i32, py as i32))
    }
}

/// Whether the cell `(x, y)` of an octant stops light. A cell outside the
/// area does, and so does one that the plane has no position for.
fn blocks_light<A: Area>(area: &A, origin: Vector, octant: usize, x: i64, y: i64) -> (opaque: bool)
    requires
        octant < 8,
        -0x4_0000_0000 <= x <= 0x4_0000_0000,
        -0x4_0000_0000 <= y <= 0x4_0000_0000,
    ensures
        opaque == blocks(
            Eye { open: open_cells(area), origin, octant: octant as int },
            x as int,
            y as int,
        ),
{
    match cell_at(origin, octant, x, y) {
        Some(p) => !(area.in_bounds(p) && area.transparent(p)),
        None => true,
    }
}

/// The eye that looks from `origin` into `octant` over an area.
pub open spec fn eye_of<A: Area>(area: &A, origin: Vector, octant: int) -> Eye {
    Eye { open: open_cells(area), origin, octant }
}

/// Whether a mark on `p` would show: `p` lies inside the area and within
/// the range limit.
pub open spec fn shows<A: Area>(area: &A, origin: Vector, range_limit: int, p: Vector) -> bool {
    area.spec_in_bounds(p) && within_range(origin, p, range_limit)
}

/// No column from here on holds a cell.
pub const REACH: i64 = 0x1_0000_0000;

/// Whether a cell of an octant lies strictly nearer to its corner than the
/// range limit. A negative limit is no limit.
fn near_enough(x: i64, y: i64, range_limit: i32) -> (near: bool)
    requires
        0 <= x <= 0x1_0000_0000,
        0 <= y <= 0x1_0000_0000,
    ensures
        near == (range_limit < 0 || x * x + y * y < range_limit * range_limit),
{
    if range_limit < 0 {
        true
    } else {
        proof {
            lemma_product_bounds(x as int, x as int, 0x1_0000_0000);
            lemma_product_bounds(y as int, y as int, 0x1_0000_0000);
            lemma_product_bounds(range_limit as int, range_limit as int, 0x1_0000_0000);
        }
        let limit: i128 = range_limit as i128;
        (x as i128) * (x as i128) + (y as i128) * (y as i128) < limit * limit
    }
}

/// Marks the cell `(x, y)` of an octant as visible, if the area has it.
fn mark_cell<A: Area>(area: &mut A, range_limit: i32, origin: Vector, octant: usize, x: i64, y: i64)
    requires
        octant < 8,
        0 <= x <= 0x1_0000_0000,
        0 <= y <= 0x1_0000_0000,
    ensures
        same_terrain(final(area), old(area)),
        final(area).revealed_from(old(area)),
        forall|p: Vector| #[trigger]
            final(area).spec_visible(p) == (old(area).spec_visible(p) || (shows(
                old(area),
                origin,
                range_limit as int,
                p,
            ) && local_of(origin, octant as int, p) == (x as int, y as int))),
{
    let near = near_enough(x, y, range_limit);
    proof {
        area.revealed_from_itself();
        assert forall|p: Vector|
            local_of(origin, octant as int, p) == (x as int, y as int) implies within_range(
            origin,
            p,
            range_limit as int,
        ) == near by {
            lemma_local_distance(origin, octant as int, p);
        }
        assert forall|p: Vector|
            local_of(origin, octant as int, p) == (x as int, y as int) <==> (is_position(
                cell_pos(origin, octant as int, x as int, y as int),
            ) && p == position(cell_pos(origin, octant as int, x as int, y as int))) by {
            lemma_cell_of_position(origin, octant as int, x as int, y as int, p);
        }
    }
    if near {
        match cell_at(origin, octant, x, y) {
            Some(pos) => {
                if area.in_bounds(pos) {
                    area.set_visibility(pos, true);
                }
            },
            None => {},
        }
    }
}

/// The shape of every step of the scan: what is visible by now, together
/// with what is still to be marked, is what was visible at first together
/// with all that the scan is to mark.
pub open spec fn on_course(
    visible: bool,
    showing: bool,
    pending: bool,
    visible_at_first: bool,
    goal: bool,
) -> bool {
    (visible || (showing && pending)) == (visible_at_first || (showing && goal))
}

/// Walks one column of a wedge from its top row down to its bottom row,
/// marks what is lit, and hands every part of the wedge that a wall cuts
/// off above itself to a scan of its own. Returns the wedge that is left
/// for the next column, if any is.
fn scan_column<A: Area>(
    area: &mut A,
    range_limit: i32,
    origin: Vector,
    octant: usize,
    x: i64,
    top0: Slope,
    bottom: Slope,
) -> (next: Option<(Slope, Slope)>)
    requires
        octant < 8,
        1 <= x < reach(),
        wedge_side(top0@),
        wedge_side(bottom@),
    ensures
        same_terrain(final(area), old(area)),
        final(area).revealed_from(old(area)),
        next matches Some(wedge) ==> wedge_side(wedge.0@) && wedge_side(wedge.1@),
        forall|p: Vector|
            on_course(
                #[trigger] final(area).spec_visible(p),
                shows(old(area), origin, range_limit as int, p),
                next matches Some(wedge) && column_mark(
                    eye_of(old(area), origin, octant as int),
                    x + 1,
                    wedge.0@,
                    wedge.1@,
                    local_of(origin, octant as int, p),
                ),
                old(area).spec_visible(p),
                column_mark(
                    eye_of(old(area), origin, octant as int),
                    x as int,
                    top0@,
                    bottom@,
                    local_of(origin, octant as int, p),
                ),
            ),
    decreases reach() - x, 1int,
{
    let ghost e = eye_of(old(area), origin, octant as int);
    let ghost start = *area;
    proof {
        lemma_rows_in_octant(e, x as int, top0@);
        lemma_rows_in_octant(e, x as int, bottom@);
        area.revealed_from_itself();
    }
    let mut top_y = top0.row_at(x);
    if blocks_light(area, origin, octant, x, top_y) {
        if top0.greater_or_equal(top_y * 2 + 1, x * 2) && !blocks_light(
            area,
            origin,
            octant,
            x,
            top_y + 1,
        ) {
            top_y += 1;
        }
    } else {
        let ax = if blocks_light(area, origin, octant, x + 1, top_y + 1) {
            x * 2 + 1
        } else {
            x * 2
        };
        if top0.greater(top_y * 2 + 1, ax) {
            top_y += 1;
        }
    }
    let mut bottom_y = bottom.row_at(x);
    if bottom.greater_or_equal(bottom_y * 2 + 1, x * 2) && blocks_light(
        area,
        origin,
        octant,
        x,
        bottom_y,
    ) && !blocks_light(area, origin, octant, x, bottom_y + 1) {
        bottom_y += 1;
    }
    assert(top_y == top_row(e, x as int, top0@));
    assert(bottom_y == bottom_row(e, x as int, bottom@));
    assert forall|p: Vector|
        on_course(
            #[trigger] area.spec_visible(p),
            shows(&start, origin, range_limit as int, p),
            rows_mark(
                e,
                x as int,
                top_y as int,
                bottom_y as int,
                top_y as int,
                None,
                top0@,
                bottom@,
                local_of(origin, octant as int, p),
            ),
            start.spec_visible(p),
            column_mark(e, x as int, top0@, bottom@, local_of(origin, octant as int, p)),
        ) by {
        lemma_column_step(e, x as int, top0@, bottom@, local_of(origin, octant as int, p));
    }

    let mut top = top0;
    let mut was_opaque: Option<bool> = None;
    let mut y = top_y;
    while y >= bottom_y
        invariant
            octant < 8,
            1 <= x < reach(),
            0 <= bottom_y <= x,
            0 <= top_y <= x,
            y <= top_y,
            was_opaque is Some ==> y < top_y,
            start == *old(area),
            wedge_side(top@),
            wedge_side(bottom@),
            e == eye_of(&start, origin, octant as int),
            same_terrain(area, &start),
            area.revealed_from(&start),
            forall|p: Vector|
                on_course(
                    #[trigger] area.spec_visible(p),
                    shows(&start, origin, range_limit as int, p),
                    rows_mark(
                        e,
                        x as int,
                        top_y as int,
                        bottom_y as int,
                        y as int,
                        was_opaque,
                        top@,
                        bottom@,
                        local_of(origin, octant as int, p),
                    ),
                    start.spec_visible(p),
                    column_mark(e, x as int, top0@, bottom@, local_of(origin, octant as int, p)),
                ),
        decreases y - bottom_y + 1,
    {
        let ghost was_before = was_opaque;
        let ghost top_before = top@;
        proof {
            lemma_same_terrain_same_open(area, &start);
        }
        let opaque = blocks_light(area, origin, octant, x, y);
        let is_lit = opaque || ((y != top_y || top.greater(y * 4 - 1, x * 4 + 1)) && (y
            != bottom_y || bottom.less(y * 4 + 1, x * 4 - 1)));
        assert(is_lit == lit(e, x as int, y as int, top_y as int, bottom_y as int, top@, bottom@));
        let ghost before = *area;
        if is_lit {
            mark_cell(area, range_limit, origin, octant, x, y);
            proof {
                area.revealed_from_earlier(&before, &start);
            }
        }
        let ghost marked = *area;
        let ghost mut split = false;
        proof {
            lemma_same_terrain_same_open(area, &start);
            // What this row leaves to do, once its own cell is marked.
            assert forall|p: Vector|
                on_course(
                    #[trigger] marked.spec_visible(p),
                    shows(&start, origin, range_limit as int, p),
                    rows_mark(
                        e,
                        x as int,
                        top_y as int,
                        bottom_y as int,
                        y as int,
                        was_before,
                        top_before,
                        bottom@,
                        local_of(origin, octant as int, p),
                    ) && !(local_of(origin, octant as int, p) == (x as int, y as int) && is_lit),
                    start.spec_visible(p),
                    column_mark(e, x as int, top0@, bottom@, local_of(origin, octant as int, p)),
                ) by {
                let c = local_of(origin, octant as int, p);
                lemma_rows_step(
                    e,
                    x as int,
                    top_y as int,
                    bottom_y as int,
                    y as int,
                    was_before,
                    top_before,
                    bottom@,
                    c,
                );
                let r = rows_mark(
                    e,
                    x as int,
                    top_y as int,
                    bottom_y as int,
                    y as int,
                    was_before,
                    top_before,
                    bottom@,
                    c,
                );
                assert(on_course(
                    before.spec_visible(p),
                    shows(&start, origin, range_limit as int, p),
                    r,
                    start.spec_visible(p),
                    column_mark(e, x as int, top0@, bottom@, c),
                ));
                assert(shows(&before, origin, range_limit as int, p) == shows(
                    &start,
                    origin,
                    range_limit as int,
                    p,
                ));
                if is_lit {
                    assert(marked.spec_visible(p) == (before.spec_visible(p) || (shows(
                        &before,
                        origin,
                        range_limit as int,
                        p,
                    ) && c == (x as int, y as int))));
                    assert(c == (x as int, y as int) ==> r);
                } else {
                    assert(marked == before);
                }
            }
        }
        if opaque {
            if was_opaque == Some(false) {
                let ny = y * 2 + 1;
                let nx = if blocks_light(area, origin, octant, x, y + 1) {
                    x * 2 - 1
                } else {
                    x * 2
                };
                assert(upper_edge(e, x as int, y as int).num == ny);
                assert(upper_edge(e, x as int, y as int).den == nx);
                if top.greater(ny, nx) {
                    let edge = Slope::new(ny, nx);
                    if y == bottom_y {
                        // The wall closes the wedge from below: what passes
                        // over it is all that goes on.
                        proof {
                            assert forall|p: Vector|
                                on_course(
                                    #[trigger] area.spec_visible(p),
                                    shows(&start, origin, range_limit as int, p),
                                    column_mark(
                                        e,
                                        x + 1,
                                        top@,
                                        edge@,
                                        local_of(origin, octant as int, p),
                                    ),
                                    start.spec_visible(p),
                                    column_mark(
                                        e,
                                        x as int,
                                        top0@,
                                        bottom@,
                                        local_of(origin, octant as int, p),
                                    ),
                                ) by {
                                let c = local_of(origin, octant as int, p);
                                lemma_rows_step(
                                    e,
                                    x as int,
                                    top_y as int,
                                    bottom_y as int,
                                    y as int,
                                    was_before,
                                    top_before,
                                    bottom@,
                                    c,
                                );
                                lemma_rows_step(
                                    e,
                                    x as int,
                                    top_y as int,
                                    bottom_y as int,
                                    y - 1,
                                    Some(true),
                                    top_before,
                                    bottom@,
                                    c,
                                );
                            }
                        }
                        return Some((top, edge));
                    }
                    scan(area, range_limit, origin, octant, x + 1, top, edge);
                    proof {
                        area.revealed_from_earlier(&marked, &start);
                        split = true;
                    }
                }
            }
            was_opaque = Some(true);
        } else {
            if was_opaque == Some(true) {
                let ny = y * 2 + 1;
                let nx = if blocks_light(area, origin, octant, x + 1, y + 1) {
                    x * 2 + 1
                } else {
                    x * 2
                };
                assert(lower_edge(e, x as int, y as int).num == ny);
                assert(lower_edge(e, x as int, y as int).den == nx);
                if bottom.greater_or_equal(ny, nx) {
                    // Nothing is left between the wall above and the
                    // bottom of the wedge.
                    proof {
                        assert forall|p: Vector|
                            on_course(
                                #[trigger] area.spec_visible(p),
                                shows(&start, origin, range_limit as int, p),
                                false,
                                start.spec_visible(p),
                                column_mark(
                                    e,
                                    x as int,
                                    top0@,
                                    bottom@,
                                    local_of(origin, octant as int, p),
                                ),
                            ) by {
                            lemma_rows_step(
                                e,
                                x as int,
                                top_y as int,
                                bottom_y as int,
                                y as int,
                                was_before,
                                top_before,
                                bottom@,
                                local_of(origin, octant as int, p),
                            );
                        }
                    }
                    return None;
                }
                top = Slope::new(ny, nx);
            }
            was_opaque = Some(false);
        }
        proof {
            lemma_same_terrain_same_open(area, &start);
            assert forall|p: Vector|
                on_course(
                    #[trigger] area.spec_visible(p),
                    shows(&start, origin, range_limit as int, p),
                    rows_mark(
                        e,
                        x as int,
                        top_y as int,
                        bottom_y as int,
                        y - 1,
                        was_opaque,
                        top@,
                        bottom@,
                        local_of(origin, octant as int, p),
                    ),
                    start.spec_visible(p),
                    column_mark(e, x as int, top0@, bottom@, local_of(origin, octant as int, p)),
                ) by {
                let c = local_of(origin, octant as int, p);
                lemma_rows_step(
                    e,
                    x as int,
                    top_y as int,
                    bottom_y as int,
                    y as int,
                    was_before,
                    top_before,
                    bottom@,
                    c,
                );
                let r = rows_mark(
                    e,
                    x as int,
                    top_y as int,
                    bottom_y as int,
                    y as int,
                    was_before,
                    top_before,
                    bottom@,
                    c,
                );
                assert(on_course(
                    marked.spec_visible(p),
                    shows(&start, origin, range_limit as int, p),
                    r && !(c == (x as int, y as int) && is_lit),
                    start.spec_visible(p),
                    column_mark(e, x as int, top0@, bottom@, c),
                ));
                assert(shows(&marked, origin, range_limit as int, p) == shows(
                    &start,
                    origin,
                    range_limit as int,
                    p,
                ));
                if split {
                    assert(area.spec_visible(p) == (marked.spec_visible(p) || (shows(
                        &marked,
                        origin,
                        range_limit as int,
                        p,
                    ) && column_mark(e, x + 1, top_before, upper_edge(e, x as int, y as int), c))));
                } else {
                    assert(*area == marked);
                }
            }
        }
        y -= 1;
    }
    proof {
        assert forall|p: Vector|
            on_course(
                #[trigger] area.spec_visible(p),
                shows(&start, origin, range_limit as int, p),
                was_opaque == Some(false) && column_mark(
                    e,
                    x + 1,
                    top@,
                    bottom@,
                    local_of(origin, octant as int, p),
                ),
                start.spec_visible(p),
                column_mark(e, x as int, top0@, bottom@, local_of(origin, octant as int, p)),
            ) by {
            lemma_rows_step(
                e,
                x as int,
                top_y as int,
                bottom_y as int,
                y as int,
                was_opaque,
                top@,
                bottom@,
                local_of(origin, octant as int, p),
            );
        }
    }
    if was_opaque == Some(false) {
        Some((top, bottom))
    } else {
        None
    }
}

/// Scans a wedge from column `start` outward for as long as any of it is
/// left, within the range limit.
fn scan<A: Area>(
    area: &mut A,
    range_limit: i32,
    origin: Vector,
    octant: usize,
    start: i64,
    top0: Slope,
    bottom0: Slope,
)
    requires
        octant < 8,
        1 <= start <= reach(),
        wedge_side(top0@),
        wedge_side(bottom0@),
    ensures
        same_terrain(final(area), old(area)),
        final(area).revealed_from(old(area)),
        forall|p: Vector| #[trigger]
            final(area).spec_visible(p) == (old(area).spec_visible(p) || (shows(
                old(area),
                origin,
                range_limit as int,
                p,
            ) && column_mark(
                eye_of(old(area), origin, octant as int),
                start as int,
                top0@,
                bottom0@,
                local_of(origin, octant as int, p),
            ))),
    decreases reach() - start, 2int,
{
    let ghost e = eye_of(old(area), origin, octant as int);
    let ghost first = *area;
    proof {
        area.revealed_from_itself();
    }
    let mut x = start;
    let mut top = top0;
    let mut bottom = bottom0;
    while x < REACH && (range_limit < 0 || x < range_limit as i64)
        invariant
            octant < 8,
            1 <= start <= x <= reach(),
            first == *old(area),
            wedge_side(top@),
            wedge_side(bottom@),
            e == eye_of(&first, origin, octant as int),
            same_terrain(area, &first),
            area.revealed_from(&first),
            forall|p: Vector|
                on_course(
                    #[trigger] area.spec_visible(p),
                    shows(&first, origin, range_limit as int, p),
                    column_mark(e, x as int, top@, bottom@, local_of(origin, octant as int, p)),
                    first.spec_visible(p),
                    column_mark(
                        e,
                        start as int,
                        top0@,
                        bottom0@,
                        local_of(origin, octant as int, p),
                    ),
                ),
        decreases reach() - x,
    {
        let ghost before = *area;
        proof {
            lemma_same_terrain_same_open(area, &first);
        }
        match scan_column(area, range_limit, origin, octant, x, top, bottom) {
            Some(wedge) => {
                top = wedge.0;
                bottom = wedge.1;
                x += 1;
                proof {
                    area.revealed_from_earlier(&before, &first);
                }
            },
            None => {
                proof {
                    area.revealed_from_earlier(&before, &first);
                }
                return ;
            },
        }
    }
    proof {
        assert forall|p: Vector|
            !(shows(&first, origin, range_limit as int, p) && #[trigger] column_mark(
                e,
                x as int,
                top@,
                bottom@,
                local_of(origin, octant as int, p),
            )) by {
            let c = local_of(origin, octant as int, p);
            if column_mark(e, x as int, top@, bottom@, c) {
                lemma_marks_lie_outward(e, x as int, top@, bottom@, c);
                lemma_local_distance(origin, octant as int, p);
                assert(c.0 * c.0 + c.1 * c.1 >= range_limit * range_limit) by (nonlinear_arith)
                    requires
                        c.0 >= x,
                        x >= range_limit,
                        range_limit >= 0,
                ;
            }
        }
    }
}

/// Marks what an observer at `origin` sees through one octant.
pub fn refresh_octant<A: Area>(area: &mut A, range_limit: i32, origin: Vector, octant: usize)
    requires
        octant < 8,
    ensures
        same_terrain(final(area), old(area)),
        final(area).revealed_from(old(area)),
        forall|p: Vector| #[trigger]
            final(area).spec_visible(p) == (old(area).spec_visible(p) || (shows(
                old(area),
                origin,
                range_limit as int,
                p,
            ) && octant_sees(open_cells(old(area)), origin, octant as int, p))),
{
    scan(area, range_limit, origin, octant, 1, Slope::new(1, 1), Slope::new(0, 1));
}

/// Marks everything that an observer at `origin` sees as visible.
///
/// The observer's own cell is marked whatever it is. Of the other cells
/// inside the area, those are marked that the scans of the eight octants
/// reach and that lie strictly nearer than `range_limit`; a negative
/// limit means no limit. Cells that were visible before stay so: to start
/// afresh, hide all cells first. Terrain is read and never changed.
pub fn refresh_visiblity<A: Area>(area: &mut A, range_limit: i32, origin: Vector)
    ensures
        same_terrain(final(area), old(area)),
        final(area).revealed_from(old(area)),
        old(area).spec_in_bounds(origin) ==> final(area).spec_visible(origin),
        forall|p: Vector| #[trigger]
            final(area).spec_visible(p) == (old(area).spec_visible(p) || (old(
                area,
            ).spec_in_bounds(p) && sees_within(
                open_cells(old(area)),
                origin,
                range_limit as int,
                p,
            ))),
{
    let ghost first = *area;
    area.set_visibility(origin, true);
    let mut octant: usize = 0;
    while octant < 8
        invariant
            octant <= 8,
            first == *old(area),
            same_terrain(area, &first),
            area.revealed_from(&first),
            forall|p: Vector| #[trigger]
                area.spec_visible(p) == (first.spec_visible(p) || (first.spec_in_bounds(p) && (p
                    == origin || (within_range(origin, p, range_limit as int) && octants_see(
                    open_cells(&first),
                    origin,
                    octant as int,
                    p,
                ))))),
        decreases 8 - octant,
    {
        let ghost before = *area;
        proof {
            lemma_same_terrain_same_open(area, &first);
        }
        refresh_octant(area, range_limit, origin, octant);
        proof {
            area.revealed_from_earlier(&before, &first);
        }
        octant += 1;
    }
}

} // verus!
