//! The tiled grid: its cells and its bounds-checked addressing.

use vstd::prelude::*;
use vstd::string::StrSliceExecFns;
use crate::fov::sight::sees_within;
use crate::fov::{open_cells, Area};
use crate::map::tile::Tile;
use crate::vector::{lemma_product_bounds, Vector};

pub mod automata;
pub mod tile;

verus! {

/// A grid as mathematics sees it: its two sides and its tiles, row after
/// row from the top-left corner.
pub struct GridView {
    pub width: int,
    pub height: int,
    pub tiles: Seq<Tile>,
}

impl GridView {
    /// Both sides are positive and no longer than a position can tell,
    /// there is one tile for each cell, and every tile is coherent.
    pub open spec fn wf(self) -> bool {
        &&& 0 < self.width <= i32::MAX
        &&& 0 < self.height <= i32::MAX
        &&& self.tiles.len() == self.width * self.height
        &&& forall|i: int| 0 <= i < self.tiles.len() ==> (#[trigger] self.tiles[i]).coherent()
    }

    pub open spec fn in_bounds(self, pos: Vector) -> bool {
        0 <= pos.x < self.width && 0 <= pos.y < self.height
    }

    /// Where the tile of `pos` stands among the tiles.
    pub open spec fn index_of(self, pos: Vector) -> int {
        self.width * pos.y + pos.x
    }

    /// The tile at `pos`, for a position inside the grid.
    pub open spec fn tile(self, pos: Vector) -> Tile {
        self.tiles[self.index_of(pos)]
    }

    /// Whether `pos` stops movement and light: walls do, and so does
    /// everything outside the grid.
    pub open spec fn blocked(self, pos: Vector) -> bool {
        !self.in_bounds(pos) || self.tile(pos).blocked
    }

    pub open spec fn visible(self, pos: Vector) -> bool {
        self.in_bounds(pos) && self.tile(pos).visible
    }

    pub open spec fn seen(self, pos: Vector) -> bool {
        self.in_bounds(pos) && self.tile(pos).seen
    }

    /// Whether `pos` lies on the outermost ring of cells.
    pub open spec fn on_border(self, pos: Vector) -> bool {
        self.in_bounds(pos) && (pos.x == 0 || pos.x == self.width - 1 || pos.y == 0 || pos.y
            == self.height - 1)
    }

    /// The cell that the tile at `index` belongs to.
    pub open spec fn pos_of(self, index: int) -> Vector {
        Vector { x: (index % self.width) as i32, y: (index / self.width) as i32 }
    }

    /// The grid with the tile at `pos` shown or hidden; a position outside
    /// the grid changes nothing.
    pub open spec fn marked(self, pos: Vector, visible: bool) -> GridView {
        if self.in_bounds(pos) {
            GridView {
                tiles: self.tiles.update(self.index_of(pos), self.tile(pos).shown(visible)),
                ..self
            }
        } else {
            self
        }
    }

    /// The grid with every tile shown or hidden.
    pub open spec fn all_marked(self, visible: bool) -> GridView {
        GridView {
            tiles: Seq::new(self.tiles.len(), |i: int| self.tiles[i].shown(visible)),
            ..self
        }
    }

    /// The grid with the tile at `pos` recorded as seen.
    pub open spec fn remembering(self, pos: Vector) -> GridView {
        if self.in_bounds(pos) {
            GridView {
                tiles: self.tiles.update(self.index_of(pos), self.tile(pos).remembered()),
                ..self
            }
        } else {
            self
        }
    }

    /// The cells that let light through: the floors inside the grid.
    pub open spec fn open(self) -> Set<Vector> {
        Set::new(|p: Vector| !self.blocked(p))
    }

    /// What marking cells visible makes of a grid: the terrain stays, what
    /// was visible stays visible, and the tiles seen are those seen before
    /// and those that became visible.
    pub open spec fn revealed_from(self, before: GridView) -> bool {
        &&& self.same_terrain(before)
        &&& forall|i: int|
            0 <= i < self.tiles.len() ==> (before.tiles[i].visible ==> (
            #[trigger] self.tiles[i]).visible) && self.tiles[i].seen == (before.tiles[i].seen || (
            self.tiles[i].visible && !before.tiles[i].visible))
    }

    /// The grid after a fresh look around from `origin`: exactly the tiles
    /// in sight are visible, and they count as seen from then on.
    pub open spec fn refreshed(self, origin: Vector, range_limit: int) -> GridView {
        GridView {
            tiles: Seq::new(
                self.tiles.len(),
                |i: int|
                    self.tiles[i].shown(
                        sees_within(self.open(), origin, range_limit, self.pos_of(i)),
                    ),
            ),
            ..self
        }
    }

    /// Two grids with the same terrain: they may differ in what is visible
    /// and what was seen, and in nothing else.
    pub open spec fn same_terrain(self, other: GridView) -> bool {
        &&& self.width == other.width
        &&& self.height == other.height
        &&& self.tiles.len() == other.tiles.len()
        &&& forall|i: int|
            0 <= i < self.tiles.len() ==> (#[trigger] self.tiles[i]).blocked
                == other.tiles[i].blocked && self.tiles[i].tile_type == other.tiles[i].tile_type
    }
}

/// The tile that a map text asks for at `index`: `#` is a wall, any other
/// character a floor, and where the text has ended, a wall.
pub open spec fn tile_from_text(text: Seq<char>, index: int) -> Tile {
    if 0 <= index < text.len() && text[index] != '#' {
        Tile::spec_floor()
    } else {
        Tile::spec_wall()
    }
}

/// Inside a grid, the index of a cell is the index of a tile.
pub proof fn lemma_index_in_range(g: GridView, pos: Vector)
    requires
        0 < g.width,
        0 < g.height,
        g.in_bounds(pos),
    ensures
        0 <= g.index_of(pos) < g.width * g.height,
        g.pos_of(g.index_of(pos)) == pos,
{
    let w = g.width;
    let x = pos.x as int;
    let y = pos.y as int;
    assert(0 <= w * y && w * y + w <= w * g.height) by (nonlinear_arith)
        requires
            0 <= y < g.height,
            0 < w,
    ;
    assert((w * y + x) / w == y && (w * y + x) % w == x) by (nonlinear_arith)
        requires
            0 <= x < w,
    ;
}

/// Every tile belongs to exactly one cell of the grid.
pub proof fn lemma_pos_of_index(g: GridView, index: int)
    requires
        0 < g.width,
        0 < g.height,
        g.width <= i32::MAX,
        g.height <= i32::MAX,
        0 <= index < g.width * g.height,
    ensures
        g.in_bounds(g.pos_of(index)),
        g.index_of(g.pos_of(index)) == index,
{
    let w = g.width;
    assert(0 <= index % w < w && 0 <= index / w < g.height && w * (index / w) + index % w
        == index) by (nonlinear_arith)
        requires
            0 < w,
            0 <= index < w * g.height,
    ;
}

/// Two cells of a grid that share a tile are the same cell.
pub proof fn lemma_index_injective(g: GridView, p: Vector, q: Vector)
    requires
        0 < g.width,
        0 < g.height,
        g.in_bounds(p),
        g.in_bounds(q),
        g.index_of(p) == g.index_of(q),
    ensures
        p == q,
{
    lemma_index_in_range(g, p);
    lemma_index_in_range(g, q);
}

/// Replaces one tile among many.
fn put_tile(tiles: &mut Vec<Tile>, index: usize, tile: Tile)
    requires
        index < old(tiles)@.len(),
    ensures
        final(tiles)@ == old(tiles)@.update(index as int, tile),
    no_unwind
{
    tiles[index] = tile;
}

/// A rectangular map of tiles with its origin at the top-left corner.
///
/// A grid always holds `width * height` coherent tiles: there is no way to
/// build or change one so that it does not.
#[derive(Debug)]
pub struct Grid {
    width: i32,
    height: i32,
    tiles: Vec<Tile>,
}

impl View for Grid {
    type V = GridView;

    closed spec fn view(&self) -> GridView {
        GridView { width: self.width as int, height: self.height as int, tiles: self.tiles@ }
    }
}

impl Clone for Grid {
    fn clone(&self) -> (copy: Grid)
        ensures
            copy@ == self@,
    {
        proof {
            use_type_invariant(self);
        }
        let tiles = self.tiles.clone();
        assert(tiles@ =~= self.tiles@);
        Grid { width: self.width, height: self.height, tiles }
    }
}

impl Grid {
    /// Holds of every grid there is.
    #[verifier::type_invariant]
    pub open spec fn wf(&self) -> bool {
        self@.wf()
    }

    /// A grid of `size.x` by `size.y` tiles laid out as `map_str` says,
    /// one character for each tile, row after row: `#` makes a wall and any
    /// other character a floor. Tiles that the text does not reach are
    /// walls, so an empty text gives solid rock.
    pub fn new(size: Vector, map_str: &str) -> (grid: Grid)
        requires
            0 < size.x,
            0 < size.y,
            size.x * size.y <= usize::MAX,
        ensures
            grid@.wf(),
            grid@.width == size.x,
            grid@.height == size.y,
            forall|i: int|
                0 <= i < size.x * size.y ==> #[trigger] grid@.tiles[i] == tile_from_text(
                    map_str@,
                    i,
                ),
    {
        let width: usize = size.x as usize;
        let height: usize = size.y as usize;
        assert(width * height == size.x * size.y) by (nonlinear_arith)
            requires
                width == size.x,
                height == size.y,
        ;
        let count: usize = width * height;
        let given: usize = map_str.unicode_len();
        let mut tiles: Vec<Tile> = Vec::with_capacity(count);
        let mut index: usize = 0;
        while index < count
            invariant
                index <= count,
                given == map_str@.len(),
                tiles@.len() == index,
                forall|i: int| 0 <= i < index ==> #[trigger] tiles@[i] == tile_from_text(map_str@, i),
            decreases count - index,
        {
            if index < given && map_str.get_char(index) != '#' {
                tiles.push(Tile::floor());
            } else {
                tiles.push(Tile::wall());
            }
            index += 1;
        }
        Grid { width: size.x, height: size.y, tiles }
    }

    pub fn width(&self) -> (w: i32)
        ensures
            w == self@.width,
    {
        self.width
    }

    pub fn height(&self) -> (h: i32)
        ensures
            h == self@.height,
    {
        self.height
    }

    pub fn in_bounds(&self, pos: Vector) -> (inside: bool)
        ensures
            inside == self@.in_bounds(pos),
    {
        !(pos.x < 0 || pos.x >= self.width || pos.y < 0 || pos.y >= self.height)
    }

    /// The index of the tile at `pos`, for a position inside the grid.
    pub fn pos_to_index(&self, pos: Vector) -> (index: usize)
        requires
            self@.in_bounds(pos),
        ensures
            index == self@.index_of(pos),
            index < self@.tiles.len(),
    {
        proof {
            use_type_invariant(self);
            lemma_index_in_range(self@, pos);
            assert(self.tiles.len() == self.tiles@.len());
            lemma_product_bounds(self.width as int, pos.y as int, 0x8000_0000);
        }
        let index: i64 = self.width as i64 * pos.y as i64 + pos.x as i64;
        index as usize
    }

    /// A copy of the tile at `pos`, or `None` outside the grid.
    pub fn get_tile(&self, pos: Vector) -> (tile: Option<Tile>)
        ensures
            tile == (if self@.in_bounds(pos) {
                Some(self@.tile(pos))
            } else {
                None
            }),
    {
        if self.in_bounds(pos) {
            let index = self.pos_to_index(pos);
            Some(self.tiles[index])
        } else {
            None
        }
    }

    /// Whether `pos` is closed to movement: a wall, or outside the grid.
    pub fn is_blocked(&self, pos: Vector) -> (blocked: bool)
        ensures
            blocked == self@.blocked(pos),
    {
        if self.in_bounds(pos) {
            let index = self.pos_to_index(pos);
            self.tiles[index].blocked
        } else {
            true
        }
    }

    /// The tiles, row after row.
    pub fn tiles(&self) -> (tiles: &Vec<Tile>)
        ensures
            tiles@ == self@.tiles,
    {
        &self.tiles
    }

    /// A copy of the tiles, row after row.
    pub fn get_tiles(&self) -> (tiles: Vec<Tile>)
        ensures
            tiles@ == self@.tiles,
    {
        let tiles = self.tiles.clone();
        assert(tiles@ =~= self.tiles@);
        tiles
    }

    /// Shows or hides every tile at once. Terrain stays as it is, and so
    /// does what was seen before; tiles that are shown count as seen from
    /// then on.
    pub fn set_all_visiblity(&mut self, visible: bool)
        ensures
            final(self)@ == old(self)@.all_marked(visible),
    {
        proof {
            use_type_invariant(&*self);
        }
        let count = self.tiles.len();
        let mut index: usize = 0;
        while index < count
            invariant
                index <= count,
                count == self.tiles@.len(),
                self@.wf(),
                self@.width == old(self)@.width,
                self@.height == old(self)@.height,
                self@.tiles.len() == old(self)@.tiles.len(),
                forall|i: int|
                    0 <= i < index ==> #[trigger] self@.tiles[i] == old(self)@.tiles[i].shown(
                        visible,
                    ),
                forall|i: int| index <= i < count ==> #[trigger] self@.tiles[i] == old(self)@.tiles[i],
            decreases count - index,
        {
            let tile = self.tiles[index];
            put_tile(
                &mut self.tiles,
                index,
                Tile {
                visible,
                blocked: tile.blocked,
                seen: tile.seen || visible,
                tile_type: tile.tile_type,
            },
            );
            index += 1;
        }
        assert(self@.tiles =~= old(self)@.all_marked(visible).tiles);
    }

    /// Shows or hides the tile at `pos`; a position outside the grid is
    /// left alone. A tile that is shown counts as seen from then on.
    pub fn set_visibility(&mut self, pos: Vector, visibility: bool)
        ensures
            final(self)@ == old(self)@.marked(pos, visibility),
    {
        proof {
            use_type_invariant(&*self);
        }
        if self.in_bounds(pos) {
            let index = self.pos_to_index(pos);
            let tile = self.tiles[index];
            put_tile(
                &mut self.tiles,
                index,
                Tile {
                visible: visibility,
                blocked: tile.blocked,
                seen: tile.seen || visibility,
                tile_type: tile.tile_type,
            },
            );
        }
    }

    /// Records the tile at `pos` as seen; a position outside the grid is
    /// left alone.
    pub fn remember_tile(&mut self, pos: Vector)
        ensures
            final(self)@ == old(self)@.remembering(pos),
    {
        proof {
            use_type_invariant(&*self);
        }
        if self.in_bounds(pos) {
            let index = self.pos_to_index(pos);
            let tile = self.tiles[index];
            put_tile(
                &mut self.tiles,
                index,
                Tile {
                visible: tile.visible,
                blocked: tile.blocked,
                seen: true,
                tile_type: tile.tile_type,
            },
            );
        }
    }
}

impl Area for Grid {
    open spec fn spec_in_bounds(&self, pos: Vector) -> bool {
        self@.in_bounds(pos)
    }

    open spec fn spec_transparent(&self, pos: Vector) -> bool {
        !self@.blocked(pos)
    }

    open spec fn spec_visible(&self, pos: Vector) -> bool {
        self@.visible(pos)
    }

    open spec fn revealed_from(&self, before: &Self) -> bool {
        self@.revealed_from(before@)
    }

    proof fn revealed_from_itself(&self) {
    }

    proof fn revealed_from_earlier(&self, between: &Self, before: &Self) {
    }

    fn transparent(&self, pos: Vector) -> (clear: bool) {
        !self.is_blocked(pos)
    }

    fn in_bounds(&self, pos: Vector) -> (inside: bool) {
        Grid::in_bounds(self, pos)
    }

    fn set_visibility(&mut self, pos: Vector, visibility: bool) {
        proof {
            use_type_invariant(&*self);
            lemma_mark_touches_one_cell(self@, pos, visibility);
        }
        Grid::set_visibility(self, pos, visibility)
    }
}

/// Marking one cell changes the visibility of that cell and of no other,
/// and leaves the terrain alone.
pub proof fn lemma_mark_touches_one_cell(g: GridView, pos: Vector, visible: bool)
    requires
        g.wf(),
    ensures
        g.marked(pos, visible).wf(),
        g.marked(pos, visible).same_terrain(g),
        visible ==> g.marked(pos, visible).revealed_from(g),
        forall|p: Vector| #[trigger] g.marked(pos, visible).in_bounds(p) == g.in_bounds(p),
        forall|p: Vector| #[trigger] g.marked(pos, visible).blocked(p) == g.blocked(p),
        forall|p: Vector| #[trigger]
            g.marked(pos, visible).visible(p) == (if p == pos && g.in_bounds(pos) {
                visible
            } else {
                g.visible(p)
            }),
        forall|p: Vector| #[trigger]
            g.marked(pos, visible).seen(p) == (g.seen(p) || (p == pos && g.in_bounds(pos)
                && visible)),
{
    let m = g.marked(pos, visible);
    if g.in_bounds(pos) {
        lemma_index_in_range(g, pos);
        assert forall|p: Vector| g.in_bounds(p) && p != pos implies g.index_of(p) != g.index_of(
            pos,
        ) by {
            if g.index_of(p) == g.index_of(pos) {
                lemma_index_injective(g, p, pos);
            }
        }
        assert forall|p: Vector| g.in_bounds(p) implies 0 <= g.index_of(p) < g.tiles.len() by {
            lemma_index_in_range(g, p);
        }
        assert forall|p: Vector| #[trigger] m.blocked(p) == g.blocked(p) by {
            if g.in_bounds(p) {
                lemma_index_in_range(g, p);
            }
        }
        assert forall|p: Vector| #[trigger]
            m.visible(p) == (if p == pos && g.in_bounds(pos) {
                visible
            } else {
                g.visible(p)
            }) by {
            if g.in_bounds(p) {
                lemma_index_in_range(g, p);
            }
        }
        assert forall|p: Vector| #[trigger]
            m.seen(p) == (g.seen(p) || (p == pos && g.in_bounds(pos) && visible)) by {
            if g.in_bounds(p) {
                lemma_index_in_range(g, p);
            }
        }
    }
}

/// The cells of a grid that the scan takes for open are its floors.
pub proof fn lemma_open_cells_of_grid(grid: &Grid)
    ensures
        open_cells(grid) == grid@.open(),
{
    assert(open_cells(grid) =~= grid@.open());
}

/// A fresh look around leaves the terrain as it is.
pub proof fn lemma_refreshed_keeps_terrain(g: GridView, origin: Vector, range_limit: int)
    requires
        g.wf(),
    ensures
        g.refreshed(origin, range_limit).wf(),
        g.refreshed(origin, range_limit).same_terrain(g),
        forall|p: Vector| #[trigger]
            g.refreshed(origin, range_limit).blocked(p) == g.blocked(p),
{
    assert forall|p: Vector| #[trigger]
        g.refreshed(origin, range_limit).blocked(p) == g.blocked(p) by {
        if g.in_bounds(p) {
            lemma_index_in_range(g, p);
        }
    }
}

/// A second look around from the same place changes nothing: the same
/// tiles are visible, and the same tiles count as seen.
pub proof fn lemma_second_look_changes_nothing(g: GridView, origin: Vector, range_limit: int)
    requires
        g.wf(),
    ensures
        g.refreshed(origin, range_limit).refreshed(origin, range_limit) == g.refreshed(
            origin,
            range_limit,
        ),
{
    let once = g.refreshed(origin, range_limit);
    let twice = once.refreshed(origin, range_limit);
    lemma_refreshed_keeps_terrain(g, origin, range_limit);
    assert(once.open() =~= g.open());
    assert(twice.tiles =~= once.tiles);
}

/// Hiding every tile and then marking what an observer sees gives the
/// grid after a fresh look around.
pub proof fn lemma_fresh_look(
    start: GridView,
    hidden: GridView,
    lit: GridView,
    origin: Vector,
    range_limit: int,
)
    requires
        start.wf(),
        hidden == start.all_marked(false),
        lit.wf(),
        lit.revealed_from(hidden),
        forall|p: Vector| #[trigger]
            lit.visible(p) == (hidden.visible(p) || (hidden.in_bounds(p) && sees_within(
                hidden.open(),
                origin,
                range_limit,
                p,
            ))),
    ensures
        lit == start.refreshed(origin, range_limit),
{
    assert(hidden.open() =~= start.open()) by {
        assert forall|p: Vector| hidden.blocked(p) == start.blocked(p) by {
            if start.in_bounds(p) {
                lemma_index_in_range(start, p);
            }
        }
    }
    let goal = start.refreshed(origin, range_limit);
    assert forall|i: int| 0 <= i < lit.tiles.len() implies lit.tiles[i] == goal.tiles[i] by {
        lemma_pos_of_index(start, i);
        let p = start.pos_of(i);
        assert(lit.visible(p) == lit.tiles[i].visible);
        assert(!hidden.tiles[i].visible);
        assert(lit.tiles[i].blocked == hidden.tiles[i].blocked);
    }
    assert(lit.tiles =~= goal.tiles);
}

} // verus!
