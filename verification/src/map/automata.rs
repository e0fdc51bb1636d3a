//! Caves by cellular automaton: a random scatter of walls, smoothed by a
//! few rounds in which every cell follows the majority around it.

use vstd::prelude::*;
use crate::map::tile::{Tile, TileType};
use crate::map::{lemma_index_in_range, lemma_pos_of_index, Grid, GridView};
use crate::random;
use crate::vector::Vector;

verus! {

/// Out of a hundred interior cells, this many start out as walls.
pub const WALL_CHANCE: u32 = 45;

/// A wall stays a wall with this many walls around it.
pub const WALL_STAYS: u32 = 4;

/// A floor turns into a wall with this many walls around it.
pub const FLOOR_FILLS: u32 = 5;

/// 1 if the grid has a wall at `(x, y)`, else 0. Outside the grid there
/// are no walls to count.
pub open spec fn wall_at(g: GridView, x: int, y: int) -> int {
    if 0 <= x < g.width && 0 <= y < g.height && g.tiles[g.width * y + x].tile_type
        == TileType::Wall {
        1
    } else {
        0
    }
}

/// How many of the eight cells around `(x, y)` are walls of the grid.
pub open spec fn walls_around(g: GridView, x: int, y: int) -> int {
    wall_at(g, x - 1, y - 1) + wall_at(g, x, y - 1) + wall_at(g, x + 1, y - 1) + wall_at(
        g,
        x - 1,
        y,
    ) + wall_at(g, x + 1, y) + wall_at(g, x - 1, y + 1) + wall_at(g, x, y + 1) + wall_at(
        g,
        x + 1,
        y + 1,
    )
}

/// Whether `(x, y)` lies on the outermost ring of a grid of the given
/// sides.
pub open spec fn on_edge(width: int, height: int, x: int, y: int) -> bool {
    x == 0 || x == width - 1 || y == 0 || y == height - 1
}

/// The tile that a cell starts out as: a wall on the edge, and inside a
/// wall if the roll for it fell under [`WALL_CHANCE`].
pub open spec fn spec_seed_tile(edge: bool, roll: int) -> Tile {
    if edge || roll < WALL_CHANCE {
        Tile::spec_wall()
    } else {
        Tile::spec_floor()
    }
}

/// The tile that the cell `(x, y)` turns into in one round: a wall on the
/// edge, a wall where a wall has at least [`WALL_STAYS`] walls around it or
/// a floor at least [`FLOOR_FILLS`], and a floor elsewhere. The new tile
/// is hidden and unseen.
pub open spec fn next_tile(g: GridView, x: int, y: int) -> Tile {
    let kind = g.tiles[g.width * y + x].tile_type;
    let count = walls_around(g, x, y);
    if (kind == TileType::Wall && count >= WALL_STAYS) || (kind == TileType::Floor && count
        >= FLOOR_FILLS) || on_edge(g.width, g.height, x, y) {
        Tile::spec_wall()
    } else {
        Tile::spec_floor()
    }
}

/// The grid after one round: every cell follows [`next_tile`], all of them
/// looking at the grid as it was before the round.
pub open spec fn relaxed(g: GridView) -> GridView {
    GridView {
        tiles: Seq::new(g.tiles.len(), |i: int| next_tile(g, i % g.width, i / g.width)),
        ..g
    }
}

/// The grid after `rounds` rounds.
pub open spec fn relaxed_times(g: GridView, rounds: nat) -> GridView
    decreases rounds,
{
    if rounds == 0 {
        g
    } else {
        relaxed(relaxed_times(g, (rounds - 1) as nat))
    }
}

/// A grid fresh from the generator: every tile is an untouched wall or an
/// untouched floor, and the whole edge is wall.
pub open spec fn sealed(g: GridView) -> bool {
    &&& g.wf()
    &&& forall|i: int|
        0 <= i < g.tiles.len() ==> #[trigger] g.tiles[i] == Tile::spec_wall() || g.tiles[i]
            == Tile::spec_floor()
    &&& forall|i: int|
        0 <= i < g.tiles.len() && on_edge(g.width, g.height, i % g.width, i / g.width)
            ==> #[trigger] g.tiles[i] == Tile::spec_wall()
}

/// Decides what a cell starts out as, from where it lies and from the
/// number rolled for it.
pub fn seed_tile(edge: bool, roll: u32) -> (tile: Tile)
    ensures
        tile == spec_seed_tile(edge, roll as int),
{
    if edge || roll < WALL_CHANCE {
        Tile::wall()
    } else {
        Tile::floor()
    }
}

/// The tiles of a fresh scatter, row after row: walls all along the edge,
/// and inside a wall wherever the roll for the cell fell under
/// [`WALL_CHANCE`].
pub fn random_tiles(size: Vector) -> (tiles: Vec<Tile>)
    requires
        0 < size.x,
        0 < size.y,
        size.x * size.y <= usize::MAX,
    ensures
        sealed(GridView { width: size.x as int, height: size.y as int, tiles: tiles@ }),
{
    let width: usize = size.x as usize;
    let height: usize = size.y as usize;
    assert(width * height == size.x * size.y) by (nonlinear_arith)
        requires
            width == size.x,
            height == size.y,
    ;
    let mut tiles: Vec<Tile> = Vec::with_capacity(width * height);
    let mut y: usize = 0;
    while y < height
        invariant
            0 < width == size.x,
            0 < height == size.y,
            y <= height,
            width * height <= usize::MAX,
            tiles@.len() == width * y,
            forall|i: int|
                0 <= i < tiles@.len() ==> #[trigger] tiles@[i] == Tile::spec_wall() || tiles@[i]
                    == Tile::spec_floor(),
            forall|i: int|
                0 <= i < tiles@.len() && on_edge(width as int, height as int, i % (width as int), i / (
                width as int)) ==> #[trigger] tiles@[i] == Tile::spec_wall(),
        decreases height - y,
    {
        let mut x: usize = 0;
        while x < width
            invariant
                0 < width == size.x,
                0 < height == size.y,
                y < height,
                x <= width,
                width * height <= usize::MAX,
                tiles@.len() == width * y + x,
                forall|i: int|
                    0 <= i < tiles@.len() ==> #[trigger] tiles@[i] == Tile::spec_wall()
                        || tiles@[i] == Tile::spec_floor(),
                forall|i: int|
                    0 <= i < tiles@.len() && on_edge(
                        width as int,
                        height as int,
                        i % (width as int),
                        i / (width as int),
                    ) ==> #[trigger] tiles@[i] == Tile::spec_wall(),
            decreases width - x,
        {
            let edge = x == 0 || x == width - 1 || y == 0 || y == height - 1;
            let tile = if edge {
                seed_tile(true, 0)
            } else {
                seed_tile(false, random::percent())
            };
            proof {
                lemma_row_major(width as int, y as int, x as int);
            }
            tiles.push(tile);
            x += 1;
        }
        proof {
            assert(width * y + width == width * (y + 1)) by (nonlinear_arith);
        }
        y += 1;
    }
    tiles
}

/// In a row-major layout, the tile at `width * y + x` is the one in row `y`
/// and column `x`.
pub proof fn lemma_row_major(width: int, y: int, x: int)
    requires
        0 <= x < width,
        0 <= y,
    ensures
        (width * y + x) % width == x,
        (width * y + x) / width == y,
        0 <= width * y,
{
    assert((width * y + x) / width == y && (width * y + x) % width == x && 0 <= width * y)
        by (nonlinear_arith)
        requires
            0 <= x < width,
            0 <= y,
    ;
}

/// Whether the grid has a wall at `(x, y)`. Outside the grid there is
/// none.
fn is_wall(map: &Grid, x: i64, y: i64) -> (count: u32)
    requires
        -0x1_0000_0000 <= x <= 0x1_0000_0000,
        -0x1_0000_0000 <= y <= 0x1_0000_0000,
    ensures
        count == wall_at(map@, x as int, y as int),
{
    proof {
        use_type_invariant(map);
    }
    if x < 0 || x >= map.width() as i64 || y < 0 || y >= map.height() as i64 {
        0
    } else {
        match map.get_tile(Vector::new(x as i32, y as i32)) {
            Some(tile) => if tile.tile_type == TileType::Wall {
                1
            } else {
                0
            },
            None => 0,
        }
    }
}

/// How many of the eight cells around `pos` are walls. Cells outside the
/// grid count as none.
pub fn num_wall_neighbours(pos: Vector, map: &Grid) -> (count: u32)
    ensures
        count == walls_around(map@, pos.x as int, pos.y as int),
        count <= 8,
{
    let x: i64 = pos.x as i64;
    let y: i64 = pos.y as i64;
    is_wall(map, x - 1, y - 1) + is_wall(map, x, y - 1) + is_wall(map, x + 1, y - 1) + is_wall(
        map,
        x - 1,
        y,
    ) + is_wall(map, x + 1, y) + is_wall(map, x - 1, y + 1) + is_wall(map, x, y + 1) + is_wall(
        map,
        x + 1,
        y + 1,
    )
}

/// One round of the automaton won't open the edge, and leaves every tile
/// untouched by sight.
pub proof fn lemma_relaxed_is_sealed(g: GridView)
    requires
        g.wf(),
    ensures
        sealed(relaxed(g)),
{
}

/// However many rounds follow, a sealed grid stays sealed.
pub proof fn lemma_relaxed_times_is_sealed(g: GridView, rounds: nat)
    requires
        sealed(g),
    ensures
        sealed(relaxed_times(g, rounds)),
        relaxed_times(g, rounds).width == g.width,
        relaxed_times(g, rounds).height == g.height,
    decreases rounds,
{
    if rounds > 0 {
        lemma_relaxed_times_is_sealed(g, (rounds - 1) as nat);
        lemma_relaxed_is_sealed(relaxed_times(g, (rounds - 1) as nat));
    }
}

/// In a sealed grid every cell of the outermost ring is blocked.
pub proof fn lemma_sealed_border_blocks(g: GridView, pos: Vector)
    requires
        sealed(g),
        g.on_border(pos),
    ensures
        g.tile(pos) == Tile::spec_wall(),
        g.blocked(pos),
{
    lemma_index_in_range(g, pos);
    lemma_row_major(g.width, pos.y as int, pos.x as int);
    assert(g.tiles[g.index_of(pos)] == Tile::spec_wall());
}

/// Runs one round of the automaton over the whole grid: every cell turns
/// into what [`next_tile`] says, judged by the grid as it was before the
/// round.
pub fn run_iteration(map: &mut Grid)
    ensures
        final(map)@ == relaxed(old(map)@),
{
    proof {
        use_type_invariant(&*map);
    }
    let width = map.width();
    let height = map.height();
    let ghost before = map@;
    let mut next_tiles: Vec<Tile> = Vec::new();
    let mut y: i32 = 0;
    while y < height
        invariant
            before == map@,
            before.wf(),
            width == before.width,
            height == before.height,
            0 <= y <= height,
            next_tiles@.len() == width * y,
            forall|i: int|
                0 <= i < next_tiles@.len() ==> #[trigger] next_tiles@[i] == next_tile(
                    before,
                    i % before.width,
                    i / before.width,
                ),
        decreases height - y,
    {
        let mut x: i32 = 0;
        while x < width
            invariant
                before == map@,
                before.wf(),
                width == before.width,
                height == before.height,
                0 <= y < height,
                0 <= x <= width,
                next_tiles@.len() == width * y + x,
                forall|i: int|
                    0 <= i < next_tiles@.len() ==> #[trigger] next_tiles@[i] == next_tile(
                        before,
                        i % before.width,
                        i / before.width,
                    ),
            decreases width - x,
        {
            let pos = Vector::new(x, y);
            let wall_count = num_wall_neighbours(pos, map);
            proof {
                lemma_index_in_range(before, pos);
                lemma_row_major(width as int, y as int, x as int);
            }
            let kind = match map.get_tile(pos) {
                Some(tile) => tile.tile_type,
                None => TileType::Wall,
            };
            let edge = x == 0 || x == width - 1 || y == 0 || y == height - 1;
            if (kind == TileType::Wall && wall_count >= WALL_STAYS) || (kind == TileType::Floor
                && wall_count >= FLOOR_FILLS) || edge {
                next_tiles.push(Tile::wall());
            } else {
                next_tiles.push(Tile::floor());
            }
            x += 1;
        }
        proof {
            assert(width * y + width == width * (y + 1)) by (nonlinear_arith);
        }
        y += 1;
    }
    proof {
        assert(next_tiles@ =~= relaxed(before).tiles);
        lemma_relaxed_is_sealed(before);
    }
    map.tiles = next_tiles;
}

/// A cave of the given size: a random scatter of walls, then two to four
/// rounds of the automaton, as chance has it.
///
/// Whatever is drawn, the cave is what so many rounds make of some sealed
/// scatter: its edge is wall all around, and no tile of it is visible or
/// seen. Whether its floors hang together is left to chance.
pub fn generate_automata_map(size: Vector) -> (cave: Grid)
    requires
        0 < size.x,
        0 < size.y,
        size.x * size.y <= usize::MAX,
    ensures
        cave@.width == size.x,
        cave@.height == size.y,
        sealed(cave@),
        forall|pos: Vector| #[trigger] cave@.on_border(pos) ==> cave@.blocked(pos),
        exists|scatter: GridView, rounds: nat|
            sealed(scatter) && 2 <= rounds < 5 && cave@ == #[trigger] relaxed_times(
                scatter,
                rounds,
            ),
{
    let tiles = random_tiles(size);
    let mut map = Grid { width: size.x, height: size.y, tiles };
    let ghost scatter = map@;
    let rounds = random::range(2, 5);
    let mut round: u32 = 0;
    while round < rounds
        invariant
            round <= rounds,
            sealed(scatter),
            map@ == relaxed_times(scatter, round as nat),
        decreases rounds - round,
    {
        run_iteration(&mut map);
        round += 1;
    }
    proof {
        lemma_relaxed_times_is_sealed(scatter, rounds as nat);
        assert forall|pos: Vector| #[trigger] map@.on_border(pos) implies map@.blocked(pos) by {
            lemma_sealed_border_blocks(map@, pos);
        }
    }
    map
}

} // verus!
