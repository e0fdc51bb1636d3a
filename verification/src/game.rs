//! One observer walking a cave: where it stands, and what it sees from
//! there.

use vstd::prelude::*;
use crate::fov::refresh_visiblity;
use crate::fov::sight::sees_within;
use crate::fov::Area;
use crate::map::{
    lemma_fresh_look, lemma_open_cells_of_grid, lemma_refreshed_keeps_terrain, Grid, GridView,
};
use crate::vector::Vector;

verus! {

/// What a cell shows to whoever draws the map.
#[derive(Debug, Clone, Copy, PartialEq, Eq, Structural)]
pub enum EntityType {
    Player,
    Hidden,
    Wall,
    Floor,
}

/// The eight ways to step, `N` being toward the top row.
#[derive(Debug, Clone, Copy, PartialEq, Eq, Structural)]
pub enum Direction {
    N,
    NE,
    E,
    SE,
    S,
    SW,
    W,
    NW,
}

impl Direction {
    /// How far a step in this direction moves along `x`.
    pub open spec fn dx(self) -> int {
        match self {
            Direction::NE | Direction::E | Direction::SE => 1,
            Direction::NW | Direction::W | Direction::SW => -1,
            Direction::N | Direction::S => 0,
        }
    }

    /// How far a step in this direction moves along `y`, which grows
    /// downward.
    pub open spec fn dy(self) -> int {
        match self {
            Direction::SE | Direction::S | Direction::SW => 1,
            Direction::NE | Direction::N | Direction::NW => -1,
            Direction::E | Direction::W => 0,
        }
    }

    /// The position one step from `pos`.
    pub open spec fn spec_step(self, pos: Vector) -> (int, int) {
        (pos.x + self.dx(), pos.y + self.dy())
    }

    /// The position one step from `pos`, for an observer that a step does
    /// not carry off the plane.
    pub fn step(self, pos: Vector) -> (next: Vector)
        requires
            i32::MIN < pos.x < i32::MAX,
            i32::MIN < pos.y < i32::MAX,
        ensures
            (next.x as int, next.y as int) == self.spec_step(pos),
    {
        match self {
            Direction::N => Vector::new(pos.x, pos.y - 1),
            Direction::NE => Vector::new(pos.x + 1, pos.y - 1),
            Direction::E => Vector::new(pos.x + 1, pos.y),
            Direction::SE => Vector::new(pos.x + 1, pos.y + 1),
            Direction::S => Vector::new(pos.x, pos.y + 1),
            Direction::SW => Vector::new(pos.x - 1, pos.y + 1),
            Direction::W => Vector::new(pos.x - 1, pos.y),
            Direction::NW => Vector::new(pos.x - 1, pos.y - 1),
        }
    }
}

/// What the tile at `index` shows: the observer where it stands, nothing
/// of a tile out of sight, and wall or floor of one in sight.
pub open spec fn entity_at(map: GridView, player: Vector, index: int) -> EntityType {
    if index == map.index_of(player) {
        EntityType::Player
    } else if !map.tiles[index].visible {
        EntityType::Hidden
    } else if map.tiles[index].blocked {
        EntityType::Wall
    } else {
        EntityType::Floor
    }
}

/// A cave with one observer in it.
///
/// The observer always stands on an open cell of the map, and the map
/// always shows what is in sight from there.
#[derive(Debug, Clone)]
pub struct Game {
    map: Grid,
    player: Vector,
    range_limit: i32,
}

/// A game as mathematics sees it.
pub struct GameView {
    pub map: GridView,
    pub player: Vector,
    pub range_limit: int,
}

impl View for Game {
    type V = GameView;

    closed spec fn view(&self) -> GameView {
        GameView { map: self.map@, player: self.player, range_limit: self.range_limit as int }
    }
}

impl GameView {
    /// The map is a grid, and the observer stands on one of its open
    /// cells.
    pub open spec fn wf(self) -> bool {
        self.map.wf() && !self.map.blocked(self.player)
    }

    /// Where a step in `dir` takes the observer: one cell on if that cell
    /// is open, and nowhere if it is not.
    pub open spec fn after_step(self, dir: Direction) -> Vector {
        let to = dir.spec_step(self.player);
        let next = Vector { x: to.0 as i32, y: to.1 as i32 };
        if self.map.blocked(next) {
            self.player
        } else {
            next
        }
    }
}

impl Game {
    /// Puts an observer on an open cell of a map and lets it look around.
    /// A negative `range_limit` means unlimited sight.
    pub fn new(map: Grid, player: Vector, range_limit: i32) -> (game: Game)
        requires
            !map@.blocked(player),
        ensures
            game@.wf(),
            game@.player == player,
            game@.range_limit == range_limit,
            game@.map == map@.refreshed(player, range_limit as int),
    {
        let mut map = map;
        proof {
            use_type_invariant(&map);
            lemma_refreshed_keeps_terrain(map@, player, range_limit as int);
        }
        look_around(&mut map, range_limit, player);
        Game { map, player, range_limit }
    }

    pub fn player(&self) -> (pos: Vector)
        ensures
            pos == self@.player,
    {
        self.player
    }

    pub fn range_limit(&self) -> (limit: i32)
        ensures
            limit == self@.range_limit,
    {
        self.range_limit
    }

    /// The sides of the map, as a vector.
    pub fn size(&self) -> (size: Vector)
        ensures
            size.x == self@.map.width,
            size.y == self@.map.height,
    {
        Vector::new(self.map.width(), self.map.height())
    }

    pub fn map(&self) -> (map: &Grid)
        ensures
            map@ == self@.map,
    {
        &self.map
    }

    /// What each tile shows, row after row: the observer, and of the rest
    /// what is in sight.
    pub fn get_map(&self) -> (shown: Vec<EntityType>)
        requires
            self@.wf(),
        ensures
            shown@.len() == self@.map.tiles.len(),
            forall|i: int|
                0 <= i < shown@.len() ==> #[trigger] shown@[i] == entity_at(
                    self@.map,
                    self@.player,
                    i,
                ),
    {
        let tiles = self.map.tiles();
        let at = self.map.pos_to_index(self.player);
        let mut shown: Vec<EntityType> = Vec::with_capacity(tiles.len());
        let mut index: usize = 0;
        while index < tiles.len()
            invariant
                index <= tiles@.len(),
                tiles@ == self@.map.tiles,
                at == self@.map.index_of(self@.player),
                shown@.len() == index,
                forall|i: int|
                    0 <= i < index ==> #[trigger] shown@[i] == entity_at(
                        self@.map,
                        self@.player,
                        i,
                    ),
            decreases tiles@.len() - index,
        {
            let tile = tiles[index];
            let entity = if index == at {
                EntityType::Player
            } else if !tile.visible {
                EntityType::Hidden
            } else if tile.blocked {
                EntityType::Wall
            } else {
                EntityType::Floor
            };
            shown.push(entity);
            index += 1;
        }
        shown
    }

    /// Steps the observer one cell in `dir` if that cell is open, and has
    /// it look around afresh from where it then stands.
    pub fn move_player(&mut self, dir: Direction)
        requires
            old(self)@.wf(),
        ensures
            final(self)@.wf(),
            final(self)@.player == old(self)@.after_step(dir),
            final(self)@.range_limit == old(self)@.range_limit,
            final(self)@.map == old(self)@.map.refreshed(
                final(self)@.player,
                old(self)@.range_limit,
            ),
    {
        proof {
            use_type_invariant(&self.map);
        }
        let new_pos = dir.step(self.player);
        if !self.map.is_blocked(new_pos) {
            self.player = new_pos;
        }
        proof {
            lemma_refreshed_keeps_terrain(self.map@, self.player, self.range_limit as int);
        }
        look_around(&mut self.map, self.range_limit, self.player);
    }
}

/// Hides every tile of the map, then marks what is in sight from `origin`.
fn look_around(map: &mut Grid, range_limit: i32, origin: Vector)
    ensures
        final(map)@ == old(map)@.refreshed(origin, range_limit as int),
        final(map)@.wf(),
{
    proof {
        use_type_invariant(&*map);
    }
    map.set_all_visiblity(false);
    let ghost hidden = *map;
    proof {
        lemma_open_cells_of_grid(&hidden);
    }
    refresh_visiblity(map, range_limit, origin);
    proof {
        use_type_invariant(&*map);
        assert forall|p: Vector| #[trigger]
            map@.visible(p) == (hidden@.visible(p) || (hidden@.in_bounds(p) && sees_within(
                hidden@.open(),
                origin,
                range_limit as int,
                p,
            ))) by {
            assert(map.spec_visible(p) == map@.visible(p));
        }
        lemma_fresh_look(old(map)@, hidden@, map@, origin, range_limit as int);
    }
}

} // verus!
