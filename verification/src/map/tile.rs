use vstd::prelude::*;

verus! {

/// What a cell is made of.
#[derive(Debug, Clone, Copy, PartialEq, Eq, Structural)]
pub enum TileType {
    Wall,
    Floor,
}

/// One cell of a grid.
///
/// `blocked` and `tile_type` are terrain and stay as generated. `visible`
/// is the outcome of the latest visibility pass. `seen` records that the
/// cell was visible at some time, and is never taken back.
#[derive(Debug, Clone, Copy, PartialEq, Eq, Structural)]
pub struct Tile {
    pub visible: bool,
    pub blocked: bool,
    pub seen: bool,
    pub tile_type: TileType,
}

impl Tile {
    /// A wall nobody has looked at yet.
    pub open spec fn spec_wall() -> Tile {
        Tile { visible: false, blocked: true, seen: false, tile_type: TileType::Wall }
    }

    /// A floor nobody has looked at yet.
    pub open spec fn spec_floor() -> Tile {
        Tile { visible: false, blocked: false, seen: false, tile_type: TileType::Floor }
    }

    /// What a grid asks of each of its tiles: walls block and floors do
    /// not, and a tile that is visible has been seen.
    pub open spec fn coherent(self) -> bool {
        &&& self.blocked == (self.tile_type == TileType::Wall)
        &&& self.visible ==> self.seen
    }

    /// This tile after a visibility mark: showing it also records it as
    /// seen, hiding it leaves the record alone.
    pub open spec fn shown(self, visible: bool) -> Tile {
        Tile { visible, seen: self.seen || visible, ..self }
    }

    /// This tile once it has been seen.
    pub open spec fn remembered(self) -> Tile {
        Tile { seen: true, ..self }
    }

    pub fn wall() -> (t: Tile)
        ensures
            t == Tile::spec_wall(),
    {
        Tile { visible: false, blocked: true, seen: false, tile_type: TileType::Wall }
    }

    pub fn floor() -> (t: Tile)
        ensures
            t == Tile::spec_floor(),
    {
        Tile { visible: false, blocked: false, seen: false, tile_type: TileType::Floor }
    }
}

} // verus!
