//! The static tile grid of one dungeon level.

use vstd::prelude::*;

verus! {

/// Width of the dungeon grid, in tiles.
pub const MAP_WIDTH: i32 = 80;
/// Height of the dungeon grid, in tiles.
pub const MAP_HEIGHT: i32 = 43;

/// A tile of the map and its properties.
///
/// Tiles start as walls; generation carves them to empty. `explored` is set
/// only from the visibility collaborator's answers and never cleared.
#[derive(Clone, Copy, PartialEq, Eq, Structural, Debug)]
pub struct Tile {
    pub blocked: bool,
    pub explored: bool,
    pub block_sight: bool,
}

impl Tile {
    /// A carved, walkable tile that does not block sight.
    pub fn empty() -> (t: Tile)
        ensures
            t == (Tile { blocked: false, explored: false, block_sight: false }),
    {
        Tile { blocked: false, explored: false, block_sight: false }
    }

    /// A solid wall tile.
    pub fn wall() -> (t: Tile)
        ensures
            t == (Tile { blocked: true, explored: false, block_sight: true }),
    {
        Tile { blocked: true, explored: false, block_sight: true }
    }
}

/// Fixed-size grid of tiles, stored column by column: `tiles[x][y]`.
pub struct DungeonMap {
    pub tiles: Vec<Vec<Tile>>,
}

impl DungeonMap {
    /// The grid always holds exactly `MAP_WIDTH` columns of `MAP_HEIGHT` tiles.
    pub open spec fn wf(self) -> bool {
        &&& self.tiles@.len() == MAP_WIDTH
        &&& forall|x: int| 0 <= x < MAP_WIDTH ==> (#[trigger] self.tiles@[x])@.len() == MAP_HEIGHT
    }

    /// The tile at grid position (x, y).
    pub open spec fn spec_tile(self, x: int, y: int) -> Tile {
        self.tiles@[x]@[y]
    }

    /// A grid of solid walls.
    pub fn all_walls() -> (m: DungeonMap)
        ensures
            m.wf(),
            forall|x: int, y: int|
                0 <= x < MAP_WIDTH && 0 <= y < MAP_HEIGHT ==> #[trigger] m.spec_tile(x, y)
                    == (Tile { blocked: true, explored: false, block_sight: true }),
    {
        let mut tiles: Vec<Vec<Tile>> = Vec::new();
        while tiles.len() < MAP_WIDTH as usize
            invariant
                tiles@.len() <= MAP_WIDTH,
                forall|x: int| 0 <= x < tiles@.len() ==> (#[trigger] tiles@[x])@.len() == MAP_HEIGHT,
                forall|x: int, y: int|
                    0 <= x < tiles@.len() && 0 <= y < MAP_HEIGHT ==> #[trigger] tiles@[x]@[y]
                        == (Tile { blocked: true, explored: false, block_sight: true }),
            decreases MAP_WIDTH - tiles@.len(),
        {
            let mut column: Vec<Tile> = Vec::new();
            while column.len() < MAP_HEIGHT as usize
                invariant
                    column@.len() <= MAP_HEIGHT,
                    forall|y: int| 0 <= y < column@.len() ==> #[trigger] column@[y]
                        == (Tile { blocked: true, explored: false, block_sight: true }),
                decreases MAP_HEIGHT - column@.len(),
            {
                column.push(Tile::wall());
            }
            tiles.push(column);
        }
        DungeonMap { tiles }
    }

    /// Read the tile at (x, y).
    pub fn tile_at(&self, x: i32, y: i32) -> (t: Tile)
        requires
            self.wf(),
            0 <= x < MAP_WIDTH,
            0 <= y < MAP_HEIGHT,
        ensures
            t == self.spec_tile(x as int, y as int),
    {
        self.tiles[x as usize][y as usize]
    }

    /// Replace the tile at (x, y); every other tile is kept.
    pub fn set_tile(&mut self, x: i32, y: i32, t: Tile)
        requires
            old(self).wf(),
            0 <= x < MAP_WIDTH,
            0 <= y < MAP_HEIGHT,
        ensures
            final(self).wf(),
            final(self).spec_tile(x as int, y as int) == t,
            forall|i: int, j: int|
                0 <= i < MAP_WIDTH && 0 <= j < MAP_HEIGHT && !(i == x && j == y)
                    ==> #[trigger] final(self).spec_tile(i, j) == old(self).spec_tile(i, j),
    {
        let mut column = self.tiles.remove(x as usize);
        column.set(y as usize, t);
        self.tiles.insert(x as usize, column);
        proof {
            assert forall|i: int| 0 <= i < MAP_WIDTH && i != x
                implies self.tiles@[i] == old(self).tiles@[i] by {}
        }
    }
}

/// True when (x, y) lies outside the fixed grid.
pub fn is_out_of_bounds(x: i32, y: i32) -> (r: bool)
    ensures
        r == !(0 <= x < MAP_WIDTH && 0 <= y < MAP_HEIGHT),
{
    x < 0 || x >= MAP_WIDTH || y < 0 || y >= MAP_HEIGHT
}

} // verus!
