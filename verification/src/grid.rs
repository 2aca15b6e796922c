//! The grid of tiles and the gems that sit in them.
//!
//! The grid is six tiles wide and five tiles high. A tile is known by its
//! handle, a number that counts the tiles column by column and, within a
//! column, from the bottom row upwards. Each tile holds one gem or is vacant.

use crate::element::Element;
use vstd::prelude::*;

verus! {

/// The number of columns.
pub const WIDTH: usize = 6;

/// The number of rows.
pub const HEIGHT: usize = 5;

/// The number of tiles.
pub const TILE_COUNT: usize = 30;

/// A gem: a game piece of one element.
///
/// The `id` tells gems apart and stays with the gem wherever it moves.
/// `holding` is set while the player drags the gem.
#[derive(Debug, Clone, Copy, PartialEq, Eq, Structural)]
pub struct Gem {
    pub id: u64,
    pub element: Element,
    pub holding: bool,
}

/// Whether column `x` and row `y` lie on the grid.
pub open spec fn on_grid(x: int, y: int) -> bool {
    0 <= x < 6 && 0 <= y < 5
}

/// The handle of the tile in column `x` and row `y`.
pub open spec fn tile_handle(x: int, y: int) -> int {
    x * 5 + y
}

/// The column of a tile.
pub open spec fn tile_column(tile: int) -> int {
    tile / 5
}

/// The row of a tile.
pub open spec fn tile_row(tile: int) -> int {
    tile % 5
}

/// The handle of the tile in column `x` and row `y`.
pub fn tile_at(x: usize, y: usize) -> (tile: u64)
    requires
        on_grid(x as int, y as int),
    ensures
        tile == tile_handle(x as int, y as int),
        tile < TILE_COUNT,
        tile_column(tile as int) == x,
        tile_row(tile as int) == y,
{
    (x * HEIGHT + y) as u64
}

/// The column in which a tile lies.
pub fn column_of(tile: u64) -> (x: usize)
    requires
        tile < TILE_COUNT,
    ensures
        x == tile_column(tile as int),
        x < WIDTH,
{
    (tile / 5) as usize
}

/// The row in which a tile lies.
pub fn row_of(tile: u64) -> (y: usize)
    requires
        tile < TILE_COUNT,
    ensures
        y == tile_row(tile as int),
        y < HEIGHT,
{
    (tile % 5) as usize
}

/// No two tiles of the sequence hold gems with the same `id`.
pub open spec fn distinct_gems(tiles: Seq<Option<Gem>>) -> bool {
    forall|a: int, b: int|
        0 <= a < tiles.len() && 0 <= b < tiles.len() && a != b && tiles[a] is Some
            && tiles[b] is Some ==> (#[trigger] tiles[a])->0.id != (#[trigger] tiles[b])->0.id
}

/// The gems that the tiles hold, in the order of the tiles; vacant tiles
/// add nothing.
pub open spec fn gems_of(tiles: Seq<Option<Gem>>) -> Seq<Gem>
    decreases tiles.len(),
{
    if tiles.len() == 0 {
        Seq::empty()
    } else {
        match tiles.last() {
            Some(gem) => gems_of(tiles.drop_last()).push(gem),
            None => gems_of(tiles.drop_last()),
        }
    }
}

/// How many of the tiles are vacant.
pub open spec fn vacancies(tiles: Seq<Option<Gem>>) -> int {
    tiles.len() - gems_of(tiles).len()
}

/// There are no more gems than tiles.
pub proof fn gems_fit(tiles: Seq<Option<Gem>>)
    ensures
        gems_of(tiles).len() <= tiles.len(),
        0 <= vacancies(tiles) <= tiles.len(),
    decreases tiles.len(),
{
    if tiles.len() > 0 {
        gems_fit(tiles.drop_last());
    }
}

/// One more tile adds its gem, if it has one, behind the gems of the tiles
/// before it.
pub proof fn gems_of_next(tiles: Seq<Option<Gem>>, count: int)
    requires
        0 <= count < tiles.len(),
    ensures
        gems_of(tiles.take(count + 1)) == match tiles[count] {
            Some(gem) => gems_of(tiles.take(count)).push(gem),
            None => gems_of(tiles.take(count)),
        },
{
    assert(tiles.take(count + 1).drop_last() =~= tiles.take(count));
}

/// Tiles that all hold gems have no vacancy, and tiles without a vacancy
/// all hold gems.
pub proof fn full_means_no_vacancy(tiles: Seq<Option<Gem>>)
    ensures
        vacancies(tiles) == 0 <==> forall|i: int| 0 <= i < tiles.len() ==> (#[trigger] tiles[i]) is Some,
    decreases tiles.len(),
{
    if tiles.len() > 0 {
        let rest = tiles.drop_last();
        full_means_no_vacancy(rest);
        gems_fit(rest);
        if vacancies(tiles) == 0 {
            assert(tiles.last() is Some);
            assert forall|i: int| 0 <= i < tiles.len() implies (#[trigger] tiles[i]) is Some by {
                if i < rest.len() {
                    assert(rest[i] == tiles[i]);
                }
            }
        }
        if forall|i: int| 0 <= i < tiles.len() ==> (#[trigger] tiles[i]) is Some {
            assert(tiles[tiles.len() - 1] is Some);
            assert forall|i: int| 0 <= i < rest.len() implies (#[trigger] rest[i]) is Some by {
                assert(rest[i] == tiles[i]);
            }
        }
    }
}

/// The tiles of the board, each with the gem that sits in it.
pub struct Grid {
    tiles: Vec<Option<Gem>>,
}

impl View for Grid {
    type V = Seq<Option<Gem>>;

    /// What each tile holds, by tile handle.
    closed spec fn view(&self) -> Seq<Option<Gem>> {
        self.tiles@
    }
}

impl Grid {
    /// The grid has all its tiles, and no gem sits in two of them.
    pub open spec fn wf(&self) -> bool {
        &&& self@.len() == TILE_COUNT
        &&& distinct_gems(self@)
    }

    /// Every tile holds a gem.
    pub open spec fn complete(&self) -> bool {
        forall|tile: int| 0 <= tile < self@.len() ==> (#[trigger] self@[tile]) is Some
    }

    /// A full grid with the given elements, `elements[x][y]` for the tile in
    /// column `x` and row `y`. The gem of a tile gets the tile's handle as
    /// its `id`, and no gem is held.
    pub fn new(elements: &[[Element; 5]; 6]) -> (grid: Grid)
        ensures
            grid.wf(),
            grid.complete(),
            forall|x: int, y: int|
                on_grid(x, y) ==> (#[trigger] grid@[tile_handle(x, y)]) == Some(
                    Gem { id: tile_handle(x, y) as u64, element: elements@[x]@[y], holding: false },
                ),
    {
        let mut tiles: Vec<Option<Gem>> = Vec::new();
        let mut x: usize = 0;
        while x < WIDTH
            invariant
                x <= WIDTH,
                tiles@.len() == x * 5,
                forall|t: int|
                    0 <= t < tiles@.len() ==> (#[trigger] tiles@[t]) == Some(
                        Gem { id: t as u64, element: elements@[t / 5]@[t % 5], holding: false },
                    ),
            decreases WIDTH - x,
        {
            let mut y: usize = 0;
            while y < HEIGHT
                invariant
                    x < WIDTH,
                    y <= HEIGHT,
                    tiles@.len() == x * 5 + y,
                    forall|t: int|
                        0 <= t < tiles@.len() ==> (#[trigger] tiles@[t]) == Some(
                            Gem { id: t as u64, element: elements@[t / 5]@[t % 5], holding: false },
                        ),
                decreases HEIGHT - y,
            {
                let element = elements[x][y];
                tiles.push(Some(Gem { id: tile_at(x, y), element, holding: false }));
                y += 1;
            }
            x += 1;
        }
        let grid = Grid { tiles };
        assert forall|x: int, y: int| on_grid(x, y) implies (#[trigger] grid@[tile_handle(x, y)])
            == Some(
            Gem { id: tile_handle(x, y) as u64, element: elements@[x]@[y], holding: false },
        ) by {
            let t = tile_handle(x, y);
            assert(0 <= t < 30);
            assert(t / 5 == x && t % 5 == y);
        }
        grid
    }

    /// A grid with the given tiles, listed by tile handle.
    pub fn from_tiles(tiles: Vec<Option<Gem>>) -> (grid: Grid)
        requires
            tiles@.len() == TILE_COUNT,
            distinct_gems(tiles@),
        ensures
            grid.wf(),
            grid@ == tiles@,
    {
        Grid { tiles }
    }

    /// A grid with the given tiles, listed by tile handle, if there is one
    /// tile for each handle and no two gems share an id.
    pub fn try_from_tiles(tiles: Vec<Option<Gem>>) -> (grid: Option<Grid>)
        ensures
            grid is Some <==> tiles@.len() == TILE_COUNT && distinct_gems(tiles@),
            grid is Some ==> grid->0.wf() && grid->0@ == tiles@,
    {
        if tiles.len() != TILE_COUNT {
            return None;
        }
        let mut a: usize = 0;
        while a < TILE_COUNT
            invariant
                tiles@.len() == TILE_COUNT,
                a <= TILE_COUNT,
                forall|i: int, j: int|
                    0 <= i < a && 0 <= j < TILE_COUNT && i != j && tiles@[i] is Some
                        && tiles@[j] is Some ==> (#[trigger] tiles@[i])->0.id != (
                    #[trigger] tiles@[j])->0.id,
            decreases TILE_COUNT - a,
        {
            let mut b: usize = 0;
            while b < TILE_COUNT
                invariant
                    tiles@.len() == TILE_COUNT,
                    a < TILE_COUNT,
                    b <= TILE_COUNT,
                    forall|j: int|
                        0 <= j < b && a != j && tiles@[a as int] is Some && (
                        #[trigger] tiles@[j]) is Some ==> tiles@[a as int]->0.id != tiles@[j]->0.id,
                decreases TILE_COUNT - b,
            {
                if a != b {
                    match (tiles[a], tiles[b]) {
                        (Some(first), Some(second)) => {
                            if first.id == second.id {
                                return None;
                            }
                        },
                        _ => {},
                    }
                }
                b += 1;
            }
            a += 1;
        }
        Some(Grid { tiles })
    }

    /// Whether every tile holds a gem.
    pub fn is_complete(&self) -> (full: bool)
        requires
            self.wf(),
        ensures
            full == self.complete(),
    {
        self.vacant() == 0
    }

    /// How many tiles are vacant.
    pub fn vacant(&self) -> (count: usize)
        requires
            self.wf(),
        ensures
            count == vacancies(self@),
            count <= TILE_COUNT,
            count == 0 <==> self.complete(),
    {
        let mut count: usize = 0;
        let mut tile: usize = 0;
        while tile < TILE_COUNT
            invariant
                self.tiles@.len() == TILE_COUNT,
                tile <= TILE_COUNT,
                count == vacancies(self.tiles@.take(tile as int)),
                count <= tile,
            decreases TILE_COUNT - tile,
        {
            proof {
                gems_of_next(self.tiles@, tile as int);
                gems_fit(self.tiles@.take(tile as int));
            }
            if self.tiles[tile].is_none() {
                count += 1;
            }
            tile += 1;
        }
        proof {
            assert(self.tiles@.take(TILE_COUNT as int) =~= self.tiles@);
            full_means_no_vacancy(self.tiles@);
        }
        count
    }

    /// Exchanges what two tiles hold. The gems themselves stay as they are.
    pub fn swap(&mut self, a: u64, b: u64)
        requires
            old(self).wf(),
            a < TILE_COUNT,
            b < TILE_COUNT,
        ensures
            final(self).wf(),
            final(self)@ == old(self)@.update(a as int, old(self)@[b as int]).update(
                b as int,
                old(self)@[a as int],
            ),
    {
        let first = self.tiles[a as usize];
        let second = self.tiles[b as usize];
        self.tiles[a as usize] = second;
        self.tiles[b as usize] = first;
    }

    /// Puts a gem into a tile. No other tile may hold a gem with the same
    /// id.
    pub fn set_gem(&mut self, tile: u64, gem: Gem)
        requires
            old(self).wf(),
            tile < TILE_COUNT,
            forall|other: int|
                0 <= other < TILE_COUNT && other != tile && (#[trigger] old(self)@[other]) is Some
                    ==> old(self)@[other]->0.id != gem.id,
        ensures
            final(self).wf(),
            final(self)@ == old(self)@.update(tile as int, Some(gem)),
    {
        self.tiles[tile as usize] = Some(gem);
    }

    /// Takes the gem out of a tile and leaves the tile vacant.
    pub fn take_gem(&mut self, tile: u64) -> (gem: Option<Gem>)
        requires
            old(self).wf(),
            tile < TILE_COUNT,
        ensures
            final(self).wf(),
            final(self)@ == old(self)@.update(tile as int, None),
            gem == old(self)@[tile as int],
    {
        let gem = self.tiles[tile as usize];
        self.tiles[tile as usize] = None;
        gem
    }

    /// Marks the gem of a tile as held or not held. A vacant tile stays as
    /// it is.
    pub fn set_holding(&mut self, tile: u64, holding: bool)
        requires
            old(self).wf(),
            tile < TILE_COUNT,
        ensures
            final(self).wf(),
            final(self)@ == match old(self)@[tile as int] {
                Some(gem) => old(self)@.update(
                    tile as int,
                    Some(Gem { id: gem.id, element: gem.element, holding }),
                ),
                None => old(self)@,
            },
    {
        match self.tiles[tile as usize] {
            Some(gem) => {
                self.tiles[tile as usize] = Some(Gem { id: gem.id, element: gem.element, holding });
            },
            None => {},
        }
    }

    /// What a tile holds: its gem, or nothing when the tile is vacant.
    pub fn gem_of(&self, tile: u64) -> (gem: Option<Gem>)
        requires
            self.wf(),
            tile < TILE_COUNT,
        ensures
            gem == self@[tile as int],
    {
        self.tiles[tile as usize]
    }
}

/// Elements picked by chance for every tile of a grid, `[x][y]` for the tile
/// in column `x` and row `y`.
pub fn random_gems() -> (gems: [[Element; 5]; 6]) {
    let mut gems = [[Element::Heal;5];6];
    let mut x: usize = 0;
    while x < WIDTH
        invariant
            x <= WIDTH,
        decreases WIDTH - x,
    {
        let mut column = [Element::Heal;5];
        let mut y: usize = 0;
        while y < HEIGHT
            invariant
                y <= HEIGHT,
            decreases HEIGHT - y,
        {
            column[y] = Element::random();
            y += 1;
        }
        gems[x] = column;
        x += 1;
    }
    gems
}

} // verus!
