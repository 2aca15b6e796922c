//! Letting gems fall into the tiles that a match has vacated.
//!
//! Each column settles by itself. Its gems keep their order and come to
//! rest at the bottom; the rows above them are filled with new gems. Every
//! tile from the lowest vacant one upwards gets a new occupant, and for each
//! such tile there is one [`Fall`] that says which gem comes to rest in it
//! and how far it falls.

use crate::grid::distinct_gems;
use crate::grid::gems_fit;
use crate::grid::gems_of;
use crate::grid::gems_of_next;
use crate::grid::tile_at;
use crate::grid::tile_handle;
use crate::grid::vacancies;
use crate::grid::Gem;
use crate::grid::Grid;
use crate::grid::HEIGHT;
use crate::grid::WIDTH;
use vstd::prelude::*;

verus! {

/// The gem that comes to rest in a tile.
#[derive(Debug, Clone, Copy, PartialEq, Eq, Structural)]
pub enum FallingGem {
    /// A gem of the same column, known by its `id`, that sat in row `from`.
    Existing { gem: u64, from: usize },
    /// A new gem. It starts `height` rows above the top row.
    New { height: u8 },
}

/// A gem falling into a tile.
#[derive(Debug, Clone, Copy, PartialEq, Eq, Structural)]
pub struct Fall {
    /// The tile in which the gem comes to rest.
    pub tile: u64,
    /// The gem that falls.
    pub gem: FallingGem,
    /// How many rows the gem falls.
    pub rows: usize,
}

/// The tiles of column `x`, from the bottom row upwards.
pub open spec fn column(tiles: Seq<Option<Gem>>, x: int) -> Seq<Option<Gem>> {
    tiles.subrange(x * 5, x * 5 + 5)
}

/// The lowest vacant row of a column; the column's height if no row is
/// vacant.
pub open spec fn lowest_gap(col: Seq<Option<Gem>>) -> int
    decreases col.len(),
{
    if col.len() == 0 {
        0
    } else {
        let below = lowest_gap(col.drop_last());
        if below < col.len() - 1 {
            below
        } else if col.last() is None {
            col.len() - 1
        } else {
            col.len() as int
        }
    }
}

/// Whether `fall` is what happens at row `y` of column `x`: below the
/// number of the column's gems, the gem that has `y` gems below it comes
/// down from its row; from there on, new gems come in, the lowest of them
/// starting one row above the top.
pub open spec fn is_fall(col: Seq<Option<Gem>>, x: int, y: int, fall: Fall) -> bool {
    let gems = gems_of(col);
    &&& fall.tile == tile_handle(x, y)
    &&& if y < gems.len() {
        &&& fall.gem matches FallingGem::Existing { gem, from }
        &&& y < from < col.len()
        &&& col[from as int] == Some(gems[y])
        &&& gem == gems[y].id
        &&& fall.rows == from - y
    } else {
        &&& fall.gem == (FallingGem::New { height: (y - gems.len() + 1) as u8 })
        &&& fall.rows == col.len() - gems.len()
    }
}

/// Whether the falls are those of column `x`: one for each row from the
/// lowest vacant row upwards, in that order.
pub open spec fn is_plan(col: Seq<Option<Gem>>, x: int, falls: Seq<Fall>) -> bool {
    &&& falls.len() == col.len() - lowest_gap(col)
    &&& forall|k: int|
        0 <= k < falls.len() ==> is_fall(col, x, lowest_gap(col) + k, #[trigger] falls[k])
}

/// Whether the falls are those of the first `columns` columns, column after
/// column.
pub open spec fn is_plan_upto(tiles: Seq<Option<Gem>>, falls: Seq<Fall>, columns: int) -> bool
    decreases columns,
{
    if columns <= 0 {
        falls.len() == 0
    } else {
        let count = 5 - lowest_gap(column(tiles, columns - 1));
        &&& falls.len() >= count
        &&& is_plan_upto(tiles, falls.take(falls.len() - count), columns - 1)
        &&& is_plan(column(tiles, columns - 1), columns - 1, falls.skip(falls.len() - count))
    }
}

/// Whether the gems of the supply differ in their ids from each other and
/// from every gem of the tiles.
pub open spec fn fresh_supply(tiles: Seq<Option<Gem>>, supply: Seq<Gem>) -> bool {
    &&& forall|i: int, j: int|
        0 <= i < supply.len() && 0 <= j < supply.len() && i != j ==> (#[trigger] supply[i]).id != (
        #[trigger] supply[j]).id
    &&& forall|i: int, t: int|
        0 <= i < supply.len() && 0 <= t < tiles.len() && tiles[t] is Some ==> (
        #[trigger] supply[i]).id != (#[trigger] tiles[t])->0.id
}

/// How many falls the first `columns` columns have together.
pub open spec fn fall_total(tiles: Seq<Option<Gem>>, columns: int) -> int
    decreases columns,
{
    if columns <= 0 {
        0
    } else {
        fall_total(tiles, columns - 1) + 5 - lowest_gap(column(tiles, columns - 1))
    }
}

/// The falls of the first columns are as many as their total says.
pub proof fn plan_has_total(tiles: Seq<Option<Gem>>, falls: Seq<Fall>, columns: int)
    requires
        tiles.len() == 30,
        columns <= 6,
        is_plan_upto(tiles, falls, columns),
    ensures
        falls.len() == fall_total(tiles, columns),
    decreases columns,
{
    if columns > 0 {
        let count = 5 - lowest_gap(column(tiles, columns - 1));
        lowest_gap_is_lowest(column(tiles, columns - 1));
        plan_has_total(tiles, falls.take(falls.len() - count), columns - 1);
    }
}

/// The first columns have at least one fall for each of their vacant tiles,
/// and there are no more falls than tiles.
pub proof fn total_covers_vacancies(tiles: Seq<Option<Gem>>, columns: int)
    requires
        tiles.len() == 30,
        0 <= columns <= 6,
    ensures
        vacancies(tiles.take(columns * 5)) <= fall_total(tiles, columns) <= columns * 5,
    decreases columns,
{
    if columns > 0 {
        total_covers_vacancies(tiles, columns - 1);
        vacancies_by_column(tiles, columns - 1);
        lowest_gap_is_lowest(column(tiles, columns - 1));
    } else {
        assert(tiles.take(0) =~= Seq::<Option<Gem>>::empty());
    }
}

/// A column after its gems have settled: its gems at the bottom, in their
/// order, and above them new gems, which are taken from the supply one
/// after the other, starting with the gem at `spawned`.
pub open spec fn settled_column(col: Seq<Option<Gem>>, supply: Seq<Gem>, spawned: int) -> Seq<
    Option<Gem>,
> {
    let gems = gems_of(col);
    Seq::new(
        col.len(),
        |y: int|
            if y < gems.len() {
                Some(gems[y])
            } else {
                Some(supply[spawned + y - gems.len()])
            },
    )
}

/// The grid after every column has settled. New gems are taken from the
/// supply column after column and, within a column, from the bottom.
pub open spec fn settled(tiles: Seq<Option<Gem>>, supply: Seq<Gem>) -> Seq<Option<Gem>> {
    Seq::new(
        30,
        |t: int| settled_column(column(tiles, t / 5), supply, vacancies(tiles.take(t / 5 * 5)))[t % 5],
    )
}

/// How many of the falls bring a new gem.
pub open spec fn new_count(falls: Seq<Fall>) -> int
    decreases falls.len(),
{
    if falls.len() == 0 {
        0
    } else {
        new_count(falls.drop_last()) + if falls.last().gem is New {
            1int
        } else {
            0int
        }
    }
}

/// Below the lowest vacant row all rows hold gems, and that row itself is
/// vacant.
pub proof fn lowest_gap_is_lowest(col: Seq<Option<Gem>>)
    ensures
        0 <= lowest_gap(col) <= col.len(),
        forall|r: int| 0 <= r < lowest_gap(col) ==> (#[trigger] col[r]) is Some,
        lowest_gap(col) < col.len() ==> col[lowest_gap(col)] is None,
        lowest_gap(col) <= gems_of(col).len(),
        lowest_gap(col) == col.len() <==> vacancies(col) == 0,
    decreases col.len(),
{
    if col.len() > 0 {
        let rest = col.drop_last();
        lowest_gap_is_lowest(rest);
        gems_fit(rest);
        assert forall|r: int| 0 <= r < lowest_gap(col) implies (#[trigger] col[r]) is Some by {
            if r < rest.len() {
                assert(rest[r] == col[r]);
            }
        }
    }
}

/// The gems of tiles laid end to end are the gems of the first followed by
/// the gems of the second.
pub proof fn gems_of_joined(a: Seq<Option<Gem>>, b: Seq<Option<Gem>>)
    ensures
        gems_of(a + b) == gems_of(a) + gems_of(b),
        vacancies(a + b) == vacancies(a) + vacancies(b),
    decreases b.len(),
{
    if b.len() == 0 {
        assert(a + b =~= a);
        assert(gems_of(a) + gems_of(b) =~= gems_of(a));
    } else {
        gems_of_joined(a, b.drop_last());
        assert((a + b).drop_last() =~= a + b.drop_last());
        assert((a + b).last() == b.last());
        match b.last() {
            Some(gem) => {
                assert(gems_of(a + b) =~= gems_of(a) + gems_of(b));
            },
            None => {},
        }
    }
}

/// The columns up to and with column `x` have the vacancies of the columns
/// before it and its own.
pub proof fn vacancies_by_column(tiles: Seq<Option<Gem>>, x: int)
    requires
        tiles.len() == 30,
        0 <= x < 6,
    ensures
        vacancies(tiles.take((x + 1) * 5)) == vacancies(tiles.take(x * 5)) + vacancies(
            column(tiles, x),
        ),
        0 <= vacancies(tiles.take(x * 5)),
        vacancies(tiles.take((x + 1) * 5)) <= vacancies(tiles),
{
    assert(tiles.take((x + 1) * 5) =~= tiles.take(x * 5) + column(tiles, x));
    gems_of_joined(tiles.take(x * 5), column(tiles, x));
    gems_fit(tiles.take(x * 5));
    assert(tiles =~= tiles.take((x + 1) * 5) + tiles.skip((x + 1) * 5));
    gems_of_joined(tiles.take((x + 1) * 5), tiles.skip((x + 1) * 5));
    gems_fit(tiles.skip((x + 1) * 5));
}

/// Where a gem of a column sat: the row of the gem that has `i` gems below
/// it.
pub proof fn gem_origin(col: Seq<Option<Gem>>, i: int) -> (row: int)
    requires
        0 <= i < gems_of(col).len(),
    ensures
        i <= row < col.len(),
        col[row] == Some(gems_of(col)[i]),
        gems_of(col.take(row)).len() == i,
    decreases col.len(),
{
    let rest = col.drop_last();
    gems_fit(rest);
    if col.last() is Some && i == gems_of(rest).len() {
        assert(col.take(col.len() - 1) =~= rest);
        col.len() - 1
    } else {
        let row = gem_origin(rest, i);
        assert(rest.take(row) =~= col.take(row));
        row
    }
}

/// Settling keeps the gems apart: when no two gems of the grid share an
/// id, and the supply is fresh and large enough, no two gems of the settled
/// grid share an id, and every tile of it holds a gem.
pub proof fn settled_is_distinct(tiles: Seq<Option<Gem>>, supply: Seq<Gem>)
    requires
        tiles.len() == 30,
        distinct_gems(tiles),
        fresh_supply(tiles, supply),
        vacancies(tiles) <= supply.len(),
    ensures
        settled(tiles, supply).len() == 30,
        distinct_gems(settled(tiles, supply)),
        forall|t: int| 0 <= t < 30 ==> (#[trigger] settled(tiles, supply)[t]) is Some,
{
    let after = settled(tiles, supply);
    assert forall|a: int, b: int|
        0 <= a < 30 && 0 <= b < 30 && a != b && after[a] is Some && after[b] is Some implies (
    #[trigger] after[a])->0.id != (#[trigger] after[b])->0.id by {
        settled_apart(tiles, supply, a, b);
    }
}

/// Where the gem of a tile of the settled grid comes from: for a gem of the
/// grid, the handle of the tile where it sat; for a new gem, thirty plus
/// its place in the supply.
pub proof fn settled_source(tiles: Seq<Option<Gem>>, supply: Seq<Gem>, t: int) -> (source: int)
    requires
        tiles.len() == 30,
        vacancies(tiles) <= supply.len(),
        0 <= t < 30,
    ensures
        0 <= source < 30 + vacancies(tiles),
        source < 30 ==> tiles[source] == settled(tiles, supply)[t] && tiles[source] is Some
            && source / 5 == t / 5 && gems_of(column(tiles, t / 5).take(source % 5)).len() == t % 5
            && t % 5 < gems_of(column(tiles, t / 5)).len(),
        source >= 30 ==> settled(tiles, supply)[t] == Some(supply[source - 30]) && source - 30
            == vacancies(tiles.take(t / 5 * 5)) + t % 5 - gems_of(column(tiles, t / 5)).len() && t
            % 5 >= gems_of(column(tiles, t / 5)).len(),
{
    let x = t / 5;
    let y = t % 5;
    let col = column(tiles, x);
    vacancies_by_column(tiles, x);
    gems_fit(col);
    gems_fit(tiles);
    if y < gems_of(col).len() {
        let row = gem_origin(col, y);
        assert(col[row] == tiles[x * 5 + row]);
        x * 5 + row
    } else {
        30 + vacancies(tiles.take(x * 5)) + y - gems_of(col).len()
    }
}

/// The columns before a later column have no more vacancies than the
/// columns before it.
proof fn vacancies_grow(tiles: Seq<Option<Gem>>, x: int, later: int)
    requires
        tiles.len() == 30,
        0 <= x <= later <= 6,
    ensures
        vacancies(tiles.take(x * 5)) <= vacancies(tiles.take(later * 5)),
    decreases later - x,
{
    if x < later {
        vacancies_by_column(tiles, later - 1);
        gems_fit(column(tiles, later - 1));
        vacancies_grow(tiles, x, later - 1);
    }
}

/// Two tiles of the settled grid hold gems with different ids.
proof fn settled_apart(tiles: Seq<Option<Gem>>, supply: Seq<Gem>, a: int, b: int)
    requires
        tiles.len() == 30,
        distinct_gems(tiles),
        fresh_supply(tiles, supply),
        vacancies(tiles) <= supply.len(),
        0 <= a < 30,
        0 <= b < 30,
        a != b,
    ensures
        settled(tiles, supply)[a] is Some,
        settled(tiles, supply)[b] is Some,
        settled(tiles, supply)[a]->0.id != settled(tiles, supply)[b]->0.id,
{
    let from_a = settled_source(tiles, supply, a);
    let from_b = settled_source(tiles, supply, b);
    if from_a < 30 && from_b < 30 {
        if from_a == from_b {
            assert(a / 5 == b / 5);
            assert(a % 5 == b % 5);
        }
    } else if from_a >= 30 && from_b >= 30 {
        let xa = a / 5;
        let xb = b / 5;
        if xa < xb {
            vacancies_by_column(tiles, xa);
            vacancies_grow(tiles, xa + 1, xb);
        } else if xb < xa {
            vacancies_by_column(tiles, xb);
            vacancies_grow(tiles, xb + 1, xa);
        }
        assert(from_a != from_b);
    } else if from_a < 30 {
        assert(supply[from_b - 30].id != tiles[from_a]->0.id);
    } else {
        assert(supply[from_a - 30].id != tiles[from_b]->0.id);
    }
}

/// Settles one column: the tiles it has afterwards, the falls that lead
/// there, and the count of new gems with its own added.
fn settle_column(grid: &Grid, x: usize, supply: &Vec<Gem>, spawned: usize) -> (result: (
    Vec<Option<Gem>>,
    Vec<Fall>,
    usize,
))
    requires
        grid.wf(),
        x < WIDTH,
        spawned + vacancies(column(grid@, x as int)) <= supply@.len(),
    ensures
        result.0@ == settled_column(column(grid@, x as int), supply@, spawned as int),
        is_plan(column(grid@, x as int), x as int, result.1@),
        result.2 == spawned + vacancies(column(grid@, x as int)),
{
    let ghost col = column(grid@, x as int);
    assert(col.len() == HEIGHT);
    let mut found: Vec<Gem> = Vec::new();
    let mut rows: Vec<usize> = Vec::new();
    let mut gap: usize = HEIGHT;
    let mut y: usize = 0;
    while y < HEIGHT
        invariant
            grid.wf(),
            x < WIDTH,
            col == column(grid@, x as int),
            col.len() == HEIGHT,
            y <= HEIGHT,
            found@ == gems_of(col.take(y as int)),
            rows@.len() == found@.len(),
            found@.len() <= y,
            forall|i: int|
                0 <= i < found@.len() ==> i <= (#[trigger] rows@[i]) < y && col[rows@[i] as int]
                    == Some(found@[i]),
            forall|i: int| gap <= i < found@.len() ==> i < #[trigger] rows@[i],
            gap <= HEIGHT,
            gap == HEIGHT ==> lowest_gap(col.take(y as int)) == y,
            gap < HEIGHT ==> gap < y && lowest_gap(col.take(y as int)) == gap && found@.len() < y,
        decreases HEIGHT - y,
    {
        let cell = grid.gem_of(tile_at(x, y));
        proof {
            assert(col[y as int] == grid@[tile_handle(x as int, y as int)]);
            gems_of_next(col, y as int);
            assert(col.take(y + 1).drop_last() =~= col.take(y as int));
        }
        match cell {
            Some(gem) => {
                found.push(gem);
                rows.push(y);
            },
            None => {
                if gap == HEIGHT {
                    gap = y;
                }
            },
        }
        y += 1;
    }
    proof {
        assert(col.take(HEIGHT as int) =~= col);
        lowest_gap_is_lowest(col);
        gems_fit(col);
        assert(vacancies(col) == HEIGHT - found@.len());
    }
    let count = found.len();
    let available = supply.len();
    let mut cells: Vec<Option<Gem>> = Vec::new();
    let mut falls: Vec<Fall> = Vec::new();
    let ghost after = settled_column(col, supply@, spawned as int);
    y = 0;
    while y < HEIGHT
        invariant
            x < WIDTH,
            col.len() == HEIGHT,
            y <= HEIGHT,
            found@ == gems_of(col),
            count == found@.len(),
            count <= HEIGHT,
            rows@.len() == found@.len(),
            forall|i: int|
                0 <= i < found@.len() ==> i <= (#[trigger] rows@[i]) < HEIGHT
                    && col[rows@[i] as int] == Some(found@[i]),
            forall|i: int| gap <= i < found@.len() ==> i < #[trigger] rows@[i],
            gap == lowest_gap(col),
            gap <= count,
            available == supply@.len(),
            spawned + (HEIGHT - count) <= available,
            after == settled_column(col, supply@, spawned as int),
            cells@ == after.take(y as int),
            falls@.len() == if y <= gap {
                0
            } else {
                y - gap
            },
            forall|k: int| 0 <= k < falls@.len() ==> is_fall(col, x as int, gap + k, #[trigger] falls@[k]),
        decreases HEIGHT - y,
    {
        let tile = tile_at(x, y);
        if y < count {
            let gem = found[y];
            cells.push(Some(gem));
            if y >= gap {
                let from = rows[y];
                falls.push(Fall { tile, gem: FallingGem::Existing { gem: gem.id, from }, rows: from - y });
            }
        } else {
            let gem = supply[spawned + (y - count)];
            cells.push(Some(gem));
            falls.push(
                Fall {
                    tile,
                    gem: FallingGem::New { height: (y - count + 1) as u8 },
                    rows: HEIGHT - count,
                },
            );
        }
        proof {
            assert(cells@ =~= after.take(y + 1));
        }
        y += 1;
    }
    proof {
        assert(cells@ =~= after);
    }
    (cells, falls, spawned + (HEIGHT - count))
}

/// Lets the gems of every column fall and fills what stays vacant with new
/// gems.
///
/// The new gems are taken from `supply`, in the order in which they are
/// needed: column after column and, within a column, from the bottom. What
/// comes back is the grid afterwards and the falls that lead to it, column
/// after column.
pub fn settle(grid: &Grid, supply: &Vec<Gem>) -> (result: (Grid, Vec<Fall>))
    requires
        grid.wf(),
        vacancies(grid@) <= supply@.len(),
        fresh_supply(grid@, supply@),
    ensures
        result.0.wf(),
        result.0.complete(),
        result.0@ == settled(grid@, supply@),
        is_plan_upto(grid@, result.1@, 6),
        new_count(result.1@) == vacancies(grid@),
        result.1@.len() == fall_total(grid@, 6),
        result.1@.len() >= vacancies(grid@),
{
    let ghost after = settled(grid@, supply@);
    let mut tiles: Vec<Option<Gem>> = Vec::new();
    let mut falls: Vec<Fall> = Vec::new();
    let mut spawned: usize = 0;
    let mut x: usize = 0;
    proof {
        assert(grid@.take(0) =~= Seq::empty());
    }
    while x < WIDTH
        invariant
            grid.wf(),
            x <= WIDTH,
            vacancies(grid@) <= supply@.len(),
            spawned == vacancies(grid@.take(x * 5)),
            after == settled(grid@, supply@),
            tiles@ == after.take(x * 5),
            is_plan_upto(grid@, falls@, x as int),
            new_count(falls@) == spawned,
        decreases WIDTH - x,
    {
        proof {
            vacancies_by_column(grid@, x as int);
        }
        let (cells, column_falls, next) = settle_column(grid, x, supply, spawned);
        let ghost tiles_before = tiles@;
        let ghost falls_before = falls@;
        let mut y: usize = 0;
        while y < HEIGHT
            invariant
                y <= HEIGHT,
                cells@.len() == HEIGHT,
                tiles@ == tiles_before + cells@.take(y as int),
            decreases HEIGHT - y,
        {
            tiles.push(cells[y]);
            proof {
                assert(tiles@ =~= tiles_before + cells@.take(y + 1));
            }
            y += 1;
        }
        let mut k: usize = 0;
        while k < column_falls.len()
            invariant
                k <= column_falls@.len(),
                falls@ == falls_before + column_falls@.take(k as int),
            decreases column_falls@.len() - k,
        {
            falls.push(column_falls[k]);
            proof {
                assert(falls@ =~= falls_before + column_falls@.take(k + 1));
            }
            k += 1;
        }
        proof {
            assert(cells@.take(HEIGHT as int) =~= cells@);
            assert(column_falls@.take(column_falls@.len() as int) =~= column_falls@);
            assert(tiles@ =~= after.take((x + 1) * 5)) by {
                assert forall|t: int| 0 <= t < (x + 1) * 5 implies tiles@[t] == after[t] by {
                    if t >= x * 5 {
                        assert(t / 5 == x as int);
                        assert(t / 5 * 5 == x * 5);
                    }
                }
            }
            lowest_gap_is_lowest(column(grid@, x as int));
            assert(falls@.take(falls@.len() - column_falls@.len()) =~= falls_before);
            assert(falls@.skip(falls@.len() - column_falls@.len()) =~= column_falls@);
            plan_counts(column(grid@, x as int), x as int, column_falls@);
            new_count_joined(falls_before, column_falls@);
        }
        spawned = next;
        x += 1;
    }
    proof {
        assert(grid@.take(30) =~= grid@);
        assert(tiles@ =~= after);
        settled_is_distinct(grid@, supply@);
        new_count_fits(falls@);
        plan_has_total(grid@, falls@, 6);
    }
    let after_grid = Grid::from_tiles(tiles);
    (after_grid, falls)
}

/// No more falls bring a new gem than there are falls.
pub proof fn new_count_fits(falls: Seq<Fall>)
    ensures
        0 <= new_count(falls) <= falls.len(),
    decreases falls.len(),
{
    if falls.len() > 0 {
        new_count_fits(falls.drop_last());
    }
}

/// The falls of one column followed by those of another bring as many new
/// gems as both together.
pub proof fn new_count_joined(a: Seq<Fall>, b: Seq<Fall>)
    ensures
        new_count(a + b) == new_count(a) + new_count(b),
    decreases b.len(),
{
    if b.len() == 0 {
        assert(a + b =~= a);
    } else {
        new_count_joined(a, b.drop_last());
        assert((a + b).drop_last() =~= a + b.drop_last());
    }
}

/// How many falls a column has, and how many of them bring a new gem:
/// there is one fall for each row from the lowest vacant row upwards, and
/// one new gem for each vacant row.
pub proof fn plan_counts(col: Seq<Option<Gem>>, x: int, falls: Seq<Fall>)
    requires
        is_plan(col, x, falls),
    ensures
        falls.len() == col.len() - lowest_gap(col),
        new_count(falls) == vacancies(col),
        falls.len() - new_count(falls) == gems_of(col).len() - lowest_gap(col),
{
    lowest_gap_is_lowest(col);
    gems_fit(col);
    new_count_upto(col, x, falls, falls.len() as int);
    assert(falls.take(falls.len() as int) =~= falls);
}

/// Among the first `n` falls of a column, those past the column's gems
/// bring new gems.
proof fn new_count_upto(col: Seq<Option<Gem>>, x: int, falls: Seq<Fall>, n: int)
    requires
        is_plan(col, x, falls),
        0 <= n <= falls.len(),
    ensures
        new_count(falls.take(n)) == if lowest_gap(col) + n <= gems_of(col).len() {
            0
        } else {
            lowest_gap(col) + n - gems_of(col).len()
        },
    decreases n,
{
    lowest_gap_is_lowest(col);
    if n > 0 {
        new_count_upto(col, x, falls, n - 1);
        assert(falls.take(n).drop_last() =~= falls.take(n - 1));
        assert(falls.take(n).last() == falls[n - 1]);
        assert(is_fall(col, x, lowest_gap(col) + n - 1, falls[n - 1]));
    }
}

/// In a column that is all vacant or has no vacant tile, there is one fall
/// for each vacant tile, and the new gems among them number the vacant
/// tiles less the gems that remain, or none where more gems remain than
/// tiles are vacant. (With gems above a vacant tile the gems that slide
/// down get a fall each as well, and their tiles a new gem in turn.)
pub proof fn fall_conservation(col: Seq<Option<Gem>>, x: int, falls: Seq<Fall>)
    requires
        is_plan(col, x, falls),
        vacancies(col) == 0 || gems_of(col).len() == 0,
    ensures
        falls.len() == vacancies(col),
        new_count(falls) == if vacancies(col) >= gems_of(col).len() {
            vacancies(col) - gems_of(col).len()
        } else {
            0
        },
{
    plan_counts(col, x, falls);
    lowest_gap_is_lowest(col);
    gems_fit(col);
}

} // verus!
