//! The board: its grid, the drag of a gem across it, and the cycle of
//! matching and falling that follows a drag.
//!
//! A board is in one of six states. It rests in `Inactive` until it is
//! activated, and then waits in `Ready` for the player to pick up a gem.
//! While the gem is dragged the board is `Swapping`. When the gem is let go
//! after at least one swap, the board looks for matches and is `Matching`:
//! the matched gems are destroyed, and the board waits until each of them
//! has been reported as gone. If there was no match, the board waits for
//! nothing and comes to `End` with its next step. Otherwise the remaining
//! gems fall, new ones come in, and the board is `Falling` until each
//! falling gem has been reported as landed, after which it looks for
//! matches again.

use crate::element::Element;
use crate::fall::fall_total;
use crate::fall::fresh_supply;
use crate::fall::settle;
use crate::fall::settled;
use crate::fall::Fall;
use crate::grid::distinct_gems;
use crate::grid::full_means_no_vacancy;
use crate::grid::gems_fit;
use crate::grid::gems_of_next;
use crate::grid::vacancies;
use crate::grid::Gem;
use crate::grid::Grid;
use crate::matching::find_matches;
use crate::matching::in_triple;
use crate::matching::is_detection;
use crate::matching::is_group;
use crate::matching::matched;
use crate::matching::triple;
use crate::matching::Match;
use crate::pointer::closest_is_nearest;
use crate::pointer::closest_tile;
use crate::pointer::is_closest;
use crate::pointer::nearest;
use vstd::prelude::*;

verus! {

/// The state of a board.
#[derive(Debug, Hash, Clone, Copy, PartialEq, Eq, Structural)]
pub enum BoardState {
    /// The board is not in play.
    Inactive,
    /// The board waits for the player to pick up a gem.
    Ready,
    /// The player drags a gem.
    Swapping,
    /// Matched gems are being destroyed.
    Matching,
    /// Gems are falling into vacant tiles.
    Falling,
    /// The drag and all that followed from it are over.
    End,
}

/// How long a drag may last from the moment the gem is picked up, in
/// microseconds.
pub const DRAG_LIMIT: u64 = 9_000_000;

/// A drag in progress.
#[derive(Debug, Clone, Copy, PartialEq, Eq, Structural)]
pub struct Swapping {
    /// How many swaps the drag has made.
    pub swaps: u32,
    /// The id of the gem that is dragged.
    pub gem: u64,
    /// The tile from which the gem was picked up.
    pub origin: u64,
    /// The tile in which the gem sits now.
    pub current_tile: u64,
    /// The microseconds that are left before the gem drops by itself.
    pub remaining: u64,
}

/// A gem that a match has destroyed, and the tile in which it sat.
#[derive(Debug, Clone, Copy, PartialEq, Eq, Structural)]
pub struct Destroyed {
    pub tile: u64,
    pub gem: Gem,
}

/// What a board is made of.
pub struct BoardView {
    /// What each tile holds.
    pub tiles: Seq<Option<Gem>>,
    /// The state of the board.
    pub state: BoardState,
    /// The drag in progress, if there is one.
    pub swapping: Option<Swapping>,
    /// How many reports the board waits for before it moves on.
    pub waiting_for: nat,
    /// The gems that the last matches destroyed, by ascending tile.
    pub doomed: Seq<Gem>,
}

/// The same gem, held or not.
pub open spec fn with_holding(gem: Gem, holding: bool) -> Gem {
    Gem { id: gem.id, element: gem.element, holding }
}

/// The tiles with every matched tile vacated.
pub open spec fn vacated(tiles: Seq<Option<Gem>>) -> Seq<Option<Gem>> {
    Seq::new(
        tiles.len(),
        |t: int|
            if matched(tiles, t) {
                None
            } else {
                tiles[t]
            },
    )
}

/// The gems of the matched tiles among the first `count` tiles, by
/// ascending tile.
pub open spec fn destroyed_upto(tiles: Seq<Option<Gem>>, count: int) -> Seq<Destroyed>
    decreases count,
{
    if count <= 0 {
        Seq::empty()
    } else if matched(tiles, count - 1) && tiles[count - 1] is Some {
        destroyed_upto(tiles, count - 1).push(
            Destroyed { tile: (count - 1) as u64, gem: tiles[count - 1]->0 },
        )
    } else {
        destroyed_upto(tiles, count - 1)
    }
}

/// The gems of a list of destroyed gems.
pub open spec fn gems_only(destroyed: Seq<Destroyed>) -> Seq<Gem> {
    Seq::new(destroyed.len(), |i: int| destroyed[i].gem)
}

/// New gems that take over the ids of destroyed gems, with the given
/// elements.
pub open spec fn reborn(doomed: Seq<Gem>, elements: Seq<Element>) -> Seq<Gem> {
    Seq::new(
        doomed.len(),
        |i: int| Gem { id: doomed[i].id, element: elements[i], holding: false },
    )
}

/// Whether the parts of a board fit together.
///
/// No two gems share an id. Tiles are vacant only while the board is
/// `Matching`, and then the destroyed gems are as many as the vacant tiles;
/// while any of them is outstanding, the board waits for at least one
/// report.
/// A drag is in progress exactly while the board is `Swapping`; the dragged
/// gem sits in the drag's current tile and is the only gem that is held;
/// and a drag without a swap has its gem in the tile where it was picked
/// up. The board waits for reports only while `Matching` or `Falling`.
pub open spec fn board_wf(v: BoardView) -> bool {
    &&& v.tiles.len() == 30
    &&& distinct_gems(v.tiles)
    &&& fresh_supply(v.tiles, v.doomed)
    &&& v.doomed.len() == vacancies(v.tiles)
    &&& v.state != BoardState::Matching ==> v.doomed.len() == 0
    &&& v.state == BoardState::Matching ==> v.waiting_for <= v.doomed.len() && (v.doomed.len() > 0
        ==> 1 <= v.waiting_for)
    &&& v.state == BoardState::Falling ==> 1 <= v.waiting_for
    &&& v.state != BoardState::Matching && v.state != BoardState::Falling ==> v.waiting_for == 0
    &&& v.waiting_for <= usize::MAX
    &&& v.state == BoardState::Swapping <==> v.swapping is Some
    &&& match v.swapping {
        Some(drag) => {
            &&& drag.current_tile < 30
            &&& drag.origin < 30
            &&& v.tiles[drag.current_tile as int] is Some
            &&& v.tiles[drag.current_tile as int]->0.id == drag.gem
            &&& v.tiles[drag.current_tile as int]->0.holding
            &&& drag.swaps == 0 ==> drag.current_tile == drag.origin
        },
        None => true,
    }
    &&& forall|t: int|
        0 <= t < 30 && (#[trigger] v.tiles[t]) is Some && v.tiles[t]->0.holding ==> v.swapping is Some
            && v.swapping->0.current_tile == t
}

/// The board after it was asked to become ready: a board that is `Inactive`
/// or at its `End` becomes `Ready`; any other stays as it is.
pub open spec fn activated(v: BoardView) -> BoardView {
    if v.state == BoardState::Inactive || v.state == BoardState::End {
        BoardView { state: BoardState::Ready, ..v }
    } else {
        v
    }
}

/// The board after the drag, if there is one, has let its gem go: the gem
/// is no longer held and stays in the tile where it is.
pub open spec fn let_go(v: BoardView) -> BoardView {
    match v.swapping {
        Some(drag) => BoardView {
            tiles: v.tiles.update(
                drag.current_tile as int,
                Some(with_holding(v.tiles[drag.current_tile as int]->0, false)),
            ),
            swapping: None,
            ..v
        },
        None => v,
    }
}

/// The board after it was asked to stop: it becomes `Inactive`, and a drag
/// in progress lets its gem go. A board with vacant tiles, which is a
/// `Matching` board whose destroyed gems are outstanding, cannot stop and
/// stays as it is: a board at rest must be able to become `Ready`, and a
/// `Ready` board has every tile filled.
pub open spec fn stopped(v: BoardView) -> BoardView {
    if v.state == BoardState::Matching && v.doomed.len() > 0 {
        v
    } else {
        BoardView { state: BoardState::Inactive, waiting_for: 0, ..let_go(v) }
    }
}

/// The board after the player has tried to pick up the gem of a tile: on a
/// `Ready` board the gem of a tile of the grid is held from then on and a
/// drag without swaps begins; otherwise nothing changes.
pub open spec fn picked_up(v: BoardView, tile: int) -> BoardView {
    if v.state == BoardState::Ready && 0 <= tile < 30 && v.tiles[tile] is Some {
        BoardView {
            tiles: v.tiles.update(tile, Some(with_holding(v.tiles[tile]->0, true))),
            state: BoardState::Swapping,
            swapping: Some(
                Swapping {
                    swaps: 0,
                    gem: v.tiles[tile]->0.id,
                    origin: tile as u64,
                    current_tile: tile as u64,
                    remaining: DRAG_LIMIT,
                },
            ),
            ..v
        }
    } else {
        v
    }
}

/// The count of swaps after one more; it stays at the largest number that
/// it can hold.
pub open spec fn one_more(swaps: u32) -> u32 {
    if swaps < u32::MAX {
        (swaps + 1) as u32
    } else {
        swaps
    }
}

/// The board after the dragged gem has come closest to a tile: if that is
/// another tile of the grid than the one where it sits, the two tiles
/// exchange what they hold and the drag counts one more swap; otherwise
/// nothing changes.
pub open spec fn dragged(v: BoardView, closest: int) -> BoardView {
    match v.swapping {
        Some(drag) => if 0 <= closest < 30 && closest != drag.current_tile {
            BoardView {
                tiles: v.tiles.update(closest, v.tiles[drag.current_tile as int]).update(
                    drag.current_tile as int,
                    v.tiles[closest],
                ),
                swapping: Some(
                    Swapping {
                        swaps: one_more(drag.swaps),
                        gem: drag.gem,
                        origin: drag.origin,
                        current_tile: closest as u64,
                        remaining: drag.remaining,
                    },
                ),
                ..v
            }
        } else {
            v
        },
        None => v,
    }
}

/// The board after time has passed: a drag in progress has that much less
/// time left, down to none, whether or not it has made a swap; without a
/// drag nothing changes.
pub open spec fn ticked(v: BoardView, elapsed: int) -> BoardView {
    match v.swapping {
        Some(drag) => BoardView {
            swapping: Some(
                Swapping {
                    swaps: drag.swaps,
                    gem: drag.gem,
                    origin: drag.origin,
                    current_tile: drag.current_tile,
                    remaining: if drag.remaining >= elapsed {
                        (drag.remaining - elapsed) as u64
                    } else {
                        0
                    },
                },
            ),
            ..v
        },
        None => v,
    }
}

/// The board after it has looked for matches: every matched tile is
/// vacated, the board is `Matching` and waits for one report per destroyed
/// gem, which is for none where nothing matched.
pub open spec fn resolved(v: BoardView) -> BoardView {
    let destroyed = destroyed_upto(v.tiles, 30);
    BoardView {
        tiles: vacated(v.tiles),
        state: BoardState::Matching,
        waiting_for: destroyed.len(),
        doomed: gems_only(destroyed),
        swapping: v.swapping,
    }
}

/// The board after the matching was given the chance to end: a `Matching`
/// board that waits for nothing, because nothing matched, comes to its
/// `End`; any other board stays as it is.
pub open spec fn finished(v: BoardView) -> BoardView {
    if v.state == BoardState::Matching && v.waiting_for == 0 {
        BoardView { state: BoardState::End, ..v }
    } else {
        v
    }
}

/// The board after the dragged gem was dropped: without a drag nothing
/// changes; a drag without a swap ends with the board `Ready` again; any
/// other drag ends with the board looking for matches.
pub open spec fn dropped(v: BoardView) -> BoardView {
    match v.swapping {
        Some(drag) => if drag.swaps == 0 {
            BoardView { state: BoardState::Ready, ..let_go(v) }
        } else {
            resolved(BoardView { state: BoardState::Ready, ..let_go(v) })
        },
        None => v,
    }
}

/// The board after gems have fallen into the vacant tiles: the grid has
/// settled, with new gems that take over the ids of the destroyed gems and
/// have the given elements; the board is `Falling` and waits for one report
/// per fall.
pub open spec fn refilled(v: BoardView, elements: Seq<Element>) -> BoardView {
    BoardView {
        tiles: settled(v.tiles, reborn(v.doomed, elements)),
        state: BoardState::Falling,
        swapping: v.swapping,
        waiting_for: fall_total(v.tiles, 6) as nat,
        doomed: Seq::empty(),
    }
}

/// The board after one destroyed gem was reported as gone: a `Matching`
/// board that waits for reports waits for one less, and with the last
/// report its gems fall; any other board stays as it is.
pub open spec fn gem_gone(v: BoardView, elements: Seq<Element>) -> BoardView {
    if v.state == BoardState::Matching && v.waiting_for > 0 {
        if v.waiting_for > 1 {
            BoardView { waiting_for: (v.waiting_for - 1) as nat, ..v }
        } else {
            refilled(v, elements)
        }
    } else {
        v
    }
}

/// The board after one falling gem was reported as landed: a `Falling`
/// board waits for one report less, and with the last report it looks for
/// matches again; any other board stays as it is.
pub open spec fn gem_landed(v: BoardView) -> BoardView {
    if v.state == BoardState::Falling {
        if v.waiting_for > 1 {
            BoardView { waiting_for: (v.waiting_for - 1) as nat, ..v }
        } else {
            resolved(BoardView { waiting_for: 0, ..v })
        }
    } else {
        v
    }
}

/// What the destroyed gems are: each sat in a matched tile among the first
/// `count`, and they are listed by ascending tile.
pub proof fn destroyed_facts(tiles: Seq<Option<Gem>>, count: int)
    requires
        0 <= count <= tiles.len(),
    ensures
        destroyed_upto(tiles, count).len() <= count,
        forall|i: int|
            0 <= i < destroyed_upto(tiles, count).len() ==> {
                let entry = #[trigger] destroyed_upto(tiles, count)[i];
                &&& entry.tile < count
                &&& matched(tiles, entry.tile as int)
                &&& tiles[entry.tile as int] == Some(entry.gem)
            },
        forall|i: int, j: int|
            0 <= i < j < destroyed_upto(tiles, count).len() ==> (#[trigger] destroyed_upto(
                tiles,
                count,
            )[i]).tile < (#[trigger] destroyed_upto(tiles, count)[j]).tile,
        forall|t: int|
            0 <= t < count && matched(tiles, t) && tiles[t] is Some ==> exists|i: int|
                0 <= i < destroyed_upto(tiles, count).len() && (#[trigger] destroyed_upto(
                    tiles,
                    count,
                )[i]).tile == t,
    decreases count,
{
    if count > 0 {
        destroyed_facts(tiles, count - 1);
        let before = destroyed_upto(tiles, count - 1);
        let now = destroyed_upto(tiles, count);
        assert forall|t: int|
            0 <= t < count && matched(tiles, t) && tiles[t] is Some implies exists|i: int|
            0 <= i < now.len() && (#[trigger] now[i]).tile == t by {
            if t < count - 1 {
                let i = choose|i: int| 0 <= i < before.len() && (#[trigger] before[i]).tile == t;
                assert(now[i] == before[i]);
            } else {
                assert(now[now.len() - 1].tile == t);
            }
        }
    }
}

/// A matched tile holds a gem.
pub proof fn matched_tile_is_full(tiles: Seq<Option<Gem>>, t: int)
    requires
        matched(tiles, t),
    ensures
        0 <= t < 30,
        tiles[t] is Some,
{
    let (across, line, start) = choose|across: bool, line: int, start: int| #[trigger]
        triple(tiles, across, line, start) && in_triple(across, line, start, t);
}

/// The first tiles have, once the matched ones are vacated, as many more
/// vacancies as gems were destroyed in them.
proof fn vacated_count(tiles: Seq<Option<Gem>>, count: int)
    requires
        tiles.len() == 30,
        0 <= count <= 30,
    ensures
        vacancies(vacated(tiles).take(count)) == vacancies(tiles.take(count)) + destroyed_upto(
            tiles,
            count,
        ).len(),
    decreases count,
{
    if count > 0 {
        vacated_count(tiles, count - 1);
        gems_of_next(vacated(tiles), count - 1);
        gems_of_next(tiles, count - 1);
        if matched(tiles, count - 1) {
            matched_tile_is_full(tiles, count - 1);
        }
    } else {
        assert(vacated(tiles).take(0) =~= tiles.take(0));
    }
}

/// A board that holds no drag, has all its tiles full and looks for matches
/// is a board whose parts fit together afterwards.
proof fn resolved_is_wf(v: BoardView)
    requires
        v.tiles.len() == 30,
        distinct_gems(v.tiles),
        vacancies(v.tiles) == 0,
        v.doomed.len() == 0,
        v.swapping is None,
        forall|t: int| 0 <= t < 30 && (#[trigger] v.tiles[t]) is Some ==> !v.tiles[t]->0.holding,
    ensures
        board_wf(resolved(v)),
{
    let destroyed = destroyed_upto(v.tiles, 30);
    destroyed_facts(v.tiles, 30);
    {
        vacated_count(v.tiles, 30);
        assert(vacated(v.tiles).take(30) =~= vacated(v.tiles));
        assert(v.tiles.take(30) =~= v.tiles);
        let doomed = gems_only(destroyed);
        assert forall|i: int, t: int|
            0 <= i < doomed.len() && 0 <= t < 30 && vacated(v.tiles)[t] is Some implies (
        #[trigger] doomed[i]).id != (#[trigger] vacated(v.tiles)[t])->0.id by {
            assert(destroyed[i].tile != t);
        }
        assert forall|i: int, j: int|
            0 <= i < doomed.len() && 0 <= j < doomed.len() && i != j implies (
        #[trigger] doomed[i]).id != (#[trigger] doomed[j]).id by {
            if i < j {
                assert(destroyed[i].tile < destroyed[j].tile);
            } else {
                assert(destroyed[j].tile < destroyed[i].tile);
            }
        }
    }
}

/// Whether a tile lies in one of the groups that were found.
fn tile_is_matched(groups: &Vec<Match>, tile: u64, Ghost(tiles): Ghost<Seq<Option<Gem>>>) -> (hit:
    bool)
    requires
        is_detection(tiles, groups@),
        tile < 30,
    ensures
        hit == matched(tiles, tile as int),
{
    let mut i: usize = 0;
    while i < groups.len()
        invariant
            is_detection(tiles, groups@),
            tile < 30,
            i <= groups@.len(),
            forall|j: int| 0 <= j < i ==> !(#[trigger] groups@[j]).tiles@.contains(tile),
        decreases groups@.len() - i,
    {
        if groups[i].tiles.contains(tile) {
            proof {
                reveal(is_group);
                assert(is_group(tiles, groups@[i as int]));
            }
            return true;
        }
        i += 1;
    }
    false
}

/// Finds the matches of the grid and vacates every matched tile.
fn clear_matches(grid: &mut Grid) -> (cleared: (Vec<Match>, Vec<Destroyed>))
    requires
        old(grid).wf(),
    ensures
        final(grid).wf(),
        final(grid)@ == vacated(old(grid)@),
        is_detection(old(grid)@, cleared.0@),
        cleared.1@ == destroyed_upto(old(grid)@, 30),
{
    let ghost tiles = grid@;
    let groups = find_matches(grid);
    let mut destroyed: Vec<Destroyed> = Vec::new();
    let mut tile: u64 = 0;
    while tile < 30
        invariant
            grid.wf(),
            tiles.len() == 30,
            tile <= 30,
            is_detection(tiles, groups@),
            forall|u: int| 0 <= u < tile ==> #[trigger] grid@[u] == vacated(tiles)[u],
            forall|u: int| tile <= u < 30 ==> #[trigger] grid@[u] == tiles[u],
            destroyed@ == destroyed_upto(tiles, tile as int),
        decreases 30 - tile,
    {
        if tile_is_matched(&groups, tile, Ghost(tiles)) {
            match grid.take_gem(tile) {
                Some(gem) => {
                    destroyed.push(Destroyed { tile, gem });
                },
                None => {},
            }
        }
        tile += 1;
    }
    proof {
        assert(grid@ =~= vacated(tiles));
    }
    (groups, destroyed)
}

/// Elements picked by chance, as many as asked for.
fn random_elements(count: usize) -> (elements: Vec<Element>)
    ensures
        elements@.len() == count,
{
    let mut elements: Vec<Element> = Vec::new();
    while elements.len() < count
        invariant
            elements@.len() <= count,
        decreases count - elements@.len(),
    {
        elements.push(Element::random());
    }
    elements
}

/// A board: the grid, the state, and what the state needs to remember.
pub struct Board {
    grid: Grid,
    state: BoardState,
    swapping: Option<Swapping>,
    waiting_for: usize,
    doomed: Vec<Gem>,
}

impl View for Board {
    type V = BoardView;

    closed spec fn view(&self) -> BoardView {
        BoardView {
            tiles: self.grid@,
            state: self.state,
            swapping: self.swapping,
            waiting_for: self.waiting_for as nat,
            doomed: self.doomed@,
        }
    }
}

impl Board {
    /// Whether the parts of the board fit together.
    pub open spec fn wf(&self) -> bool {
        board_wf(self@)
    }

    /// An inactive board whose grid holds gems of the given elements,
    /// `elements[x][y]` for the tile in column `x` and row `y`.
    pub fn new(elements: &[[Element; 5]; 6]) -> (board: Board)
        ensures
            board.wf(),
            board@.state == BoardState::Inactive,
            board@.swapping is None,
            board@.waiting_for == 0,
            forall|t: int|
                0 <= t < 30 ==> (#[trigger] board@.tiles[t]) == Some(
                    Gem { id: t as u64, element: elements@[t / 5]@[t % 5], holding: false },
                ),
    {
        let grid = Grid::new(elements);
        proof {
            assert forall|t: int| 0 <= t < 30 implies (#[trigger] grid@[t]) == Some(
                Gem { id: t as u64, element: elements@[t / 5]@[t % 5], holding: false },
            ) by {
                assert(t == crate::grid::tile_handle(t / 5, t % 5));
                assert(crate::grid::on_grid(t / 5, t % 5));
            }
            full_means_no_vacancy(grid@);
        }
        Board {
            grid,
            state: BoardState::Inactive,
            swapping: None,
            waiting_for: 0,
            doomed: Vec::new(),
        }
    }

    /// The state of the board.
    pub fn state(&self) -> (state: BoardState)
        ensures
            state == self@.state,
    {
        self.state
    }

    /// The grid of the board.
    pub fn grid(&self) -> (grid: &Grid)
        ensures
            grid@ == self@.tiles,
    {
        &self.grid
    }

    /// The drag in progress, if there is one.
    pub fn swapping(&self) -> (drag: Option<Swapping>)
        ensures
            drag == self@.swapping,
    {
        self.swapping
    }

    /// How many reports the board waits for.
    pub fn waiting_for(&self) -> (count: usize)
        ensures
            count == self@.waiting_for,
    {
        self.waiting_for
    }

    /// Whether a drag is in progress and its time has run out.
    pub fn timer_finished(&self) -> (finished: bool)
        ensures
            finished == (self@.swapping is Some && self@.swapping->0.remaining == 0),
    {
        match self.swapping {
            Some(drag) => drag.remaining == 0,
            None => false,
        }
    }

    /// Whether the gem of a tile is to be shown lit up: the gem that is
    /// dragged, and on a ready board the gem under the pointer.
    pub fn is_lit(&self, tile: u64, under_pointer: bool) -> (lit: bool)
        requires
            self.wf(),
            tile < 30,
        ensures
            lit == (self@.tiles[tile as int] is Some && ((self@.state == BoardState::Ready
                && under_pointer) || self@.tiles[tile as int]->0.holding)),
    {
        match self.grid.gem_of(tile) {
            Some(gem) => (self.state == BoardState::Ready && under_pointer) || gem.holding,
            None => false,
        }
    }

    /// Makes an inactive or ended board ready for the player. The answer
    /// says whether the board is ready afterwards.
    pub fn activate(&mut self) -> (ready: bool)
        requires
            old(self).wf(),
        ensures
            final(self).wf(),
            final(self)@ == activated(old(self)@),
            ready == (final(self)@.state == BoardState::Ready),
    {
        match self.state {
            BoardState::Inactive | BoardState::End => {
                self.state = BoardState::Ready;
            },
            _ => {},
        }
        self.state == BoardState::Ready
    }

    /// Takes the board out of play. A drag in progress lets its gem go.
    /// While destroyed gems are outstanding the board cannot stop, because
    /// its grid has vacant tiles then, and a board that was stopped must be
    /// able to become ready with every tile filled; the answer says whether
    /// the board is inactive afterwards.
    pub fn stop(&mut self) -> (inactive: bool)
        requires
            old(self).wf(),
        ensures
            final(self).wf(),
            final(self)@ == stopped(old(self)@),
            inactive == !(old(self)@.state == BoardState::Matching && old(self)@.doomed.len() > 0),
    {
        if self.state == BoardState::Matching && self.doomed.len() > 0 {
            return false;
        }
        self.release();
        self.state = BoardState::Inactive;
        self.waiting_for = 0;
        true
    }

    /// Ends the drag, if there is one: its gem is no longer held.
    fn release(&mut self)
        requires
            old(self).wf(),
        ensures
            final(self)@ == let_go(old(self)@),
            final(self)@.tiles.len() == 30,
            distinct_gems(final(self)@.tiles),
            vacancies(final(self)@.tiles) == vacancies(old(self)@.tiles),
            forall|t: int|
                0 <= t < 30 && (#[trigger] final(self)@.tiles[t]) is Some ==> !final(self)@.tiles[t]->0.holding,
            fresh_supply(final(self)@.tiles, final(self)@.doomed),
    {
        match self.swapping {
            Some(drag) => {
                let ghost before = self.grid@;
                self.grid.set_holding(drag.current_tile, false);
                self.swapping = None;
                proof {
                    same_vacancies(before, self.grid@, 30);
                    assert(before.take(30) =~= before);
                    assert(self.grid@.take(30) =~= self.grid@);
                }
            },
            None => {},
        }
    }

    /// Picks up the gem of a tile. On a ready board this begins a drag; in
    /// any other state, or for a handle that is no tile, nothing happens.
    /// The answer says whether a drag began.
    pub fn pickup(&mut self, tile: u64) -> (begun: bool)
        requires
            old(self).wf(),
        ensures
            final(self).wf(),
            final(self)@ == picked_up(old(self)@, tile as int),
            begun == (old(self)@.state == BoardState::Ready && tile < 30),
    {
        if self.state != BoardState::Ready || tile >= 30 {
            return false;
        }
        proof {
            full_means_no_vacancy(self.grid@);
        }
        match self.grid.gem_of(tile) {
            Some(gem) => {
                let ghost before = self.grid@;
                self.grid.set_holding(tile, true);
                self.swapping = Some(
                    Swapping {
                        swaps: 0,
                        gem: gem.id,
                        origin: tile,
                        current_tile: tile,
                        remaining: DRAG_LIMIT,
                    },
                );
                self.state = BoardState::Swapping;
                proof {
                    same_vacancies(before, self.grid@, 30);
                    assert(before.take(30) =~= before);
                    assert(self.grid@.take(30) =~= self.grid@);
                }
                true
            },
            None => false,
        }
    }

    /// Moves the dragged gem to the tile that it has come closest to. If
    /// that is another tile than the one where the gem sits, the two tiles
    /// exchange their gems and the drag counts one more swap. The answer
    /// says whether a swap was made.
    pub fn swap_gems(&mut self, closest: u64) -> (swapped: bool)
        requires
            old(self).wf(),
        ensures
            final(self).wf(),
            final(self)@ == dragged(old(self)@, closest as int),
            swapped == (old(self)@.swapping is Some && closest < 30 && closest != old(self)@.swapping->0.current_tile),
    {
        match self.swapping {
            Some(drag) => {
                if closest < 30 && closest != drag.current_tile {
                    let ghost before = self.grid@;
                    self.grid.swap(closest, drag.current_tile);
                    let swaps = if drag.swaps < u32::MAX {
                        drag.swaps + 1
                    } else {
                        drag.swaps
                    };
                    self.swapping = Some(
                        Swapping {
                            swaps,
                            gem: drag.gem,
                            origin: drag.origin,
                            current_tile: closest,
                            remaining: drag.remaining,
                        },
                    );
                    proof {
                        full_means_no_vacancy(before);
                        full_means_no_vacancy(self.grid@);
                    }
                    true
                } else {
                    false
                }
            },
            None => false,
        }
    }

    /// Moves the dragged gem to the tile that lies closest to a place on
    /// the board, as [`Board::swap_gems`] does for that tile. The place is
    /// given in the measure of [`closest_tile`]. The answer says whether a
    /// swap was made.
    pub fn drag_to(&mut self, px: i64, py: i64) -> (swapped: bool)
        requires
            old(self).wf(),
        ensures
            final(self).wf(),
            is_closest(px as int, py as int, nearest(px as int, py as int)),
            final(self)@ == dragged(old(self)@, nearest(px as int, py as int)),
            swapped == (old(self)@.swapping is Some && nearest(px as int, py as int) != old(self)@.swapping->0.current_tile),
    {
        let closest = closest_tile(px, py);
        proof {
            closest_is_nearest(px as int, py as int, closest as int);
        }
        self.swap_gems(closest)
    }

    /// Lets time pass, in microseconds. The time of a drag runs from the
    /// moment the gem is picked up.
    pub fn update_timer(&mut self, elapsed: u64)
        requires
            old(self).wf(),
        ensures
            final(self).wf(),
            final(self)@ == ticked(old(self)@, elapsed as int),
    {
        match self.swapping {
            Some(drag) => {
                let remaining = if drag.remaining >= elapsed {
                    drag.remaining - elapsed
                } else {
                    0
                };
                self.swapping = Some(
                    Swapping {
                        swaps: drag.swaps,
                        gem: drag.gem,
                        origin: drag.origin,
                        current_tile: drag.current_tile,
                        remaining,
                    },
                );
            },
            None => {},
        }
    }

    /// Looks for matches and destroys the matched gems.
    fn resolve(&mut self) -> (cleared: (Vec<Match>, Vec<Destroyed>))
        requires
            old(self)@.tiles.len() == 30,
            distinct_gems(old(self)@.tiles),
            vacancies(old(self)@.tiles) == 0,
            old(self)@.doomed.len() == 0,
            old(self)@.swapping is None,
            forall|t: int|
                0 <= t < 30 && (#[trigger] old(self)@.tiles[t]) is Some ==> !old(self)@.tiles[t]->0.holding,
        ensures
            final(self).wf(),
            final(self)@ == resolved(old(self)@),
            is_detection(old(self)@.tiles, cleared.0@),
            cleared.1@ == destroyed_upto(old(self)@.tiles, 30),
    {
        let ghost before = self@;
        let (groups, destroyed) = clear_matches(&mut self.grid);
        proof {
            resolved_is_wf(before);
            destroyed_facts(before.tiles, 30);
        }
        let mut doomed: Vec<Gem> = Vec::new();
        let mut i: usize = 0;
        while i < destroyed.len()
            invariant
                i <= destroyed@.len(),
                doomed@ == gems_only(destroyed@.take(i as int)),
            decreases destroyed@.len() - i,
        {
            doomed.push(destroyed[i].gem);
            proof {
                assert(doomed@ =~= gems_only(destroyed@.take(i + 1)));
            }
            i += 1;
        }
        proof {
            assert(destroyed@.take(destroyed@.len() as int) =~= destroyed@);
        }
        self.doomed = doomed;
        self.waiting_for = destroyed.len();
        self.state = BoardState::Matching;
        (groups, destroyed)
    }

    /// Ends the matching where nothing is left to wait for: a `Matching`
    /// board on which nothing matched comes to its `End`. Any other board
    /// stays as it is. The answer says whether the board came to its end.
    pub fn finish_matching(&mut self) -> (ended: bool)
        requires
            old(self).wf(),
        ensures
            final(self).wf(),
            final(self)@ == finished(old(self)@),
            ended == (old(self)@.state == BoardState::Matching && old(self)@.waiting_for == 0),
    {
        if self.state == BoardState::Matching && self.waiting_for == 0 {
            self.state = BoardState::End;
            true
        } else {
            false
        }
    }

    /// Drops the dragged gem. Without a drag nothing happens. A drag that
    /// made no swap leaves the board ready, with the gem in the tile where
    /// it was picked up. After any other drag the board looks for matches
    /// and is `Matching`: the groups that it found come back, with the gems
    /// that were destroyed.
    pub fn drop_gem(&mut self) -> (cleared: (Vec<Match>, Vec<Destroyed>))
        requires
            old(self).wf(),
        ensures
            final(self).wf(),
            final(self)@ == dropped(old(self)@),
            old(self)@.swapping is Some && old(self)@.swapping->0.swaps > 0 ==> is_detection(
                let_go(old(self)@).tiles,
                cleared.0@,
            ) && cleared.1@ == destroyed_upto(let_go(old(self)@).tiles, 30),
            !(old(self)@.swapping is Some && old(self)@.swapping->0.swaps > 0) ==> cleared.0@.len()
                == 0 && cleared.1@.len() == 0,
    {
        match self.swapping {
            Some(drag) => {
                self.release();
                self.state = BoardState::Ready;
                if drag.swaps == 0 {
                    (Vec::new(), Vec::new())
                } else {
                    self.resolve()
                }
            },
            None => (Vec::new(), Vec::new()),
        }
    }

    /// Drops the dragged gem if the pointer was released or the time of the
    /// drag has run out; see [`Board::drop_gem`]. Otherwise nothing
    /// happens.
    pub fn drop_if_due(&mut self, released: bool) -> (cleared: (Vec<Match>, Vec<Destroyed>))
        requires
            old(self).wf(),
        ensures
            final(self).wf(),
            final(self)@ == if drop_is_due(old(self)@, released) {
                dropped(old(self)@)
            } else {
                old(self)@
            },
            drop_is_due(old(self)@, released) && old(self)@.swapping->0.swaps > 0 ==> is_detection(
                let_go(old(self)@).tiles,
                cleared.0@,
            ) && cleared.1@ == destroyed_upto(let_go(old(self)@).tiles, 30),
            !(drop_is_due(old(self)@, released) && old(self)@.swapping->0.swaps > 0)
                ==> cleared.0@.len() == 0 && cleared.1@.len() == 0,
    {
        if released || self.timer_finished() {
            self.drop_gem()
        } else {
            (Vec::new(), Vec::new())
        }
    }

    /// Lets the gems fall and fills the grid with new gems of the given
    /// elements.
    fn refill(&mut self, elements: &Vec<Element>) -> (falls: Vec<Fall>)
        requires
            old(self).wf(),
            old(self)@.state == BoardState::Matching,
            old(self)@.waiting_for >= 1,
            elements@.len() >= old(self)@.doomed.len(),
        ensures
            final(self).wf(),
            final(self)@ == refilled(old(self)@, elements@),
            crate::fall::is_plan_upto(old(self)@.tiles, falls@, 6),
            crate::fall::new_count(falls@) == old(self)@.doomed.len(),
    {
        let ghost before = self@;
        let mut supply: Vec<Gem> = Vec::new();
        let mut i: usize = 0;
        while i < self.doomed.len()
            invariant
                i <= self.doomed@.len(),
                elements@.len() >= self.doomed@.len(),
                supply@ == reborn(self.doomed@, elements@).take(i as int),
            decreases self.doomed@.len() - i,
        {
            supply.push(Gem { id: self.doomed[i].id, element: elements[i], holding: false });
            proof {
                assert(supply@ =~= reborn(self.doomed@, elements@).take(i + 1));
            }
            i += 1;
        }
        proof {
            assert(supply@ =~= reborn(before.doomed, elements@));
        }
        let (grid, falls) = settle(&self.grid, &supply);
        proof {
            full_means_no_vacancy(grid@);
            assert forall|t: int| 0 <= t < 30 implies !(#[trigger] grid@[t])->0.holding by {
                let source = crate::fall::settled_source(before.tiles, supply@, t);
            }
            gems_fit(before.tiles);
        }
        self.grid = grid;
        self.doomed = Vec::new();
        self.state = BoardState::Falling;
        self.waiting_for = falls.len();
        falls
    }

    /// Reports that one destroyed gem is gone, and says which elements the
    /// new gems get, in the order in which they come in. With the last
    /// report the gems fall and the falls come back; before that, and on a
    /// board that is not `Matching`, no fall comes back.
    pub fn gem_destroyed_with(&mut self, elements: &Vec<Element>) -> (falls: Vec<Fall>)
        requires
            old(self).wf(),
            elements@.len() >= old(self)@.doomed.len(),
        ensures
            final(self).wf(),
            final(self)@ == gem_gone(old(self)@, elements@),
            old(self)@.state == BoardState::Matching && old(self)@.waiting_for == 1
                ==> crate::fall::is_plan_upto(old(self)@.tiles, falls@, 6) && crate::fall::new_count(
                falls@,
            ) == old(self)@.doomed.len(),
            !(old(self)@.state == BoardState::Matching && old(self)@.waiting_for == 1)
                ==> falls@.len() == 0,
    {
        if self.state != BoardState::Matching || self.waiting_for == 0 {
            return Vec::new();
        }
        if self.waiting_for > 1 {
            self.waiting_for = self.waiting_for - 1;
            return Vec::new();
        }
        self.refill(elements)
    }

    /// Reports that one destroyed gem is gone. With the last report the
    /// gems fall, new gems of elements picked by chance come in, and the
    /// falls come back; before that, and on a board that is not `Matching`,
    /// no fall comes back.
    pub fn gem_destroyed(&mut self) -> (falls: Vec<Fall>)
        requires
            old(self).wf(),
        ensures
            final(self).wf(),
            exists|elements: Seq<Element>|
                elements.len() == old(self)@.doomed.len() && final(self)@ == gem_gone(
                    old(self)@,
                    elements,
                ),
            old(self)@.state == BoardState::Matching && old(self)@.waiting_for == 1
                ==> crate::fall::is_plan_upto(old(self)@.tiles, falls@, 6) && crate::fall::new_count(
                falls@,
            ) == old(self)@.doomed.len(),
            !(old(self)@.state == BoardState::Matching && old(self)@.waiting_for == 1)
                ==> falls@.len() == 0,
    {
        let elements = random_elements(self.doomed.len());
        self.gem_destroyed_with(&elements)
    }

    /// Reports that one falling gem has landed. With the last report the
    /// board looks for matches again: the groups that it found come back,
    /// with the gems that were destroyed. Before that, and on a board that
    /// is not `Falling`, nothing comes back.
    pub fn fall_completed(&mut self) -> (cleared: (Vec<Match>, Vec<Destroyed>))
        requires
            old(self).wf(),
        ensures
            final(self).wf(),
            final(self)@ == gem_landed(old(self)@),
            old(self)@.state == BoardState::Falling && old(self)@.waiting_for == 1 ==> is_detection(
                old(self)@.tiles,
                cleared.0@,
            ) && cleared.1@ == destroyed_upto(old(self)@.tiles, 30),
            !(old(self)@.state == BoardState::Falling && old(self)@.waiting_for == 1)
                ==> cleared.0@.len() == 0 && cleared.1@.len() == 0,
    {
        if self.state != BoardState::Falling {
            return (Vec::new(), Vec::new());
        }
        if self.waiting_for > 1 {
            self.waiting_for = self.waiting_for - 1;
            return (Vec::new(), Vec::new());
        }
        self.waiting_for = 0;
        self.resolve()
    }
}

/// Whether a drag is in progress and should end: the pointer was released
/// or the time of the drag has run out.
pub open spec fn drop_is_due(v: BoardView, released: bool) -> bool {
    v.swapping is Some && (released || v.swapping->0.remaining == 0)
}

/// Tiles that are vacant in the same places have as many vacancies.
proof fn same_vacancies(a: Seq<Option<Gem>>, b: Seq<Option<Gem>>, count: int)
    requires
        a.len() == b.len(),
        0 <= count <= a.len(),
        forall|t: int| 0 <= t < a.len() ==> ((#[trigger] a[t]) is Some <==> b[t] is Some),
    ensures
        vacancies(a.take(count)) == vacancies(b.take(count)),
    decreases count,
{
    if count > 0 {
        same_vacancies(a, b, count - 1);
        gems_of_next(a, count - 1);
        gems_of_next(b, count - 1);
    } else {
        assert(a.take(0) =~= b.take(0));
    }
}

/// Whatever is asked of a board whose parts fit together, they fit together
/// afterwards. With [`ready_board_is_full`] this makes a full grid a mark
/// of every `Ready` board that can ever come about.
pub proof fn board_stays_wf(
    v: BoardView,
    tile: int,
    closest: int,
    elapsed: int,
    elements: Seq<Element>,
)
    requires
        board_wf(v),
        elements.len() >= v.doomed.len(),
        0 <= elapsed,
    ensures
        board_wf(activated(v)),
        board_wf(stopped(v)),
        board_wf(picked_up(v, tile)),
        board_wf(dragged(v, closest)),
        board_wf(ticked(v, elapsed)),
        board_wf(dropped(v)),
        board_wf(gem_gone(v, elements)),
        board_wf(gem_landed(v)),
        board_wf(finished(v)),
{
    full_means_no_vacancy(v.tiles);
    let_go_is_calm(v);
    assert(board_wf(stopped(v)));
    assert(board_wf(picked_up(v, tile))) by {
        let after = picked_up(v, tile);
        same_vacancies(v.tiles, after.tiles, 30);
        assert(v.tiles.take(30) =~= v.tiles);
        assert(after.tiles.take(30) =~= after.tiles);
    }
    assert(board_wf(dragged(v, closest))) by {
        let after = dragged(v, closest);
        if after != v {
            full_means_no_vacancy(after.tiles);
        }
    }
    assert(board_wf(dropped(v))) by {
        if v.swapping is Some && v.swapping->0.swaps > 0 {
            resolved_is_wf(BoardView { state: BoardState::Ready, ..let_go(v) });
        }
    }
    assert(board_wf(gem_gone(v, elements))) by {
        if v.state == BoardState::Matching && v.waiting_for == 1 {
            refilled_is_wf(v, elements);
        }
    }
    assert(board_wf(gem_landed(v))) by {
        if v.state == BoardState::Falling && v.waiting_for <= 1 {
            resolved_is_wf(BoardView { waiting_for: 0, ..v });
        }
    }
}

/// After a drag has let its gem go, no gem is held and the tiles are as
/// full as before.
proof fn let_go_is_calm(v: BoardView)
    requires
        board_wf(v),
    ensures
        let_go(v).tiles.len() == 30,
        distinct_gems(let_go(v).tiles),
        fresh_supply(let_go(v).tiles, v.doomed),
        vacancies(let_go(v).tiles) == vacancies(v.tiles),
        let_go(v).swapping is None,
        forall|t: int|
            0 <= t < 30 && (#[trigger] let_go(v).tiles[t]) is Some ==> !let_go(v).tiles[t]->0.holding,
{
    let after = let_go(v);
    same_vacancies(v.tiles, after.tiles, 30);
    assert(v.tiles.take(30) =~= v.tiles);
    assert(after.tiles.take(30) =~= after.tiles);
}

/// A `Matching` board whose gems fall is a board whose parts fit together
/// afterwards.
proof fn refilled_is_wf(v: BoardView, elements: Seq<Element>)
    requires
        board_wf(v),
        v.state == BoardState::Matching,
        v.waiting_for >= 1,
        elements.len() >= v.doomed.len(),
    ensures
        board_wf(refilled(v, elements)),
{
    let supply = reborn(v.doomed, elements);
    let after = refilled(v, elements);
    crate::fall::settled_is_distinct(v.tiles, supply);
    full_means_no_vacancy(after.tiles);
    crate::fall::total_covers_vacancies(v.tiles, 6);
    assert(v.tiles.take(30) =~= v.tiles);
    assert forall|t: int| 0 <= t < 30 implies !(#[trigger] after.tiles[t])->0.holding by {
        let source = crate::fall::settled_source(v.tiles, supply, t);
    }
}

/// On a board that is not `Matching`, and so on every `Ready` board, every
/// tile holds a gem.
pub proof fn ready_board_is_full(v: BoardView)
    requires
        board_wf(v),
        v.state != BoardState::Matching,
    ensures
        forall|t: int| 0 <= t < 30 ==> (#[trigger] v.tiles[t]) is Some,
{
    full_means_no_vacancy(v.tiles);
}

/// While a gem is dragged, the count of swaps never goes down: moving the
/// gem keeps it or raises it, the passing of time keeps it, and nothing
/// else that can be asked of the board touches the drag.
pub proof fn swaps_never_decrease(v: BoardView, closest: int, elapsed: int, tile: int, elements: Seq<Element>)
    requires
        board_wf(v),
        v.swapping is Some,
    ensures
        dragged(v, closest).swapping is Some,
        dragged(v, closest).swapping->0.swaps >= v.swapping->0.swaps,
        ticked(v, elapsed).swapping is Some,
        ticked(v, elapsed).swapping->0.swaps == v.swapping->0.swaps,
        activated(v) == v,
        picked_up(v, tile) == v,
        gem_gone(v, elements) == v,
        gem_landed(v) == v,
        finished(v) == v,
{
}

/// Dropping a gem that was picked up and never swapped gives back the board
/// as it was before the gem was picked up: the gem sits in its tile, is not
/// held, and the board is `Ready`.
pub proof fn drop_without_swap_restores(v: BoardView, tile: int)
    requires
        board_wf(v),
        v.state == BoardState::Ready,
        0 <= tile < 30,
    ensures
        dropped(picked_up(v, tile)) == v,
{
    full_means_no_vacancy(v.tiles);
    let held = picked_up(v, tile);
    assert(dropped(held).tiles =~= v.tiles);
}

/// A drag that has made no swap leaves, when it is dropped, every gem in
/// its tile and the board `Ready`; the dragged gem sits in the tile where
/// it was picked up.
pub proof fn drop_without_swap_moves_nothing(v: BoardView)
    requires
        board_wf(v),
        v.swapping is Some,
        v.swapping->0.swaps == 0,
    ensures
        dropped(v).state == BoardState::Ready,
        dropped(v).swapping is None,
        dropped(v).tiles.len() == v.tiles.len(),
        forall|t: int|
            0 <= t < 30 && v.tiles[t] is Some ==> (#[trigger] dropped(v).tiles[t]) == Some(
                with_holding(v.tiles[t]->0, false),
            ),
        dropped(v).tiles[v.swapping->0.origin as int]->0.id == v.swapping->0.gem,
{
}

/// A drop after at least one swap leaves the board `Matching`, never
/// `Ready`, even when the swaps have brought every gem back to where it
/// was. The board then waits for one report for each gem on a matched tile;
/// where nothing matched it waits for none, and its next step brings it to
/// its `End` with the grid as the drag left it.
pub proof fn drop_after_swap_matches(v: BoardView)
    requires
        board_wf(v),
        v.swapping is Some,
        v.swapping->0.swaps > 0,
    ensures
        dropped(v).state == BoardState::Matching,
        dropped(v).waiting_for == destroyed_upto(let_go(v).tiles, 30).len(),
        dropped(v).waiting_for > 0 <==> exists|t: int| matched(let_go(v).tiles, t),
        dropped(v).waiting_for == 0 ==> finished(dropped(v)).state == BoardState::End && finished(dropped(v)).tiles == let_go(v).tiles,
{
    let free = BoardView { state: BoardState::Ready, ..let_go(v) };
    let destroyed = destroyed_upto(free.tiles, 30);
    destroyed_facts(free.tiles, 30);
    if exists|t: int| matched(free.tiles, t) {
        let t = choose|t: int| matched(free.tiles, t);
        matched_tile_is_full(free.tiles, t);
        let i = choose|i: int| 0 <= i < destroyed.len() && (#[trigger] destroyed[i]).tile == t;
        assert(destroyed.len() > 0);
    }
    if destroyed.len() > 0 {
        assert(matched(free.tiles, destroyed[0].tile as int));
    } else {
        assert forall|t: int| 0 <= t < 30 implies !matched(free.tiles, t) by {
            if matched(free.tiles, t) {
                matched_tile_is_full(free.tiles, t);
            }
        }
        assert(vacated(free.tiles) =~= free.tiles);
    }
}

/// When the last falling gem has landed the board is `Matching` again, and
/// waits for one report for each gem on a matched tile.
pub proof fn last_fall_matches(v: BoardView)
    requires
        board_wf(v),
        v.state == BoardState::Falling,
        v.waiting_for == 1,
    ensures
        gem_landed(v).state == BoardState::Matching,
        gem_landed(v).waiting_for == destroyed_upto(v.tiles, 30).len(),
{
}

/// The time of a drag runs from the moment the gem is picked up: whatever
/// the count of swaps, the time that is left goes down by the time that
/// has passed, and after the whole limit has passed none is left.
pub proof fn drag_time_runs_from_pickup(v: BoardView, elapsed: int)
    requires
        board_wf(v),
        v.swapping is Some,
        0 <= elapsed,
    ensures
        ticked(v, elapsed).swapping->0.remaining == if v.swapping->0.remaining >= elapsed {
            v.swapping->0.remaining - elapsed
        } else {
            0
        },
        elapsed >= v.swapping->0.remaining ==> drop_is_due(ticked(v, elapsed), false),
        dropped(ticked(v, elapsed)) == dropped(v),
{
}

} // verus!
