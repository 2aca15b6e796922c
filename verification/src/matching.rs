//! Finding the groups of gems that match.
//!
//! Three gems of one element that lie side by side in a row, or one above
//! the other in a column, form a triple. A tile is matched when it lies in a
//! triple. Two matched tiles belong to the same group when a chain of
//! triples leads from one to the other, each triple sharing a tile with the
//! next: a straight run of any length is one group, and so is an L or a T
//! made of a row run and a column run that cross.

use crate::element::Element;
use crate::grid::tile_at;
use crate::grid::tile_handle;
use crate::grid::Gem;
use crate::grid::Grid;
use crate::id_set::IdSet;
use vstd::prelude::*;

verus! {

/// How many tiles a line has: a row when `across`, else a column.
pub open spec fn line_length(across: bool) -> int {
    if across {
        6
    } else {
        5
    }
}

/// How many lines run in a direction: rows when `across`, else columns.
pub open spec fn line_count(across: bool) -> int {
    if across {
        5
    } else {
        6
    }
}

/// The tile at a position of a line. Row `line` is walked from the left,
/// column `line` from the bottom.
pub open spec fn line_tile(across: bool, line: int, position: int) -> int {
    if across {
        tile_handle(position, line)
    } else {
        tile_handle(line, position)
    }
}

/// Whether the line exists and the position lies on it.
pub open spec fn on_line(across: bool, line: int, position: int) -> bool {
    0 <= line < line_count(across) && 0 <= position < line_length(across)
}

/// The element of the gem in a tile; nothing for a vacant tile.
pub open spec fn key_at(tiles: Seq<Option<Gem>>, tile: int) -> Option<Element> {
    match tiles[tile] {
        Some(gem) => Some(gem.element),
        None => None,
    }
}

/// The element of the gem at a position of a line.
pub open spec fn key_on(tiles: Seq<Option<Gem>>, across: bool, line: int, position: int) -> Option<
    Element,
> {
    key_at(tiles, line_tile(across, line, position))
}

/// Whether the three tiles of a line from `start` on hold gems of one
/// element.
pub open spec fn triple(tiles: Seq<Option<Gem>>, across: bool, line: int, start: int) -> bool {
    &&& on_line(across, line, start)
    &&& on_line(across, line, start + 2)
    &&& key_on(tiles, across, line, start) is Some
    &&& key_on(tiles, across, line, start + 1) == key_on(tiles, across, line, start)
    &&& key_on(tiles, across, line, start + 2) == key_on(tiles, across, line, start)
}

/// Whether a tile is one of the three tiles of a line from `start` on.
pub open spec fn in_triple(across: bool, line: int, start: int, tile: int) -> bool {
    ||| tile == line_tile(across, line, start)
    ||| tile == line_tile(across, line, start + 1)
    ||| tile == line_tile(across, line, start + 2)
}

/// Whether a tile lies in a triple.
pub open spec fn matched(tiles: Seq<Option<Gem>>, tile: int) -> bool {
    exists|across: bool, line: int, start: int| #[trigger]
        triple(tiles, across, line, start) && in_triple(across, line, start, tile)
}

/// Whether two tiles lie in one triple.
pub open spec fn linked(tiles: Seq<Option<Gem>>, a: int, b: int) -> bool {
    exists|across: bool, line: int, start: int| #[trigger]
        triple(tiles, across, line, start) && in_triple(across, line, start, a) && in_triple(
            across,
            line,
            start,
            b,
        )
}

/// Whether each tile of the sequence is linked to the next.
pub open spec fn is_chain(tiles: Seq<Option<Gem>>, chain: Seq<int>) -> bool {
    &&& chain.len() > 0
    &&& forall|i: int|
        0 <= i < chain.len() - 1 ==> linked(tiles, #[trigger] chain[i], chain[i + 1])
}

/// Whether a chain of linked tiles leads from `a` to `b`.
pub open spec fn connected(tiles: Seq<Option<Gem>>, a: int, b: int) -> bool {
    exists|chain: Seq<int>| #[trigger]
        is_chain(tiles, chain) && chain[0] == a && chain[chain.len() - 1] == b
}

/// Every tile is connected to itself.
pub proof fn connected_to_itself(tiles: Seq<Option<Gem>>, a: int)
    ensures
        connected(tiles, a, a),
{
    let chain = seq![a];
    assert(is_chain(tiles, chain));
}

/// Linked tiles are linked either way round.
pub proof fn linked_either_way(tiles: Seq<Option<Gem>>, a: int, b: int)
    requires
        linked(tiles, a, b),
    ensures
        linked(tiles, b, a),
{
    let (across, line, start) = choose|across: bool, line: int, start: int| #[trigger]
        triple(tiles, across, line, start) && in_triple(across, line, start, a) && in_triple(
            across,
            line,
            start,
            b,
        );
    assert(triple(tiles, across, line, start));
}

/// A chain can be walked backwards.
pub proof fn connected_either_way(tiles: Seq<Option<Gem>>, a: int, b: int)
    requires
        connected(tiles, a, b),
    ensures
        connected(tiles, b, a),
{
    let chain = choose|chain: Seq<int>| #[trigger]
        is_chain(tiles, chain) && chain[0] == a && chain[chain.len() - 1] == b;
    let back = Seq::new(chain.len(), |i: int| chain[chain.len() - 1 - i]);
    assert forall|i: int| 0 <= i < back.len() - 1 implies linked(
        tiles,
        #[trigger] back[i],
        back[i + 1],
    ) by {
        let j = chain.len() - 2 - i;
        assert(linked(tiles, chain[j], chain[j + 1]));
        linked_either_way(tiles, chain[j], chain[j + 1]);
    }
    assert(is_chain(tiles, back));
}

/// Two chains that meet make one chain.
pub proof fn connected_through(tiles: Seq<Option<Gem>>, a: int, b: int, c: int)
    requires
        connected(tiles, a, b),
        connected(tiles, b, c),
    ensures
        connected(tiles, a, c),
{
    let first = choose|chain: Seq<int>| #[trigger]
        is_chain(tiles, chain) && chain[0] == a && chain[chain.len() - 1] == b;
    let second = choose|chain: Seq<int>| #[trigger]
        is_chain(tiles, chain) && chain[0] == b && chain[chain.len() - 1] == c;
    let joined = first + second.subrange(1, second.len() as int);
    assert forall|i: int| 0 <= i < joined.len() - 1 implies linked(
        tiles,
        #[trigger] joined[i],
        joined[i + 1],
    ) by {
        if i < first.len() - 1 {
            assert(linked(tiles, first[i], first[i + 1]));
        } else {
            let j = i - (first.len() - 1);
            assert(linked(tiles, second[j], second[j + 1]));
        }
    }
    assert(is_chain(tiles, joined));
}

/// Whether the positions from `from` up to, not including, `to` of a line
/// hold three or more gems, all of one element.
pub open spec fn is_run(tiles: Seq<Option<Gem>>, across: bool, line: int, from: int, to: int) -> bool {
    &&& on_line(across, line, from)
    &&& on_line(across, line, to - 1)
    &&& to - from >= 3
    &&& key_on(tiles, across, line, from) is Some
    &&& forall|p: int|
        from <= p < to ==> #[trigger] key_on(tiles, across, line, p) == key_on(
            tiles,
            across,
            line,
            from,
        )
}

/// Each position of a run lies in a triple of the run; the triple's start
/// comes back.
pub proof fn run_has_triple(
    tiles: Seq<Option<Gem>>,
    across: bool,
    line: int,
    from: int,
    to: int,
    p: int,
) -> (start: int)
    requires
        is_run(tiles, across, line, from, to),
        from <= p < to,
    ensures
        triple(tiles, across, line, start),
        from <= start <= p <= start + 2 < to,
        p + 1 < to ==> p + 1 <= start + 2,
{
    let start = if p + 2 < to {
        p
    } else {
        to - 3
    };
    assert(key_on(tiles, across, line, start) == key_on(tiles, across, line, from));
    assert(key_on(tiles, across, line, start + 1) == key_on(tiles, across, line, from));
    assert(key_on(tiles, across, line, start + 2) == key_on(tiles, across, line, from));
    start
}

/// Two positions of a run are connected.
pub proof fn run_is_connected(
    tiles: Seq<Option<Gem>>,
    across: bool,
    line: int,
    from: int,
    to: int,
    p: int,
    q: int,
)
    requires
        is_run(tiles, across, line, from, to),
        from <= p < to,
        from <= q < to,
    ensures
        connected(tiles, line_tile(across, line, p), line_tile(across, line, q)),
    decreases
            if p <= q {
                q - p
            } else {
                p - q + 1
            },
{
    if p == q {
        connected_to_itself(tiles, line_tile(across, line, p));
    } else if p < q {
        run_is_connected(tiles, across, line, from, to, p, q - 1);
        let start = run_has_triple(tiles, across, line, from, to, q - 1);
        assert(in_triple(across, line, start, line_tile(across, line, q - 1)));
        assert(in_triple(across, line, start, line_tile(across, line, q)));
        assert(linked(tiles, line_tile(across, line, q - 1), line_tile(across, line, q)));
        linked_is_connected(tiles, line_tile(across, line, q - 1), line_tile(across, line, q));
        connected_through(
            tiles,
            line_tile(across, line, p),
            line_tile(across, line, q - 1),
            line_tile(across, line, q),
        );
    } else {
        run_is_connected(tiles, across, line, from, to, q, p);
        connected_either_way(tiles, line_tile(across, line, q), line_tile(across, line, p));
    }
}

/// Linked tiles are connected.
pub proof fn linked_is_connected(tiles: Seq<Option<Gem>>, a: int, b: int)
    requires
        linked(tiles, a, b),
    ensures
        connected(tiles, a, b),
{
    let chain = seq![a, b];
    assert(is_chain(tiles, chain));
}

/// A group of matching gems: the tiles they sit in, and their element.
pub struct Match {
    pub tiles: IdSet,
    pub element: Element,
}

impl View for Match {
    type V = (Set<u64>, Element);

    /// The tiles of the group, and its element.
    open spec fn view(&self) -> (Set<u64>, Element) {
        (self.tiles@, self.element)
    }
}

impl Match {
    /// A group with the given tiles and element.
    pub fn from_tiles(tiles: &Vec<u64>, element: Element) -> (group: Match)
        ensures
            group.tiles@ == tiles@.to_set(),
            group.tiles@.finite(),
            group.element == element,
    {
        let mut set = IdSet::empty();
        let mut i: usize = 0;
        proof {
            assert(tiles@.take(0).to_set() =~= Set::<u64>::empty());
        }
        while i < tiles.len()
            invariant
                i <= tiles@.len(),
                set@ == tiles@.take(i as int).to_set(),
                set@.finite(),
            decreases tiles@.len() - i,
        {
            set.insert(tiles[i]);
            proof {
                let before = tiles@.take(i as int);
                let after = tiles@.take(i + 1);
                assert(after =~= before.push(tiles@[i as int]));
                assert forall|t: u64| after.to_set().contains(t) <==> before.to_set().insert(
                    tiles@[i as int],
                ).contains(t) by {
                    if before.contains(t) {
                        let k = choose|k: int| 0 <= k < before.len() && before[k] == t;
                        assert(after[k] == t);
                    }
                    if t == tiles@[i as int] {
                        assert(after[i as int] == t);
                    }
                }
                assert(after.to_set() =~= before.to_set().insert(tiles@[i as int]));
            }
            i += 1;
        }
        proof {
            assert(tiles@.take(tiles@.len() as int) =~= tiles@);
        }
        Match { tiles: set, element }
    }

    /// How many tiles the group has.
    pub fn size(&self) -> (count: usize)
        ensures
            count == self.tiles@.len(),
    {
        self.tiles.len()
    }

    /// Whether a tile belongs to the group.
    pub fn contains(&self, tile: u64) -> (found: bool)
        ensures
            found == self.tiles@.contains(tile),
    {
        self.tiles.contains(tile)
    }

    /// The tiles of the group, each once, in no fixed order.
    pub fn tile_list(&self) -> (tiles: Vec<u64>)
        ensures
            tiles@.no_duplicates(),
            tiles@.to_set() == self.tiles@,
    {
        self.tiles.members()
    }
}

/// Whether a group is made of three or more matched tiles of the grid that
/// hold gems of the group's element and are all connected to each other.
#[verifier::opaque]
pub open spec fn is_group(tiles: Seq<Option<Gem>>, group: Match) -> bool {
    &&& group.tiles@.finite()
    &&& group.tiles@.len() >= 3
    &&& forall|t: u64| #[trigger]
        group.tiles@.contains(t) ==> t < 30 && matched(tiles, t as int) && key_at(tiles, t as int)
            == Some(group.element)
    &&& forall|a: u64, b: u64|
        #![trigger group.tiles@.contains(a), group.tiles@.contains(b)]
        group.tiles@.contains(a) && group.tiles@.contains(b) ==> connected(
            tiles,
            a as int,
            b as int,
        )
}

/// Whether all three tiles of a triple are in the set.
pub open spec fn holds_triple(set: Set<u64>, across: bool, line: int, start: int) -> bool {
    &&& set.contains(line_tile(across, line, start) as u64)
    &&& set.contains(line_tile(across, line, start + 1) as u64)
    &&& set.contains(line_tile(across, line, start + 2) as u64)
}

/// Whether one of the groups holds all three tiles of a triple.
pub open spec fn covered(groups: Seq<Match>, across: bool, line: int, start: int) -> bool {
    exists|i: int|
        0 <= i < groups.len() && holds_triple(#[trigger] groups[i].tiles@, across, line, start)
}

/// Whether every member of the sequence is a group of the grid.
pub open spec fn all_groups(tiles: Seq<Option<Gem>>, groups: Seq<Match>) -> bool {
    forall|i: int| 0 <= i < groups.len() ==> is_group(tiles, #[trigger] groups[i])
}

/// The line that a tile lies on: its row when `across`, else its column.
pub open spec fn line_of(across: bool, tile: int) -> int {
    if across {
        tile % 5
    } else {
        tile / 5
    }
}

/// The position of a tile on its line.
pub open spec fn position_of(across: bool, tile: int) -> int {
    if across {
        tile / 5
    } else {
        tile % 5
    }
}

/// The tiles of a line at the positions from `from` up to, not including,
/// `to`.
pub open spec fn segment(across: bool, line: int, from: int, to: int) -> Set<u64> {
    Set::new(
        |t: u64| t < 30 && line_of(across, t as int) == line && from <= position_of(across, t as int) < to,
    )
}

/// A tile of a line knows its line and its position.
proof fn line_tile_facts(across: bool, line: int, position: int)
    requires
        on_line(across, line, position),
    ensures
        0 <= line_tile(across, line, position) < 30,
        line_of(across, line_tile(across, line, position)) == line,
        position_of(across, line_tile(across, line, position)) == position,
{
}

/// A run of three or more gems of one element, taken as a group.
proof fn segment_is_group(
    tiles: Seq<Option<Gem>>,
    across: bool,
    line: int,
    from: int,
    to: int,
    group: Match,
)
    requires
        is_run(tiles, across, line, from, to),
        group.tiles@ == segment(across, line, from, to),
        group.tiles@.finite(),
        group.tiles@.len() >= 3,
        key_on(tiles, across, line, from) == Some(group.element),
    ensures
        is_group(tiles, group),
{
    reveal(is_group);
    assert forall|t: u64| #[trigger] group.tiles@.contains(t) implies t < 30 && matched(
        tiles,
        t as int,
    ) && key_at(tiles, t as int) == Some(group.element) by {
        let p = position_of(across, t as int);
        assert(t as int == line_tile(across, line, p));
        let start = run_has_triple(tiles, across, line, from, to, p);
        assert(in_triple(across, line, start, t as int));
        assert(key_on(tiles, across, line, p) == key_on(tiles, across, line, from));
    }
    assert forall|a: u64, b: u64|
        #![trigger group.tiles@.contains(a), group.tiles@.contains(b)]
        group.tiles@.contains(a) && group.tiles@.contains(b) implies connected(
        tiles,
        a as int,
        b as int,
    ) by {
        let p = position_of(across, a as int);
        let q = position_of(across, b as int);
        assert(a as int == line_tile(across, line, p));
        assert(b as int == line_tile(across, line, q));
        run_is_connected(tiles, across, line, from, to, p, q);
    }
}

/// A triple cannot reach across the place where the element changes.
proof fn triple_stays_in_run(
    tiles: Seq<Option<Gem>>,
    across: bool,
    line: int,
    from: int,
    start: int,
)
    requires
        triple(tiles, across, line, start),
        from > 0 ==> key_on(tiles, across, line, from - 1) != key_on(tiles, across, line, from),
        start <= from <= start + 2,
    ensures
        start == from,
{
    if start < from {
        assert(key_on(tiles, across, line, from - 1) == key_on(tiles, across, line, start));
        assert(key_on(tiles, across, line, from) == key_on(tiles, across, line, start));
    }
}

/// A triple inside a stretch of equal gems makes the stretch a run, and so
/// the group made of the stretch holds the triple.
proof fn run_holds_triple(
    tiles: Seq<Option<Gem>>,
    across: bool,
    line: int,
    from: int,
    to: int,
    start: int,
)
    requires
        on_line(across, line, from),
        on_line(across, line, to - 1),
        forall|p: int|
            from <= p < to ==> #[trigger] key_on(tiles, across, line, p) == key_on(
                tiles,
                across,
                line,
                from,
            ),
        triple(tiles, across, line, start),
        from <= start,
        start + 2 < to,
    ensures
        is_run(tiles, across, line, from, to),
        holds_triple(segment(across, line, from, to), across, line, start),
{
    assert(key_on(tiles, across, line, start) == key_on(tiles, across, line, from));
    line_tile_facts(across, line, start);
    line_tile_facts(across, line, start + 1);
    line_tile_facts(across, line, start + 2);
}

/// The handle of the tile at a position of a line.
fn tile_on_line(across: bool, line: usize, position: usize) -> (tile: u64)
    requires
        on_line(across, line as int, position as int),
    ensures
        tile == line_tile(across, line as int, position as int),
        tile < 30,
{
    if across {
        tile_at(position, line)
    } else {
        tile_at(line, position)
    }
}

/// The element of a gem, if there is a gem.
fn element_of(cell: Option<Gem>) -> (key: Option<Element>)
    ensures
        key == match cell {
            Some(gem) => Some(gem.element),
            None => None,
        },
{
    match cell {
        Some(gem) => Some(gem.element),
        None => None,
    }
}

/// Whether two tiles hold gems of one element, or are both vacant.
fn same_key(a: Option<Element>, b: Option<Element>) -> (same: bool)
    ensures
        same == (a == b),
{
    match (a, b) {
        (Some(first), Some(second)) => first == second,
        (None, None) => true,
        _ => false,
    }
}

/// Ends a stretch of equal gems: if it is a run, it joins the runs as a
/// group.
fn close_run(
    runs: &mut Vec<Match>,
    stretch: IdSet,
    key: Option<Element>,
    Ghost(tiles): Ghost<Seq<Option<Gem>>>,
    Ghost(across): Ghost<bool>,
    Ghost(line): Ghost<int>,
    Ghost(from): Ghost<int>,
    Ghost(to): Ghost<int>,
)
    requires
        on_line(across, line, from),
        on_line(across, line, to - 1),
        from < to,
        forall|p: int| from <= p < to ==> #[trigger] key_on(tiles, across, line, p) == key,
        stretch@ == segment(across, line, from, to),
        stretch@.finite(),
        stretch@.len() == to - from,
        all_groups(tiles, old(runs)@),
    ensures
        all_groups(tiles, final(runs)@),
        final(runs)@.len() >= old(runs)@.len(),
        forall|i: int| 0 <= i < old(runs)@.len() ==> final(runs)@[i] == old(runs)@[i],
        forall|start: int| #[trigger]
            triple(tiles, across, line, start) && from <= start && start + 2 < to ==> covered(
                final(runs)@,
                across,
                line,
                start,
            ),
{
    let count = stretch.len();
    match key {
        Some(element) => {
            if count >= 3 {
                let group = Match { tiles: stretch, element };
                proof {
                    segment_is_group(tiles, across, line, from, to, group);
                }
                runs.push(group);
                proof {
                    let last = runs@.len() - 1;
                    assert forall|start: int| #[trigger]
                        triple(tiles, across, line, start) && from <= start && start + 2
                            < to implies covered(runs@, across, line, start) by {
                        run_holds_triple(tiles, across, line, from, to, start);
                        assert(holds_triple(runs@[last].tiles@, across, line, start));
                    }
                }
            }
        },
        None => {
            proof {
                assert forall|start: int| #[trigger]
                    triple(tiles, across, line, start) && from <= start && start + 2
                        < to implies covered(runs@, across, line, start) by {
                    assert(key_on(tiles, across, line, start) == key);
                }
            }
        },
    }
}

/// Adds the runs of three or more gems of one element that lie on a line.
fn scan_line(grid: &Grid, across: bool, line: usize, runs: &mut Vec<Match>)
    requires
        grid.wf(),
        0 <= line < line_count(across),
        all_groups(grid@, old(runs)@),
    ensures
        all_groups(grid@, final(runs)@),
        final(runs)@.len() >= old(runs)@.len(),
        forall|i: int| 0 <= i < old(runs)@.len() ==> final(runs)@[i] == old(runs)@[i],
        forall|start: int| #[trigger]
            triple(grid@, across, line as int, start) ==> covered(
                final(runs)@,
                across,
                line as int,
                start,
            ),
{
    let length: usize = if across {
        6
    } else {
        5
    };
    let first = tile_on_line(across, line, 0);
    let mut current = IdSet::empty();
    current.insert(first);
    let mut key = element_of(grid.gem_of(first));
    let ghost mut from: int = 0;
    let mut position: usize = 1;
    proof {
        line_tile_facts(across, line as int, 0);
        assert(current@ =~= segment(across, line as int, 0, 1));
    }
    while position < length
        invariant
            grid.wf(),
            0 <= line < line_count(across),
            length == line_length(across),
            1 <= position <= length,
            0 <= from < position,
            forall|p: int|
                from <= p < position ==> #[trigger] key_on(grid@, across, line as int, p) == key,
            from > 0 ==> key_on(grid@, across, line as int, from - 1) != key_on(
                grid@,
                across,
                line as int,
                from,
            ),
            current@ == segment(across, line as int, from, position as int),
            current@.finite(),
            current@.len() == position - from,
            all_groups(grid@, runs@),
            runs@.len() >= old(runs)@.len(),
            forall|i: int| 0 <= i < old(runs)@.len() ==> runs@[i] == old(runs)@[i],
            forall|start: int| #[trigger]
                triple(grid@, across, line as int, start) && start + 2 < position ==> start >= from
                    || covered(runs@, across, line as int, start),
        decreases length - position,
    {
        let tile = tile_on_line(across, line, position);
        let next = element_of(grid.gem_of(tile));
        proof {
            line_tile_facts(across, line as int, position as int);
            assert(key_on(grid@, across, line as int, position as int) == next);
            assert(key_on(grid@, across, line as int, from) == key);
        }
        if same_key(next, key) {
            current.insert(tile);
            proof {
                assert(current@ =~= segment(across, line as int, from, position + 1));
                assert forall|start: int| #[trigger]
                    triple(grid@, across, line as int, start) && start + 2 < position
                        + 1 implies start >= from || covered(runs@, across, line as int, start) by {
                    if start + 2 == position && start < from {
                        triple_stays_in_run(grid@, across, line as int, from, start);
                    }
                }
            }
        } else {
            let mut fresh = IdSet::empty();
            fresh.insert(tile);
            let finished = current;
            current = fresh;
            let ghost before = runs@;
            close_run(
                runs,
                finished,
                key,
                Ghost(grid@),
                Ghost(across),
                Ghost(line as int),
                Ghost(from),
                Ghost(position as int),
            );
            proof {
                assert(current@ =~= segment(across, line as int, position as int, position + 1));
                assert forall|start: int| #[trigger]
                    triple(grid@, across, line as int, start) && start + 2 < position
                        + 1 implies start >= position || covered(
                    runs@,
                    across,
                    line as int,
                    start,
                ) by {
                    if start + 2 == position {
                        assert(key_on(grid@, across, line as int, position - 1) == key);
                    } else if start >= from {
                    } else {
                        cover_grows(before, runs@, across, line as int, start);
                    }
                }
                from = position as int;
            }
            key = next;
        }
        position += 1;
    }
    let ghost before = runs@;
    close_run(
        runs,
        current,
        key,
        Ghost(grid@),
        Ghost(across),
        Ghost(line as int),
        Ghost(from),
        Ghost(position as int),
    );
    proof {
        assert forall|start: int| #[trigger] triple(grid@, across, line as int, start) implies covered(
            runs@,
            across,
            line as int,
            start,
        ) by {
            if start >= from {
            } else {
                cover_grows(before, runs@, across, line as int, start);
            }
        }
    }
}

/// Whether no tile is in two of the groups.
pub open spec fn apart(groups: Seq<Match>) -> bool {
    forall|i: int, j: int|
        0 <= i < groups.len() && 0 <= j < groups.len() && i != j ==> (#[trigger] groups[i]).tiles@.disjoint(
            (#[trigger] groups[j]).tiles@,
        )
}

/// Whether every triple of the grid lies within one of the groups.
pub open spec fn covers_all(tiles: Seq<Option<Gem>>, groups: Seq<Match>) -> bool {
    forall|across: bool, line: int, start: int| #[trigger]
        triple(tiles, across, line, start) ==> covered(groups, across, line, start)
}

/// Whether the groups are what the grid holds in matches: each is a group,
/// no tile is in two of them, every matched tile is in one, and tiles that
/// share a triple are in the same one.
pub open spec fn is_detection(tiles: Seq<Option<Gem>>, groups: Seq<Match>) -> bool {
    &&& all_groups(tiles, groups)
    &&& apart(groups)
    &&& forall|t: int| #[trigger]
        matched(tiles, t) ==> exists|i: int|
            0 <= i < groups.len() && 0 <= t < 30 && (#[trigger] groups[i]).tiles@.contains(t as u64)
    &&& forall|a: int, b: int, i: int|
        #![trigger linked(tiles, a, b), groups[i]]
        linked(tiles, a, b) && 0 <= i < groups.len() && 0 <= a < 30 && groups[i].tiles@.contains(
            a as u64,
        ) ==> 0 <= b < 30 && groups[i].tiles@.contains(b as u64)
}

/// Two groups that share a tile make one group.
proof fn joined_is_group(tiles: Seq<Option<Gem>>, a: Match, b: Match, joined: Match)
    requires
        is_group(tiles, a),
        is_group(tiles, b),
        !a.tiles@.disjoint(b.tiles@),
        joined.tiles@ == a.tiles@.union(b.tiles@),
        joined.element == a.element,
    ensures
        is_group(tiles, joined),
{
    reveal(is_group);
    let shared = choose|t: u64| a.tiles@.contains(t) && b.tiles@.contains(t);
    assert(a.tiles@.contains(shared) && b.tiles@.contains(shared));
    assert(a.element == b.element);
    vstd::set_lib::lemma_len_subset(a.tiles@, joined.tiles@);
    assert forall|x: u64, y: u64|
        #![trigger joined.tiles@.contains(x), joined.tiles@.contains(y)]
        joined.tiles@.contains(x) && joined.tiles@.contains(y) implies connected(
        tiles,
        x as int,
        y as int,
    ) by {
        if a.tiles@.contains(x) {
            assert(connected(tiles, x as int, shared as int));
        } else {
            assert(connected(tiles, x as int, shared as int));
        }
        if a.tiles@.contains(y) {
            assert(connected(tiles, shared as int, y as int));
        } else {
            assert(connected(tiles, shared as int, y as int));
        }
        connected_through(tiles, x as int, shared as int, y as int);
    }
}

/// Taking one group out of groups that share no tile leaves groups that
/// share no tile; the group that was taken out, joined with another that it
/// touches, shares no tile with those that shared none with the other.
proof fn taken_out(
    tiles: Seq<Option<Gem>>,
    before: Seq<Match>,
    i: int,
    grown: Match,
    joined: Match,
)
    requires
        all_groups(tiles, before),
        apart(before),
        0 <= i < before.len(),
        is_group(tiles, grown),
        !before[i].tiles@.disjoint(grown.tiles@),
        forall|j: int| 0 <= j < i ==> (#[trigger] before[j]).tiles@.disjoint(grown.tiles@),
        joined.tiles@ == grown.tiles@.union(before[i].tiles@),
        joined.element == grown.element,
    ensures
        all_groups(tiles, before.remove(i)),
        apart(before.remove(i)),
        is_group(tiles, joined),
        forall|j: int|
            0 <= j < i ==> (#[trigger] before.remove(i)[j]).tiles@.disjoint(joined.tiles@),
{
    let after = before.remove(i);
    assert(!grown.tiles@.disjoint(before[i].tiles@)) by {
        let t = choose|t: u64| before[i].tiles@.contains(t) && grown.tiles@.contains(t);
        assert(grown.tiles@.contains(t) && before[i].tiles@.contains(t));
    }
    joined_is_group(tiles, grown, before[i], joined);
    assert forall|j: int| 0 <= j < after.len() implies is_group(tiles, #[trigger] after[j]) by {
        if j < i {
            assert(after[j] == before[j]);
        } else {
            assert(after[j] == before[j + 1]);
        }
    }
    assert forall|j: int, k: int|
        0 <= j < after.len() && 0 <= k < after.len() && j != k implies (
    #[trigger] after[j]).tiles@.disjoint((#[trigger] after[k]).tiles@) by {
        let jj = if j < i {
            j
        } else {
            j + 1
        };
        let kk = if k < i {
            k
        } else {
            k + 1
        };
        assert(after[j] == before[jj]);
        assert(after[k] == before[kk]);
        assert(before[jj].tiles@.disjoint(before[kk].tiles@));
    }
    assert forall|j: int| 0 <= j < i implies (#[trigger] after[j]).tiles@.disjoint(
        joined.tiles@,
    ) by {
        assert(after[j] == before[j]);
        assert(before[j].tiles@.disjoint(before[i].tiles@));
        assert(before[j].tiles@.disjoint(grown.tiles@));
    }
}

/// A triple that lay within one of the groups, or within the group that
/// grows, still does after one group was taken out and joined to it.
proof fn taken_out_covers(
    before: Seq<Match>,
    i: int,
    grown: Set<u64>,
    joined: Set<u64>,
    across: bool,
    line: int,
    start: int,
)
    requires
        0 <= i < before.len(),
        joined == grown.union(before[i].tiles@),
        covered(before, across, line, start) || holds_triple(grown, across, line, start),
    ensures
        covered(before.remove(i), across, line, start) || holds_triple(
            joined,
            across,
            line,
            start,
        ),
{
    let after = before.remove(i);
    if !holds_triple(grown, across, line, start) {
        let k = choose|k: int|
            0 <= k < before.len() && holds_triple(
                #[trigger] before[k].tiles@,
                across,
                line,
                start,
            );
        if k < i {
            assert(after[k] == before[k]);
        } else if k > i {
            assert(after[k - 1] == before[k]);
        }
    }
}

/// Adding a group that shares no tile with the others keeps the groups
/// apart.
proof fn put_back(tiles: Seq<Option<Gem>>, before: Seq<Match>, group: Match)
    requires
        all_groups(tiles, before),
        apart(before),
        is_group(tiles, group),
        forall|j: int| 0 <= j < before.len() ==> (#[trigger] before[j]).tiles@.disjoint(group.tiles@),
    ensures
        all_groups(tiles, before.push(group)),
        apart(before.push(group)),
{
    let after = before.push(group);
    assert forall|j: int| 0 <= j < after.len() implies is_group(tiles, #[trigger] after[j]) by {
        if j < before.len() {
            assert(after[j] == before[j]);
        }
    }
    assert forall|j: int, k: int|
        0 <= j < after.len() && 0 <= k < after.len() && j != k implies (
    #[trigger] after[j]).tiles@.disjoint((#[trigger] after[k]).tiles@) by {
        if j < before.len() && k < before.len() {
            assert(after[j] == before[j]);
            assert(after[k] == before[k]);
            assert(before[j].tiles@.disjoint(before[k].tiles@));
        } else if j < before.len() {
            assert(after[j] == before[j]);
            assert(before[j].tiles@.disjoint(group.tiles@));
        } else {
            assert(after[k] == before[k]);
            assert(before[k].tiles@.disjoint(group.tiles@));
        }
    }
}

/// A triple within one of the groups or within the group that joins them
/// lies within one of them all.
proof fn put_back_covers(
    before: Seq<Match>,
    group: Match,
    across: bool,
    line: int,
    start: int,
)
    requires
        covered(before, across, line, start) || holds_triple(group.tiles@, across, line, start),
    ensures
        covered(before.push(group), across, line, start),
{
    let after = before.push(group);
    if holds_triple(group.tiles@, across, line, start) {
        assert(after[before.len() as int] == group);
    } else {
        let k = choose|k: int|
            0 <= k < before.len() && holds_triple(
                #[trigger] before[k].tiles@,
                across,
                line,
                start,
            );
        assert(after[k] == before[k]);
    }
}

/// Puts a group among groups that share no tile: the groups that touch it
/// are taken out and joined with it.
fn merge_in(groups: &mut Vec<Match>, run: Match, Ghost(tiles): Ghost<Seq<Option<Gem>>>)
    requires
        all_groups(tiles, old(groups)@),
        apart(old(groups)@),
        is_group(tiles, run),
    ensures
        all_groups(tiles, final(groups)@),
        apart(final(groups)@),
        forall|across: bool, line: int, start: int| #[trigger]
            triple(tiles, across, line, start) && (covered(old(groups)@, across, line, start)
                || holds_triple(run.tiles@, across, line, start)) ==> covered(
                final(groups)@,
                across,
                line,
                start,
            ),
{
    let mut current = run;
    let mut i: usize = 0;
    while i < groups.len()
        invariant
            all_groups(tiles, groups@),
            apart(groups@),
            is_group(tiles, current),
            0 <= i <= groups@.len(),
            forall|j: int| 0 <= j < i ==> (#[trigger] groups@[j]).tiles@.disjoint(current.tiles@),
            forall|across: bool, line: int, start: int| #[trigger]
                triple(tiles, across, line, start) && (covered(old(groups)@, across, line, start)
                    || holds_triple(run.tiles@, across, line, start)) ==> covered(
                    groups@,
                    across,
                    line,
                    start,
                ) || holds_triple(current.tiles@, across, line, start),
        decreases groups@.len() - i,
    {
        if !groups[i].tiles.is_disjoint(&current.tiles) {
            let ghost before = groups@;
            let ghost grown = current;
            let other = groups.remove(i);
            let element = current.element;
            let mut joined = current.tiles;
            joined.absorb(other.tiles);
            current = Match { tiles: joined, element };
            proof {
                taken_out(tiles, before, i as int, grown, current);
                assert forall|across: bool, line: int, start: int| #[trigger]
                    triple(tiles, across, line, start) && (covered(
                        old(groups)@,
                        across,
                        line,
                        start,
                    ) || holds_triple(run.tiles@, across, line, start)) implies covered(
                    groups@,
                    across,
                    line,
                    start,
                ) || holds_triple(current.tiles@, across, line, start) by {
                    taken_out_covers(
                        before,
                        i as int,
                        grown.tiles@,
                        current.tiles@,
                        across,
                        line,
                        start,
                    );
                }
            }
        } else {
            i += 1;
        }
    }
    let ghost before = groups@;
    groups.push(current);
    proof {
        put_back(tiles, before, current);
        assert forall|across: bool, line: int, start: int| #[trigger]
            triple(tiles, across, line, start) && (covered(old(groups)@, across, line, start)
                || holds_triple(run.tiles@, across, line, start)) implies covered(
            groups@,
            across,
            line,
            start,
        ) by {
            put_back_covers(before, current, across, line, start);
        }
    }
}

/// Groups that share no tile and cover every triple are the grid's matches.
proof fn detection_from_cover(tiles: Seq<Option<Gem>>, groups: Seq<Match>)
    requires
        all_groups(tiles, groups),
        apart(groups),
        covers_all(tiles, groups),
    ensures
        is_detection(tiles, groups),
{
    assert forall|t: int| #[trigger] matched(tiles, t) implies exists|i: int|
        0 <= i < groups.len() && 0 <= t < 30 && (#[trigger] groups[i]).tiles@.contains(
            t as u64,
        ) by {
        let (across, line, start) = choose|across: bool, line: int, start: int| #[trigger]
            triple(tiles, across, line, start) && in_triple(across, line, start, t);
        assert(covered(groups, across, line, start));
        let i = choose|i: int|
            0 <= i < groups.len() && holds_triple(#[trigger] groups[i].tiles@, across, line, start);
        line_tile_facts(across, line, start);
        line_tile_facts(across, line, start + 1);
        line_tile_facts(across, line, start + 2);
        assert(groups[i].tiles@.contains(t as u64));
    }
    assert forall|a: int, b: int, i: int|
        #![trigger linked(tiles, a, b), groups[i]]
        linked(tiles, a, b) && 0 <= i < groups.len() && 0 <= a < 30 && groups[i].tiles@.contains(
            a as u64,
        ) implies 0 <= b < 30 && groups[i].tiles@.contains(b as u64) by {
        let (across, line, start) = choose|across: bool, line: int, start: int| #[trigger]
            triple(tiles, across, line, start) && in_triple(across, line, start, a) && in_triple(
                across,
                line,
                start,
                b,
            );
        assert(covered(groups, across, line, start));
        let j = choose|j: int|
            0 <= j < groups.len() && holds_triple(#[trigger] groups[j].tiles@, across, line, start);
        line_tile_facts(across, line, start);
        line_tile_facts(across, line, start + 1);
        line_tile_facts(across, line, start + 2);
        assert(groups[j].tiles@.contains(a as u64));
        assert(groups[j].tiles@.contains(b as u64));
        if i != j {
            assert(groups[i].tiles@.disjoint(groups[j].tiles@));
        }
    }
}

/// Finds the groups of matching gems on the grid.
///
/// Every row and every column is searched for runs of three or more gems of
/// one element, and runs that share a tile are joined, so that each group
/// that comes back is a whole connected shape. The order of the groups is
/// not fixed. A grid without a triple gives no group.
pub fn find_matches(grid: &Grid) -> (groups: Vec<Match>)
    requires
        grid.wf(),
    ensures
        is_detection(grid@, groups@),
        forall|i: int|
            0 <= i < groups@.len() ==> (#[trigger] groups@[i]).tiles@.finite()
                && groups@[i].tiles@.len() >= 3,
{
    let mut runs: Vec<Match> = Vec::new();
    let mut line: usize = 0;
    while line < 5
        invariant
            grid.wf(),
            0 <= line <= 5,
            all_groups(grid@, runs@),
            forall|l: int, start: int|
                0 <= l < line && #[trigger] triple(grid@, true, l, start) ==> covered(
                    runs@,
                    true,
                    l,
                    start,
                ),
        decreases 5 - line,
    {
        let ghost before = runs@;
        scan_line(grid, true, line, &mut runs);
        proof {
            assert forall|l: int, start: int|
                0 <= l < line + 1 && #[trigger] triple(grid@, true, l, start) implies covered(
                runs@,
                true,
                l,
                start,
            ) by {
                if l < line {
                    cover_grows(before, runs@, true, l, start);
                }
            }
        }
        line += 1;
    }
    line = 0;
    while line < 6
        invariant
            grid.wf(),
            0 <= line <= 6,
            all_groups(grid@, runs@),
            forall|l: int, start: int| #[trigger]
                triple(grid@, true, l, start) ==> covered(runs@, true, l, start),
            forall|l: int, start: int|
                0 <= l < line && #[trigger] triple(grid@, false, l, start) ==> covered(
                    runs@,
                    false,
                    l,
                    start,
                ),
        decreases 6 - line,
    {
        let ghost before = runs@;
        scan_line(grid, false, line, &mut runs);
        proof {
            assert forall|l: int, start: int| #[trigger]
                triple(grid@, true, l, start) implies covered(runs@, true, l, start) by {
                cover_grows(before, runs@, true, l, start);
            }
            assert forall|l: int, start: int|
                0 <= l < line + 1 && #[trigger] triple(grid@, false, l, start) implies covered(
                runs@,
                false,
                l,
                start,
            ) by {
                if l < line {
                    cover_grows(before, runs@, false, l, start);
                }
            }
        }
        line += 1;
    }
    let mut groups: Vec<Match> = Vec::new();
    loop
        invariant
            all_groups(grid@, runs@),
            all_groups(grid@, groups@),
            apart(groups@),
            forall|across: bool, l: int, start: int| #[trigger]
                triple(grid@, across, l, start) ==> covered(runs@, across, l, start) || covered(
                    groups@,
                    across,
                    l,
                    start,
                ),
        ensures
            all_groups(grid@, groups@),
            apart(groups@),
            covers_all(grid@, groups@),
        decreases runs@.len(),
    {
        let ghost before = runs@;
        let ghost merged = groups@;
        match runs.pop() {
            Some(run) => {
                merge_in(&mut groups, run, Ghost(grid@));
                proof {
                    assert forall|across: bool, l: int, start: int| #[trigger]
                        triple(grid@, across, l, start) implies covered(runs@, across, l, start)
                        || covered(groups@, across, l, start) by {
                        if covered(before, across, l, start) {
                            cover_splits(before, across, l, start);
                        }
                    }
                }
            },
            None => {
                proof {
                    assert forall|across: bool, l: int, start: int| #[trigger]
                        triple(grid@, across, l, start) implies covered(
                        groups@,
                        across,
                        l,
                        start,
                    ) by {
                        assert(!covered(runs@, across, l, start));
                    }
                }
                break ;
            },
        }
    }
    proof {
        detection_from_cover(grid@, groups@);
        reveal(is_group);
    }
    groups
}

/// A triple that lies within one of some groups lies within the last of
/// them or within one of the others.
proof fn cover_splits(groups: Seq<Match>, across: bool, line: int, start: int)
    requires
        covered(groups, across, line, start),
    ensures
        groups.len() > 0,
        covered(groups.drop_last(), across, line, start) || holds_triple(
            groups.last().tiles@,
            across,
            line,
            start,
        ),
{
    let i = choose|i: int|
        0 <= i < groups.len() && holds_triple(#[trigger] groups[i].tiles@, across, line, start);
    if i < groups.len() - 1 {
        assert(groups.drop_last()[i] == groups[i]);
    }
}

/// A triple that lies within one of some groups still does when more
/// groups follow them.
proof fn cover_grows(
    before: Seq<Match>,
    after: Seq<Match>,
    across: bool,
    line: int,
    start: int,
)
    requires
        covered(before, across, line, start),
        after.len() >= before.len(),
        forall|i: int| 0 <= i < before.len() ==> after[i] == before[i],
    ensures
        covered(after, across, line, start),
{
    let i = choose|i: int|
        0 <= i < before.len() && holds_triple(#[trigger] before[i].tiles@, across, line, start);
    assert(after[i] == before[i]);
}

/// Along a chain that starts in a group, every tile is in that group.
proof fn chain_stays_in_group(
    tiles: Seq<Option<Gem>>,
    groups: Seq<Match>,
    i: int,
    chain: Seq<int>,
    n: int,
)
    requires
        is_detection(tiles, groups),
        0 <= i < groups.len(),
        is_chain(tiles, chain),
        0 <= chain[0] < 30,
        groups[i].tiles@.contains(chain[0] as u64),
        0 <= n < chain.len(),
    ensures
        0 <= chain[n] < 30,
        groups[i].tiles@.contains(chain[n] as u64),
    decreases n,
{
    if n > 0 {
        chain_stays_in_group(tiles, groups, i, chain, n - 1);
        assert(linked(tiles, chain[n - 1], chain[n]));
    }
}

/// A group of one detection that shares a tile with a group of another
/// detection of the same grid lies within it.
proof fn group_lies_within(
    tiles: Seq<Option<Gem>>,
    first: Seq<Match>,
    second: Seq<Match>,
    i: int,
    j: int,
    shared: u64,
)
    requires
        is_detection(tiles, first),
        is_detection(tiles, second),
        0 <= i < first.len(),
        0 <= j < second.len(),
        first[i].tiles@.contains(shared),
        second[j].tiles@.contains(shared),
    ensures
        first[i].tiles@.subset_of(second[j].tiles@),
        first[i].element == second[j].element,
{
    reveal(is_group);
    assert(is_group(tiles, first[i]));
    assert(is_group(tiles, second[j]));
    assert forall|t: u64| first[i].tiles@.contains(t) implies second[j].tiles@.contains(t) by {
        assert(connected(tiles, shared as int, t as int));
        let chain = choose|chain: Seq<int>| #[trigger]
            is_chain(tiles, chain) && chain[0] == shared as int && chain[chain.len() - 1]
                == t as int;
        chain_stays_in_group(tiles, second, j, chain, chain.len() - 1);
    }
}

/// Whether one of the groups has the tiles and the element of `group`.
pub open spec fn holds_group(groups: Seq<Match>, group: Match) -> bool {
    exists|j: int| 0 <= j < groups.len() && (#[trigger] groups[j])@ == group@
}

/// Two detections of one grid hold the same groups: each group of the one
/// is, with the same tiles and the same element, a group of the other, and
/// there are as many of them. What the detector finds depends on the grid
/// alone.
pub proof fn detection_is_unique(tiles: Seq<Option<Gem>>, first: Seq<Match>, second: Seq<Match>)
    requires
        is_detection(tiles, first),
        is_detection(tiles, second),
    ensures
        forall|i: int| 0 <= i < first.len() ==> holds_group(second, #[trigger] first[i]),
        forall|j: int| 0 <= j < second.len() ==> holds_group(first, #[trigger] second[j]),
        first.len() == second.len(),
{
    assert forall|i: int| 0 <= i < first.len() implies holds_group(
        second,
        #[trigger] first[i],
    ) by {
        let j = same_group_in(tiles, first, second, i);
    }
    assert forall|j: int| 0 <= j < second.len() implies holds_group(
        first,
        #[trigger] second[j],
    ) by {
        let i = same_group_in(tiles, second, first, j);
    }
    same_count(tiles, first, second);
    same_count(tiles, second, first);
}

/// The group of another detection that has the same tiles and element as a
/// group of this one.
proof fn same_group_in(
    tiles: Seq<Option<Gem>>,
    first: Seq<Match>,
    second: Seq<Match>,
    i: int,
) -> (j: int)
    requires
        is_detection(tiles, first),
        is_detection(tiles, second),
        0 <= i < first.len(),
    ensures
        0 <= j < second.len(),
        second[j]@ == first[i]@,
{
    assert(is_group(tiles, first[i]));
    let shared = group_member(tiles, first[i]);
    assert(matched(tiles, shared as int));
    let j = choose|j: int|
        0 <= j < second.len() && 0 <= shared < 30 && (#[trigger] second[j]).tiles@.contains(
            shared as int as u64,
        );
    group_lies_within(tiles, first, second, i, j, shared);
    group_lies_within(tiles, second, first, j, i, shared);
    assert(first[i].tiles@ =~= second[j].tiles@);
    j
}

/// A tile of a group: every group has one, and it is a matched tile.
proof fn group_member(tiles: Seq<Option<Gem>>, group: Match) -> (tile: u64)
    requires
        is_group(tiles, group),
    ensures
        group.tiles@.contains(tile),
        tile < 30,
        matched(tiles, tile as int),
{
    reveal(is_group);
    let tile = group.tiles@.choose();
    assert(group.tiles@.len() > 0);
    tile
}

/// One detection has no more groups than another of the same grid.
proof fn same_count(tiles: Seq<Option<Gem>>, first: Seq<Match>, second: Seq<Match>)
    requires
        is_detection(tiles, first),
        is_detection(tiles, second),
    ensures
        first.len() <= second.len(),
{
    let partner = |i: int| same_group_of(tiles, first, second, i);
    let from = vstd::set_lib::set_int_range(0, first.len() as int);
    let into = vstd::set_lib::set_int_range(0, second.len() as int);
    vstd::set_lib::lemma_int_range(0, first.len() as int);
    vstd::set_lib::lemma_int_range(0, second.len() as int);
    assert forall|a: int| from.contains(a) implies into.contains(#[trigger] partner(a))
        && second[partner(a)]@ == first[a]@ by {
        let j = same_group_in(tiles, first, second, a);
    }
    assert forall|a: int, b: int|
        from.contains(a) && from.contains(b) && #[trigger] partner(a) == #[trigger] partner(
            b,
        ) implies a == b by {
        assert(first[a]@ == first[b]@);
        assert(is_group(tiles, first[a]));
        let tile = group_member(tiles, first[a]);
        if a != b {
            assert(first[a].tiles@.disjoint(first[b].tiles@));
        }
    }
    assert(vstd::relations::injective_on(partner, from));
    let image = from.map(partner);
    vstd::set_lib::lemma_map_size(from, image, partner);
    assert forall|j: int| image.contains(j) implies into.contains(j) by {
        let a = choose|a: int| from.contains(a) && j == partner(a);
        assert(into.contains(partner(a)));
    }
    vstd::set_lib::lemma_len_subset(image, into);
}

/// The place in another detection of the group that has the same tiles and
/// element as the group at place `i` of this one.
spec fn same_group_of(
    tiles: Seq<Option<Gem>>,
    first: Seq<Match>,
    second: Seq<Match>,
    i: int,
) -> int {
    choose|j: int| 0 <= j < second.len() && (#[trigger] second[j])@ == first[i]@
}

} // verus!
