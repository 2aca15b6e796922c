//! Finding the tile under the pointer, and noticing when the pointer comes
//! over a thing or leaves it.
//!
//! Places on the board are measured in thousandths of a tile's side, from
//! the lower left corner of the board: the tile in column `x` and row `y`
//! has its centre at `(1000 x + 500, 1000 y + 500)`.

use crate::grid::tile_at;
use crate::grid::tile_handle;
use vstd::prelude::*;

verus! {

/// The side of a tile, in the units in which places are measured.
pub const TILE_SIDE: i64 = 1000;

/// Where the centre of a column or row lies along its axis.
pub open spec fn centre(index: int) -> int {
    1000 * index + 500
}

/// The square of the distance between a place and the centre of a tile.
pub open spec fn distance_squared(px: int, py: int, tile: int) -> int {
    let dx = px - centre(tile / 5);
    let dy = py - centre(tile % 5);
    dx * dx + dy * dy
}

/// Whether no tile lies closer to the place than `tile`, and none that is
/// as close has a larger handle.
pub open spec fn is_closest(px: int, py: int, tile: int) -> bool {
    &&& 0 <= tile < 30
    &&& forall|other: int|
        0 <= other < 30 ==> distance_squared(px, py, tile) <= #[trigger] distance_squared(
            px,
            py,
            other,
        )
    &&& forall|other: int|
        0 <= other < 30 && #[trigger] distance_squared(px, py, other) == distance_squared(
            px,
            py,
            tile,
        ) ==> other <= tile
}

/// The tile that lies closest to a place.
pub open spec fn nearest(px: int, py: int) -> int {
    choose|tile: int| is_closest(px, py, tile)
}

/// Only one tile is the closest to a place.
pub proof fn closest_is_unique(px: int, py: int, a: int, b: int)
    requires
        is_closest(px, py, a),
        is_closest(px, py, b),
    ensures
        a == b,
{
    assert(distance_squared(px, py, a) <= distance_squared(px, py, b));
    assert(distance_squared(px, py, b) <= distance_squared(px, py, a));
}

/// The closest tile to a place is the one that `nearest` names.
pub proof fn closest_is_nearest(px: int, py: int, tile: int)
    requires
        is_closest(px, py, tile),
    ensures
        nearest(px, py) == tile,
        is_closest(px, py, nearest(px, py)),
{
    closest_is_unique(px, py, tile, nearest(px, py));
}

/// The distance along one axis between a place and a centre.
pub open spec fn axis_distance(p: int, index: int) -> int {
    if p >= centre(index) {
        p - centre(index)
    } else {
        centre(index) - p
    }
}

/// The column or row, out of `count`, whose centre lies closest to `p`
/// along the axis; of two that are as close, the one with the larger index.
fn closest_index(p: i64, count: usize) -> (index: usize)
    requires
        1 <= count <= 6,
    ensures
        index < count,
        forall|other: int|
            0 <= other < count ==> axis_distance(p as int, index as int) <= #[trigger] axis_distance(
                p as int,
                other,
            ),
        forall|other: int|
            0 <= other < count && #[trigger] axis_distance(p as int, other) == axis_distance(
                p as int,
                index as int,
            ) ==> other <= index,
{
    if p < 0 {
        0
    } else if p / TILE_SIDE >= count as i64 {
        count - 1
    } else {
        (p / TILE_SIDE) as usize
    }
}

/// A number that is no further from zero than another has no larger
/// square, and an equal square only if it is as far from zero.
proof fn squares_follow_distance(a: int, b: int)
    requires
        0 <= a <= b,
    ensures
        a * a <= b * b,
        a * a == b * b ==> a == b,
{
    assert(a * a <= b * b && (a * a == b * b ==> a == b)) by (nonlinear_arith)
        requires
            0 <= a <= b,
    ;
}

/// The square of a difference is the square of the distance.
proof fn square_of_distance(p: int, index: int)
    ensures
        (p - centre(index)) * (p - centre(index)) == axis_distance(p, index) * axis_distance(
            p,
            index,
        ),
{
    let d = p - centre(index);
    assert(d * d == (-d) * (-d)) by (nonlinear_arith);
}

/// The tile whose centre lies closest to a place. Of several tiles that are
/// as close, the one with the largest handle is taken.
pub fn closest_tile(px: i64, py: i64) -> (tile: u64)
    ensures
        is_closest(px as int, py as int, tile as int),
{
    let x = closest_index(px, 6);
    let y = closest_index(py, 5);
    let tile = tile_at(x, y);
    proof {
        assert forall|other: int| 0 <= other < 30 implies distance_squared(
            px as int,
            py as int,
            tile as int,
        ) <= #[trigger] distance_squared(px as int, py as int, other) && (distance_squared(
            px as int,
            py as int,
            other,
        ) == distance_squared(px as int, py as int, tile as int) ==> other <= tile) by {
            let ox = other / 5;
            let oy = other % 5;
            square_of_distance(px as int, x as int);
            square_of_distance(py as int, y as int);
            square_of_distance(px as int, ox);
            square_of_distance(py as int, oy);
            assert(axis_distance(px as int, x as int) <= axis_distance(px as int, ox));
            assert(axis_distance(py as int, y as int) <= axis_distance(py as int, oy));
            squares_follow_distance(
                axis_distance(px as int, x as int),
                axis_distance(px as int, ox),
            );
            squares_follow_distance(
                axis_distance(py as int, y as int),
                axis_distance(py as int, oy),
            );
            assert(tile as int / 5 == x as int && tile as int % 5 == y as int);
            if distance_squared(px as int, py as int, other) == distance_squared(
                px as int,
                py as int,
                tile as int,
            ) {
                assert(axis_distance(px as int, ox) == axis_distance(px as int, x as int));
                assert(axis_distance(py as int, oy) == axis_distance(py as int, y as int));
                assert(ox <= x);
                assert(oy <= y);
                assert(other == tile_handle(ox, oy));
            }
        }
    }
    tile
}

/// What a pointer does when it crosses the edge of a thing.
#[derive(Debug, Clone, Copy, PartialEq, Eq, Structural)]
pub enum WorldCursorEventInfo {
    Entered,
    Exited,
}

/// What is to be reported when a pointer that was or was not over a thing
/// is or is not over it now.
pub fn hover_event(was_over: bool, is_over: bool) -> (info: Option<WorldCursorEventInfo>)
    ensures
        info == if was_over == is_over {
            None
        } else if is_over {
            Some(WorldCursorEventInfo::Entered)
        } else {
            Some(WorldCursorEventInfo::Exited)
        },
{
    if was_over == is_over {
        None
    } else if is_over {
        Some(WorldCursorEventInfo::Entered)
    } else {
        Some(WorldCursorEventInfo::Exited)
    }
}

/// What a button of the pointer has done.
#[derive(Debug, Clone, Copy, PartialEq, Eq, Structural)]
pub enum ButtonState {
    Pressed,
    Released,
}

/// Whether the last thing that the button did in a tick is `wanted`. The
/// list holds what the button did during the tick, in order; a button that
/// did nothing asks for nothing.
pub open spec fn ends_with(states: Seq<ButtonState>, wanted: ButtonState) -> bool {
    states.len() > 0 && states.last() == wanted
}

/// Whether the button asks for a gem to be picked up: the last thing that
/// it did in the tick was to go down.
pub fn ends_pressed(states: &Vec<ButtonState>) -> (asked: bool)
    ensures
        asked == ends_with(states@, ButtonState::Pressed),
{
    states.len() > 0 && states[states.len() - 1] == ButtonState::Pressed
}

/// Whether the button asks for the dragged gem to be dropped: the last
/// thing that it did in the tick was to come up.
pub fn ends_released(states: &Vec<ButtonState>) -> (asked: bool)
    ensures
        asked == ends_with(states@, ButtonState::Released),
{
    states.len() > 0 && states[states.len() - 1] == ButtonState::Released
}

/// Whether the button was clicked: it went down at some time in the tick.
pub fn any_pressed(states: &Vec<ButtonState>) -> (clicked: bool)
    ensures
        clicked == states@.contains(ButtonState::Pressed),
{
    let mut i: usize = 0;
    while i < states.len()
        invariant
            i <= states@.len(),
            forall|j: int| 0 <= j < i ==> states@[j] != ButtonState::Pressed,
        decreases states@.len() - i,
    {
        if states[i] == ButtonState::Pressed {
            return true;
        }
        i += 1;
    }
    false
}

} // verus!
