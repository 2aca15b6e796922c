//! How long the animations of the board take, in whole units of time.

use crate::board::Destroyed;
use crate::grid::Gem;
use crate::matching::Match;
use vstd::prelude::*;

verus! {

/// The wait before the first matched group is destroyed, in milliseconds.
pub const MATCH_START_DELAY: u64 = 100;

/// The wait between two matched groups, in milliseconds.
pub const BETWEEN_MATCH_DELAY: u64 = 100;

/// The wait between two gems of one group, in milliseconds.
pub const BETWEEN_GEM_DELAY: u64 = 0;

/// How long a gem takes to vanish, in milliseconds.
pub const DESTROY_TIME: u64 = 100;

/// The pull on a falling gem, in rows per second per second.
pub const GRAVITY: u64 = 30;

/// When a gem starts to vanish, in milliseconds after the matches were
/// found: after the first wait, one wait for each group before its own and
/// one for each gem destroyed before it.
pub open spec fn destroy_delay_of(groups_before: int, gems_before: int) -> int {
    MATCH_START_DELAY + groups_before * BETWEEN_MATCH_DELAY + gems_before * BETWEEN_GEM_DELAY
}

/// When a gem starts to vanish, in milliseconds after the matches were
/// found.
pub fn destroy_delay(groups_before: u32, gems_before: u32) -> (delay: u64)
    ensures
        delay == destroy_delay_of(groups_before as int, gems_before as int),
{
    let groups: u64 = groups_before as u64;
    let gems: u64 = gems_before as u64;
    MATCH_START_DELAY + groups * BETWEEN_MATCH_DELAY + gems * BETWEEN_GEM_DELAY
}

/// When a destroyed gem is gone, in milliseconds after the matches were
/// found: when it starts to vanish, and the time that vanishing takes.
pub fn despawn_delay(groups_before: u32, gems_before: u32) -> (delay: u64)
    ensures
        delay == destroy_delay_of(groups_before as int, gems_before as int) + DESTROY_TIME,
{
    destroy_delay(groups_before, gems_before) + DESTROY_TIME
}

/// Whether `micros` is the time of a free fall over `rows` rows, rounded
/// down to whole microseconds: a fall from rest under the pull `GRAVITY`
/// covers `rows` in the time `t` with `t * t * GRAVITY == 2 * rows`.
pub open spec fn is_fall_time(rows: int, micros: int) -> bool {
    &&& 0 <= micros
    &&& micros * micros * GRAVITY <= 2 * rows * 1_000_000_000_000
    &&& 2 * rows * 1_000_000_000_000 < (micros + 1) * (micros + 1) * GRAVITY
}

/// The square of a number of at most thirty-five bits has at most seventy.
proof fn small_square(m: int)
    requires
        0 <= m <= 0x8_0000_0000,
    ensures
        0 <= m * m <= 0x40_0000_0000_0000_0000,
{
    assert(0 <= m * m <= 0x40_0000_0000_0000_0000) by (nonlinear_arith)
        requires
            0 <= m <= 0x8_0000_0000,
    ;
}

/// How long a gem takes to fall `rows` rows, in microseconds.
pub fn fall_duration(rows: u32) -> (micros: u64)
    ensures
        is_fall_time(rows as int, micros as int),
{
    let target: u128 = 2 * (rows as u128) * 1_000_000_000_000;
    let mut low: u128 = 0;
    let mut high: u128 = 0x8_0000_0000;
    proof {
        assert(0x8_0000_0000int * 0x8_0000_0000int == 0x40_0000_0000_0000_0000int)
            by (nonlinear_arith);
    }
    assert(target < high * high * GRAVITY);
    while high - low > 1
        invariant
            target == 2 * rows * 1_000_000_000_000,
            0 <= low < high <= 0x8_0000_0000,
            low * low * GRAVITY <= target,
            target < high * high * GRAVITY,
        decreases high - low,
    {
        let middle = low + (high - low) / 2;
        proof {
            small_square(middle as int);
        }
        if middle * middle * (GRAVITY as u128) <= target {
            low = middle;
        } else {
            high = middle;
        }
    }
    low as u64
}

/// A destroyed gem with its place in time: when it starts to vanish and
/// when it is gone, both in milliseconds after the matches were found.
#[derive(Debug, Clone, Copy, PartialEq, Eq, Structural)]
pub struct Vanishing {
    /// The tile in which the gem sat.
    pub tile: u64,
    /// The gem.
    pub gem: Gem,
    /// When the gem starts to vanish.
    pub delay: u64,
    /// When the gem is gone.
    pub gone: u64,
}

/// A time held down to the largest that can be counted.
pub open spec fn capped(millis: int) -> u64 {
    if millis <= u64::MAX {
        millis as u64
    } else {
        u64::MAX
    }
}

/// A destroyed gem with its times, when so many groups and so many gems
/// come before it.
pub open spec fn vanishing_of(entry: Destroyed, groups_before: int, gems_before: int) -> Vanishing {
    Vanishing {
        tile: entry.tile,
        gem: entry.gem,
        delay: capped(destroy_delay_of(groups_before, gems_before)),
        gone: capped(destroy_delay_of(groups_before, gems_before) + DESTROY_TIME),
    }
}

/// The gems of one group among the first `count` destroyed gems, in their
/// order, each with its times; `gems_before` gems of earlier groups come
/// before the first of them.
pub open spec fn group_schedule(
    tiles: Set<u64>,
    destroyed: Seq<Destroyed>,
    count: int,
    groups_before: int,
    gems_before: int,
) -> Seq<Vanishing>
    decreases count,
{
    if count <= 0 {
        Seq::empty()
    } else {
        let before = group_schedule(tiles, destroyed, count - 1, groups_before, gems_before);
        if tiles.contains(destroyed[count - 1].tile) {
            before.push(
                vanishing_of(destroyed[count - 1], groups_before, gems_before + before.len()),
            )
        } else {
            before
        }
    }
}

/// The gems of the first `count` groups, group after group, each with its
/// times.
pub open spec fn schedule(groups: Seq<Match>, destroyed: Seq<Destroyed>, count: int) -> Seq<
    Vanishing,
>
    decreases count,
{
    if count <= 0 {
        Seq::empty()
    } else {
        let before = schedule(groups, destroyed, count - 1);
        before + group_schedule(
            groups[count - 1].tiles@,
            destroyed,
            destroyed.len() as int,
            count - 1,
            before.len() as int,
        )
    }
}

/// When a gem starts to vanish and when it is gone, held down to the
/// largest time that can be counted.
fn times_for(groups_before: usize, gems_before: usize) -> (times: (u64, u64))
    ensures
        times.0 == capped(destroy_delay_of(groups_before as int, gems_before as int)),
        times.1 == capped(destroy_delay_of(groups_before as int, gems_before as int) + DESTROY_TIME),
{
    let delay: u128 = MATCH_START_DELAY as u128 + (groups_before as u128) * (
    BETWEEN_MATCH_DELAY as u128) + (gems_before as u128) * (BETWEEN_GEM_DELAY as u128);
    let gone: u128 = delay + DESTROY_TIME as u128;
    let limit: u128 = u64::MAX as u128;
    (
        if delay <= limit {
            delay as u64
        } else {
            u64::MAX
        },
        if gone <= limit {
            gone as u64
        } else {
            u64::MAX
        },
    )
}

/// Says for each destroyed gem when it starts to vanish and when it is
/// gone. The gems are taken group after group and, within a group, in the
/// order in which they were destroyed; a gem starts to vanish at
/// [`destroy_delay_of`] the groups and gems before it, and is gone the time
/// that vanishing takes later.
pub fn destroy_schedule(matches: &Vec<Match>, destroyed: &Vec<Destroyed>) -> (plan: Vec<Vanishing>)
    ensures
        plan@ == schedule(matches@, destroyed@, matches@.len() as int),
{
    let mut plan: Vec<Vanishing> = Vec::new();
    let mut k: usize = 0;
    while k < matches.len()
        invariant
            k <= matches@.len(),
            plan@ == schedule(matches@, destroyed@, k as int),
        decreases matches@.len() - k,
    {
        let ghost before = plan@;
        let mut i: usize = 0;
        while i < destroyed.len()
            invariant
                k < matches@.len(),
                i <= destroyed@.len(),
                before == schedule(matches@, destroyed@, k as int),
                plan@ == before + group_schedule(
                    matches@[k as int].tiles@,
                    destroyed@,
                    i as int,
                    k as int,
                    before.len() as int,
                ),
            decreases destroyed@.len() - i,
        {
            let entry = destroyed[i];
            if matches[k].contains(entry.tile) {
                let (delay, gone) = times_for(k, plan.len());
                plan.push(Vanishing { tile: entry.tile, gem: entry.gem, delay, gone });
            }
            proof {
                assert(plan@ =~= before + group_schedule(
                    matches@[k as int].tiles@,
                    destroyed@,
                    i + 1,
                    k as int,
                    before.len() as int,
                ));
            }
            i += 1;
        }
        k += 1;
    }
    plan
}

} // verus!
