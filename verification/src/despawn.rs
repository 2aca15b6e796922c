//! Things that leave the game after a delay, and the reports of their
//! leaving.

use vstd::prelude::*;

verus! {

/// Why a thing leaves the game.
#[derive(Debug, Clone, Copy, PartialEq, Eq, Structural)]
pub enum DespawnReason {
    /// A matched gem was destroyed.
    DestroyGem,
    /// An enemy was beaten.
    DestroyEnemy,
}

/// A thing's remaining time in the game, in microseconds, and why it
/// leaves.
#[derive(Debug, Clone, Copy, PartialEq, Eq, Structural)]
pub struct DelayedDespawn {
    remaining: u64,
    reason: Option<DespawnReason>,
}

/// The report that a thing has left the game.
#[derive(Debug, Clone, Copy, PartialEq, Eq, Structural)]
pub struct DespawnEvent {
    /// The handle of the thing.
    pub entity: u64,
    /// Why it left.
    pub reason: Option<DespawnReason>,
}

impl DelayedDespawn {
    /// The microseconds that are left.
    pub closed spec fn time_left(&self) -> u64 {
        self.remaining
    }

    /// Why the thing leaves.
    pub closed spec fn why(&self) -> Option<DespawnReason> {
        self.reason
    }

    /// A delay of the given length, in microseconds, without a reason.
    pub fn new(duration: u64) -> (delay: DelayedDespawn)
        ensures
            delay.time_left() == duration,
            delay.why() is None,
    {
        DelayedDespawn { remaining: duration, reason: None }
    }

    /// The same delay with a reason.
    pub fn with_reason(self, reason: DespawnReason) -> (delay: DelayedDespawn)
        ensures
            delay.time_left() == self.time_left(),
            delay.why() == Some(reason),
    {
        DelayedDespawn { remaining: self.remaining, reason: Some(reason) }
    }

    /// Why the thing leaves.
    pub fn reason(&self) -> (reason: Option<DespawnReason>)
        ensures
            reason == self.why(),
    {
        self.reason
    }

    /// The microseconds that are left.
    pub fn remaining(&self) -> (micros: u64)
        ensures
            micros == self.time_left(),
    {
        self.remaining
    }

    /// Lets time pass, in microseconds. The answer says whether the delay
    /// is over; a delay that is over stays over.
    pub fn tick(&mut self, elapsed: u64) -> (finished: bool)
        ensures
            final(self).why() == old(self).why(),
            final(self).time_left() == if old(self).time_left() >= elapsed {
                (old(self).time_left() - elapsed) as u64
            } else {
                0
            },
            finished == (final(self).time_left() == 0),
    {
        if self.remaining >= elapsed {
            self.remaining = self.remaining - elapsed;
        } else {
            self.remaining = 0;
        }
        self.remaining == 0
    }

    /// The report that the thing has left.
    pub fn event(&self, entity: u64) -> (event: DespawnEvent)
        ensures
            event == (DespawnEvent { entity, reason: self.why() }),
    {
        DespawnEvent { entity, reason: self.reason }
    }
}

/// How many of the reports say that a gem was destroyed.
pub open spec fn gems_gone(events: Seq<DespawnEvent>) -> nat
    decreases events.len(),
{
    if events.len() == 0 {
        0
    } else {
        gems_gone(events.drop_last()) + if events.last().reason == Some(DespawnReason::DestroyGem) {
            1nat
        } else {
            0nat
        }
    }
}

/// How many of the reports say that a gem was destroyed.
pub fn count_destroyed_gems(events: &Vec<DespawnEvent>) -> (count: usize)
    ensures
        count == gems_gone(events@),
{
    let mut count: usize = 0;
    let mut i: usize = 0;
    proof {
        assert(events@.take(0) =~= Seq::empty());
    }
    while i < events.len()
        invariant
            i <= events@.len(),
            count <= i,
            count == gems_gone(events@.take(i as int)),
        decreases events@.len() - i,
    {
        proof {
            assert(events@.take(i + 1).drop_last() =~= events@.take(i as int));
        }
        match events[i].reason {
            Some(DespawnReason::DestroyGem) => {
                count += 1;
            },
            _ => {},
        }
        i += 1;
    }
    proof {
        assert(events@.take(events@.len() as int) =~= events@);
    }
    count
}

/// Whether a beaten enemy is still on its way out.
pub fn waiting_for_enemy_death(delays: &Vec<DelayedDespawn>) -> (waiting: bool)
    ensures
        waiting == exists|i: int|
            0 <= i < delays@.len() && (#[trigger] delays@[i]).why() == Some(
                DespawnReason::DestroyEnemy,
            ),
{
    let mut i: usize = 0;
    while i < delays.len()
        invariant
            i <= delays@.len(),
            forall|j: int|
                0 <= j < i ==> (#[trigger] delays@[j]).why() != Some(DespawnReason::DestroyEnemy),
        decreases delays@.len() - i,
    {
        match delays[i].reason {
            Some(DespawnReason::DestroyEnemy) => {
                return true;
            },
            _ => {},
        }
        i += 1;
    }
    false
}

} // verus!
