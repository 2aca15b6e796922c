//! The course of a whole game: loading, one battle after another, and the
//! screens that end it.

use crate::player::Player;
use vstd::prelude::*;

verus! {

/// The state of the game.
#[derive(Debug, Clone, Copy, Hash, PartialEq, Eq, Structural)]
pub enum MainState {
    /// What the game shows is being loaded.
    Load,
    /// Between two battles.
    Journey,
    /// A battle is fought.
    Battle,
    /// The player has lost.
    Death,
    /// The player has won.
    Win,
    /// The game starts over.
    Restart,
}

/// How many battles have to be won.
pub const NUM_ROUNDS: u32 = 8;

/// By how much the attack of the enemies grows from one battle to the next.
pub const ATTACK_STEP: u32 = 2;

/// How hard the next battle is.
#[derive(Debug, Clone, Copy, PartialEq, Eq, Structural)]
pub struct Difficulty {
    /// The number of the next battle, counted from one.
    pub round: u32,
    /// The health of the next enemy.
    pub enemy_health: u32,
    /// The attack of the next enemy.
    pub enemy_attack: u32,
}

impl Default for Difficulty {
    /// The first battle: an enemy of forty health and ten attack.
    fn default() -> (difficulty: Difficulty)
        ensures
            difficulty == (Difficulty { round: 1, enemy_health: 40, enemy_attack: 10 }),
    {
        Difficulty { round: 1, enemy_health: 40, enemy_attack: 10 }
    }
}

impl Difficulty {
    /// Whether the numbers can still grow by one step.
    pub open spec fn can_grow(&self) -> bool {
        self.round < u32::MAX && self.enemy_attack <= u32::MAX - ATTACK_STEP
    }

    /// Whether the numbers can still grow by one step.
    pub fn has_room(&self) -> (room: bool)
        ensures
            room == self.can_grow(),
    {
        self.round < u32::MAX && self.enemy_attack <= u32::MAX - ATTACK_STEP
    }

    /// Moves on to the next battle: the round counts one more, the enemy's
    /// attack grows by a step, and the enemy's health becomes what the
    /// caller has worked out for it.
    pub fn advance(&mut self, next_health: u32)
        requires
            old(self).can_grow(),
        ensures
            *final(self) == (Difficulty {
                round: (old(self).round + 1) as u32,
                enemy_health: next_health,
                enemy_attack: (old(self).enemy_attack + ATTACK_STEP) as u32,
            }),
    {
        self.enemy_health = next_health;
        self.enemy_attack = self.enemy_attack + ATTACK_STEP;
        self.round = self.round + 1;
    }

    /// Where the game goes after a battle: to the winning screen once all
    /// rounds are played, else on to the next battle.
    pub fn go_to_map(&self) -> (next: MainState)
        ensures
            next == if self.round > NUM_ROUNDS {
                MainState::Win
            } else {
                MainState::Journey
            },
    {
        if self.round > NUM_ROUNDS {
            MainState::Win
        } else {
            MainState::Journey
        }
    }
}

/// The state after loading has gone on: once nothing is left to load, the
/// game moves from `Load` to `Journey`.
pub fn loaded(state: MainState, still_loading: bool) -> (next: MainState)
    ensures
        next == if state == MainState::Load && !still_loading {
            MainState::Journey
        } else {
            state
        },
{
    if state == MainState::Load && !still_loading {
        MainState::Journey
    } else {
        state
    }
}

/// The state after a battle has begun: the game moves from `Journey` to
/// `Battle`.
pub fn start_battle(state: MainState) -> (next: MainState)
    ensures
        next == if state == MainState::Journey {
            MainState::Battle
        } else {
            state
        },
{
    if state == MainState::Journey {
        MainState::Battle
    } else {
        state
    }
}

/// Whether the battle is lost: the player has no health left while a
/// battle is fought.
pub fn die(state: MainState, player: &Player) -> (dead: bool)
    ensures
        dead == (state == MainState::Battle && player.current_health == 0),
{
    state == MainState::Battle && player.current_health == 0
}

/// The state after the player may have asked to start over: from the
/// screens that end a game, the game moves to `Restart`.
pub fn go_to_restart(state: MainState, asked: bool) -> (next: MainState)
    ensures
        next == if asked && (state == MainState::Death || state == MainState::Win) {
            MainState::Restart
        } else {
            state
        },
{
    if asked && (state == MainState::Death || state == MainState::Win) {
        MainState::Restart
    } else {
        state
    }
}

} // verus!
