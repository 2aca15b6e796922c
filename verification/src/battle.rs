//! The battle: whose turn it is, what a turn does to the health of the
//! player and of the enemies, and when the battle is over.

use crate::board::BoardState;
use crate::chance::index_below;
use crate::element::contains_element;
use crate::element::Element;
use crate::matching::Match;
use crate::player::Player;
use vstd::prelude::*;
use vstd::string::StringExecFns;

verus! {

/// The state of a battle.
#[derive(Debug, Hash, Clone, Copy, PartialEq, Eq, Structural)]
pub enum BattleState {
    /// No battle is fought.
    Inactive,
    /// The battle is being shown to the player.
    Intro,
    /// The player picks a spell and moves a gem.
    PlayerTurn,
    /// The enemies strike back.
    EnemyTurn,
    /// All enemies are beaten and the battle fades out.
    Outtro,
    /// The battle is over.
    End,
    /// What the battle had put on the screen is taken away.
    CleanedUp,
}

/// The kind of an enemy.
#[derive(Debug, Clone, Copy, PartialEq, Eq, Structural)]
pub enum EnemyKind {
    Alien,
    Bat,
    Bee,
    Cactus,
    Chicken,
    Crab,
    Cthulhu,
    Cyclops,
    Deer,
    Demon,
    /// The ghost.
    Spectre,
    GreenDemon,
    Mushroom,
    Panda,
    Penguin,
    Pig,
    Skull,
    Tree,
    YellowDragon,
    Yeti,
}

/// How many kinds of enemies there are.
pub const ENEMY_KIND_COUNT: usize = 20;

impl EnemyKind {
    /// The position of the kind in the order in which they are declared.
    pub open spec fn ordinal(self) -> nat {
        match self {
            EnemyKind::Alien => 0,
            EnemyKind::Bat => 1,
            EnemyKind::Bee => 2,
            EnemyKind::Cactus => 3,
            EnemyKind::Chicken => 4,
            EnemyKind::Crab => 5,
            EnemyKind::Cthulhu => 6,
            EnemyKind::Cyclops => 7,
            EnemyKind::Deer => 8,
            EnemyKind::Demon => 9,
            EnemyKind::Spectre => 10,
            EnemyKind::GreenDemon => 11,
            EnemyKind::Mushroom => 12,
            EnemyKind::Panda => 13,
            EnemyKind::Penguin => 14,
            EnemyKind::Pig => 15,
            EnemyKind::Skull => 16,
            EnemyKind::Tree => 17,
            EnemyKind::YellowDragon => 18,
            EnemyKind::Yeti => 19,
        }
    }

    /// The kind that stands at a position; positions past the last one give
    /// the last kind.
    pub open spec fn at(position: nat) -> EnemyKind {
        if position == 0 {
            EnemyKind::Alien
        } else if position == 1 {
            EnemyKind::Bat
        } else if position == 2 {
            EnemyKind::Bee
        } else if position == 3 {
            EnemyKind::Cactus
        } else if position == 4 {
            EnemyKind::Chicken
        } else if position == 5 {
            EnemyKind::Crab
        } else if position == 6 {
            EnemyKind::Cthulhu
        } else if position == 7 {
            EnemyKind::Cyclops
        } else if position == 8 {
            EnemyKind::Deer
        } else if position == 9 {
            EnemyKind::Demon
        } else if position == 10 {
            EnemyKind::Spectre
        } else if position == 11 {
            EnemyKind::GreenDemon
        } else if position == 12 {
            EnemyKind::Mushroom
        } else if position == 13 {
            EnemyKind::Panda
        } else if position == 14 {
            EnemyKind::Penguin
        } else if position == 15 {
            EnemyKind::Pig
        } else if position == 16 {
            EnemyKind::Skull
        } else if position == 17 {
            EnemyKind::Tree
        } else if position == 18 {
            EnemyKind::YellowDragon
        } else {
            EnemyKind::Yeti
        }
    }

    /// The name of the kind.
    pub open spec fn name_of(self) -> Seq<char> {
        match self {
            EnemyKind::Alien => "Alien"@,
            EnemyKind::Bat => "Bat"@,
            EnemyKind::Bee => "Bee"@,
            EnemyKind::Cactus => "Cactus"@,
            EnemyKind::Chicken => "Chicken"@,
            EnemyKind::Crab => "Crab"@,
            EnemyKind::Cthulhu => "Cthulhu"@,
            EnemyKind::Cyclops => "Cyclops"@,
            EnemyKind::Deer => "Deer"@,
            EnemyKind::Demon => "Demon"@,
            EnemyKind::Spectre => "Ghost"@,
            EnemyKind::GreenDemon => "GreenDemon"@,
            EnemyKind::Mushroom => "Mushroom"@,
            EnemyKind::Panda => "Panda"@,
            EnemyKind::Penguin => "Penguin"@,
            EnemyKind::Pig => "Pig"@,
            EnemyKind::Skull => "Skull"@,
            EnemyKind::Tree => "Tree"@,
            EnemyKind::YellowDragon => "YellowDragon"@,
            EnemyKind::Yeti => "Yeti"@,
        }
    }

    /// Every kind has a position below the count, and is the kind at its
    /// own position.
    pub proof fn ordinal_round_trip(self)
        ensures
            self.ordinal() < ENEMY_KIND_COUNT,
            Self::at(self.ordinal()) == self,
    {
    }

    /// The kind at a position below the count.
    pub fn from_index(position: usize) -> (kind: EnemyKind)
        requires
            position < ENEMY_KIND_COUNT,
        ensures
            kind == Self::at(position as nat),
            kind.ordinal() == position,
    {
        if position == 0 {
            EnemyKind::Alien
        } else if position == 1 {
            EnemyKind::Bat
        } else if position == 2 {
            EnemyKind::Bee
        } else if position == 3 {
            EnemyKind::Cactus
        } else if position == 4 {
            EnemyKind::Chicken
        } else if position == 5 {
            EnemyKind::Crab
        } else if position == 6 {
            EnemyKind::Cthulhu
        } else if position == 7 {
            EnemyKind::Cyclops
        } else if position == 8 {
            EnemyKind::Deer
        } else if position == 9 {
            EnemyKind::Demon
        } else if position == 10 {
            EnemyKind::Spectre
        } else if position == 11 {
            EnemyKind::GreenDemon
        } else if position == 12 {
            EnemyKind::Mushroom
        } else if position == 13 {
            EnemyKind::Panda
        } else if position == 14 {
            EnemyKind::Penguin
        } else if position == 15 {
            EnemyKind::Pig
        } else if position == 16 {
            EnemyKind::Skull
        } else if position == 17 {
            EnemyKind::Tree
        } else if position == 18 {
            EnemyKind::YellowDragon
        } else {
            EnemyKind::Yeti
        }
    }

    /// The name of the kind.
    pub fn name(&self) -> (name: &'static str)
        ensures
            name@ == self.name_of(),
    {
        match self {
            EnemyKind::Alien => "Alien",
            EnemyKind::Bat => "Bat",
            EnemyKind::Bee => "Bee",
            EnemyKind::Cactus => "Cactus",
            EnemyKind::Chicken => "Chicken",
            EnemyKind::Crab => "Crab",
            EnemyKind::Cthulhu => "Cthulhu",
            EnemyKind::Cyclops => "Cyclops",
            EnemyKind::Deer => "Deer",
            EnemyKind::Demon => "Demon",
            EnemyKind::Spectre => "Ghost",
            EnemyKind::GreenDemon => "GreenDemon",
            EnemyKind::Mushroom => "Mushroom",
            EnemyKind::Panda => "Panda",
            EnemyKind::Penguin => "Penguin",
            EnemyKind::Pig => "Pig",
            EnemyKind::Skull => "Skull",
            EnemyKind::Tree => "Tree",
            EnemyKind::YellowDragon => "YellowDragon",
            EnemyKind::Yeti => "Yeti",
        }
    }

    /// A kind picked by chance, each with the same weight.
    pub fn random() -> (kind: EnemyKind)
        ensures
            kind.ordinal() < ENEMY_KIND_COUNT,
    {
        let position: usize = index_below(ENEMY_KIND_COUNT);
        EnemyKind::from_index(position)
    }

    /// Where the model of the kind is kept: `models/enemies/`, the kind's
    /// name, and `.glb`.
    pub fn gltf_path(&self) -> (path: String)
        ensures
            path@ == "models/enemies/"@ + self.name_of() + ".glb"@,
    {
        let folder = "models/enemies/".to_owned();
        folder.concat(self.name()).concat(".glb")
    }

    /// Where the scene of the kind is kept: its model, and `#Scene0`.
    pub fn scene_path(&self) -> (path: String)
        ensures
            path@ == "models/enemies/"@ + self.name_of() + ".glb#Scene0"@,
    {
        let folder = "models/enemies/".to_owned();
        folder.concat(self.name()).concat(".glb#Scene0")
    }

    /// The models of all kinds, in the order of the kinds.
    pub fn gltf_paths() -> (paths: Vec<String>)
        ensures
            paths@.len() == ENEMY_KIND_COUNT,
            forall|i: int|
                0 <= i < ENEMY_KIND_COUNT ==> (#[trigger] paths@[i])@ == "models/enemies/"@
                    + EnemyKind::at(i as nat).name_of() + ".glb"@,
    {
        let mut paths: Vec<String> = Vec::new();
        let mut position: usize = 0;
        while position < ENEMY_KIND_COUNT
            invariant
                position <= ENEMY_KIND_COUNT,
                paths@.len() == position,
                forall|i: int|
                    0 <= i < position ==> (#[trigger] paths@[i])@ == "models/enemies/"@
                        + EnemyKind::at(i as nat).name_of() + ".glb"@,
            decreases ENEMY_KIND_COUNT - position,
        {
            paths.push(EnemyKind::from_index(position).gltf_path());
            position += 1;
        }
        paths
    }
}

/// An enemy. The `id` tells the enemies of a battle apart.
#[derive(Debug, Clone, Copy, PartialEq, Eq, Structural)]
pub struct Enemy {
    pub id: u64,
    pub kind: EnemyKind,
    pub max_health: u32,
    pub current_health: u32,
    pub attack: u32,
}

impl Enemy {
    /// An enemy in full health.
    pub fn new(id: u64, kind: EnemyKind, max_health: u32, attack: u32) -> (enemy: Enemy)
        ensures
            enemy == (Enemy { id, kind, max_health, current_health: max_health, attack }),
    {
        Enemy { id, kind, max_health, current_health: max_health, attack }
    }
}

/// How much health each tile of a matched group of healing gems gives back.
pub const HEAL_PER_TILE: u32 = 3;

/// Health after damage: it goes down by the amount, but not below zero.
pub open spec fn damaged(health: int, amount: int) -> int {
    if amount >= health {
        0
    } else {
        health - amount
    }
}

/// Health after healing: it goes up by the amount, but not above the most
/// that there can be.
pub open spec fn healed(current: int, max: int, amount: int) -> int {
    if current + amount >= max {
        max
    } else {
        current + amount
    }
}

/// Damage never leaves less than no health, and never adds health; healing
/// never leaves more health than there can be.
pub proof fn health_stays_in_bounds(health: int, max: int, amount: int)
    requires
        0 <= health,
        0 <= amount,
    ensures
        0 <= damaged(health, amount) <= health,
        healed(health, max, amount) <= max,
        health <= max ==> health <= healed(health, max, amount),
{
}

/// Health after damage.
pub fn apply_damage(health: u32, amount: u32) -> (left: u32)
    ensures
        left == damaged(health as int, amount as int),
{
    if amount >= health {
        0
    } else {
        health - amount
    }
}

/// Health after healing.
pub fn apply_heal(current: u32, max: u32, amount: u32) -> (now: u32)
    ensures
        now == healed(current as int, max as int, amount as int),
{
    if amount >= max || current >= max - amount {
        max
    } else {
        current + amount
    }
}

/// How many tiles the groups have whose element is one of `elements`.
pub open spec fn tiles_of(matches: Seq<Match>, elements: Seq<Element>) -> nat
    decreases matches.len(),
{
    if matches.len() == 0 {
        0
    } else {
        tiles_of(matches.drop_last(), elements) + if elements.contains(matches.last().element) {
            matches.last().tiles@.len()
        } else {
            0
        }
    }
}

/// The smaller of a number and a limit.
pub open spec fn at_most(value: int, limit: int) -> int {
    if value <= limit {
        value
    } else {
        limit
    }
}

/// How many tiles the groups have whose element is one of `elements`; the
/// largest number that fits if they are more.
pub fn count_tiles(matches: &Vec<Match>, elements: &Vec<Element>) -> (total: u64)
    ensures
        total == at_most(tiles_of(matches@, elements@) as int, u64::MAX as int),
{
    let mut total: u64 = 0;
    let mut i: usize = 0;
    proof {
        assert(matches@.take(0) =~= Seq::empty());
    }
    while i < matches.len()
        invariant
            i <= matches@.len(),
            total == at_most(tiles_of(matches@.take(i as int), elements@) as int, u64::MAX as int),
        decreases matches@.len() - i,
    {
        proof {
            assert(matches@.take(i + 1).drop_last() =~= matches@.take(i as int));
        }
        if contains_element(elements, matches[i].element) {
            let size = matches[i].size() as u64;
            if size > u64::MAX - total {
                total = u64::MAX;
            } else {
                total = total + size;
            }
        }
        i += 1;
    }
    proof {
        assert(matches@.take(matches@.len() as int) =~= matches@);
    }
    total
}

/// The damage that the matched groups do with a spell of the given elements
/// and attack: the attack for each tile of a group whose element is one of
/// the spell's.
pub open spec fn damage_of(matches: Seq<Match>, elements: Seq<Element>, attack: u32) -> int {
    tiles_of(matches, elements) * attack
}

/// The health that the matched groups of healing gems give back.
pub open spec fn healing_of(matches: Seq<Match>) -> int {
    tiles_of(matches, seq![Element::Heal]) * HEAL_PER_TILE
}

/// A count of tiles times what each tile is worth, held down to what a
/// health can be.
fn worth(tiles: u64, each: u32, Ghost(count): Ghost<int>) -> (amount: u32)
    requires
        tiles == at_most(count, u64::MAX as int),
        0 <= count,
    ensures
        amount == at_most(count * each, u32::MAX as int),
{
    proof {
        assert(tiles * each <= 0xffff_ffff_ffff_ffff * 0xffff_ffff) by (nonlinear_arith)
            requires
                0 <= tiles <= 0xffff_ffff_ffff_ffff,
                0 <= each <= 0xffff_ffff,
        ;
    }
    let product: u128 = (tiles as u128) * (each as u128);
    proof {
        if count > u64::MAX && each > 0 {
            assert(count * each >= count) by (nonlinear_arith)
                requires
                    count >= 0,
                    each >= 1,
            ;
            assert(tiles * each >= tiles) by (nonlinear_arith)
                requires
                    tiles >= 0,
                    each >= 1,
            ;
        }
        if each == 0 {
            assert(count * each == 0) by (nonlinear_arith)
                requires
                    each == 0,
            ;
        }
    }
    if product > u32::MAX as u128 {
        u32::MAX
    } else {
        product as u32
    }
}

/// The attacks of the enemies, added up.
pub open spec fn total_attack_of(enemies: Seq<Enemy>) -> int
    decreases enemies.len(),
{
    if enemies.len() == 0 {
        0
    } else {
        total_attack_of(enemies.drop_last()) + enemies.last().attack
    }
}

/// The enemies after each has taken the same damage.
pub open spec fn all_damaged(enemies: Seq<Enemy>, amount: int) -> Seq<Enemy> {
    Seq::new(
        enemies.len(),
        |i: int|
            Enemy {
                id: enemies[i].id,
                kind: enemies[i].kind,
                max_health: enemies[i].max_health,
                current_health: damaged(enemies[i].current_health as int, amount) as u32,
                attack: enemies[i].attack,
            },
    )
}

/// The enemies that have health left, in their order.
pub open spec fn alive(enemies: Seq<Enemy>) -> Seq<Enemy>
    decreases enemies.len(),
{
    if enemies.len() == 0 {
        Seq::empty()
    } else if enemies.last().current_health > 0 {
        alive(enemies.drop_last()).push(enemies.last())
    } else {
        alive(enemies.drop_last())
    }
}

/// The enemies that have no health left, in their order.
pub open spec fn fallen(enemies: Seq<Enemy>) -> Seq<Enemy>
    decreases enemies.len(),
{
    if enemies.len() == 0 {
        Seq::empty()
    } else if enemies.last().current_health == 0 {
        fallen(enemies.drop_last()).push(enemies.last())
    } else {
        fallen(enemies.drop_last())
    }
}

/// A battle: its state, the enemies that still stand, and the groups that
/// the player has matched in the current turn.
pub struct Battle {
    pub state: BattleState,
    pub enemies: Vec<Enemy>,
    pub matches: Vec<Match>,
    /// Whether the screen is fading in or out.
    pub fading: bool,
}

impl Battle {
    /// Whether the battle is in one of the two turns.
    pub open spec fn in_a_turn(state: BattleState) -> bool {
        state == BattleState::PlayerTurn || state == BattleState::EnemyTurn
    }

    /// A battle against the given enemies, at its intro.
    pub fn new(enemies: Vec<Enemy>) -> (battle: Battle)
        ensures
            battle.state == BattleState::Intro,
            battle.enemies == enemies,
            battle.matches@.len() == 0,
            !battle.fading,
    {
        Battle { state: BattleState::Intro, enemies, matches: Vec::new(), fading: false }
    }

    /// Runs the intro. The first call asks for the screen to fade in, which
    /// the answer says. From then on the intro waits for the fade to end:
    /// when it has, the player's first turn begins, with no group matched
    /// yet. In any other state nothing happens.
    pub fn intro(&mut self, fade_ended: bool) -> (start_fade: bool)
        ensures
            final(self).enemies == old(self).enemies,
            start_fade == (old(self).state == BattleState::Intro && !old(self).fading),
            old(self).state != BattleState::Intro ==> final(self).state == old(self).state
                && final(self).matches == old(self).matches && final(self).fading == old(self).fading,
            start_fade ==> final(self).state == BattleState::Intro && final(self).fading
                && final(self).matches == old(self).matches,
            old(self).state == BattleState::Intro && old(self).fading && !fade_ended ==> final(self).state == BattleState::Intro && final(self).fading && final(self).matches == old(self).matches,
            old(self).state == BattleState::Intro && old(self).fading && fade_ended ==> final(self).state == BattleState::PlayerTurn && !final(self).fading && final(self).matches@.len()
                == 0,
    {
        if self.state != BattleState::Intro {
            return false;
        }
        if self.fading {
            if fade_ended {
                self.state = BattleState::PlayerTurn;
                self.matches = Vec::new();
                self.fading = false;
            }
            false
        } else {
            self.fading = true;
            true
        }
    }

    /// Notes the groups that the board has found. They count for the
    /// player's turn only, so outside of it they are dropped.
    pub fn track_matches(&mut self, found: Vec<Match>)
        ensures
            final(self).fading == old(self).fading,
            final(self).state == old(self).state,
            final(self).enemies == old(self).enemies,
            old(self).state == BattleState::PlayerTurn ==> final(self).matches@ == old(self).matches@ + found@,
            old(self).state != BattleState::PlayerTurn ==> final(self).matches == old(self).matches,
    {
        if self.state == BattleState::PlayerTurn {
            let mut found = found;
            self.matches.append(&mut found);
        }
    }

    /// Lets the player strike, once the board has come to its end. Each
    /// enemy loses the damage that the matched groups do with the active
    /// spell, and the player gains the health that the matched groups of
    /// healing gems give back. The answer says whether the enemies were
    /// hurt. Outside the player's turn nothing happens. In the player's
    /// turn a spell must be active.
    pub fn player_attack(&mut self, player: &mut Player) -> (hurt: bool)
        requires
            old(self).state == BattleState::PlayerTurn ==> old(player).active_spell is Some,
        ensures
            final(self).fading == old(self).fading,
            final(self).state == old(self).state,
            final(self).matches == old(self).matches,
            final(player).max_health == old(player).max_health,
            final(player).spells == old(player).spells,
            final(player).active_spell == old(player).active_spell,
            old(self).state != BattleState::PlayerTurn ==> !hurt && final(self).enemies == old(self).enemies && final(player).current_health == old(player).current_health,
            old(self).state == BattleState::PlayerTurn ==> {
                let spell = old(player).active_spell->0;
                let damage = damage_of(old(self).matches@, spell.elements@, spell.attack);
                &&& hurt == (damage != 0)
                &&& final(self).enemies@ == all_damaged(old(self).enemies@, damage)
                &&& final(player).current_health == healed(
                    old(player).current_health as int,
                    old(player).max_health as int,
                    healing_of(old(self).matches@),
                )
            },
    {
        if self.state != BattleState::PlayerTurn {
            return false;
        }
        let damage = match &player.active_spell {
            Some(spell) => {
                let tiles = count_tiles(&self.matches, &spell.elements);
                worth(tiles, spell.attack, Ghost(tiles_of(self.matches@, spell.elements@) as int))
            },
            None => 0,
        };
        let ghost spell = old(player).active_spell->0;
        let ghost exact = damage_of(old(self).matches@, spell.elements@, spell.attack);
        let ghost before = self.enemies@;
        let mut i: usize = 0;
        while i < self.enemies.len()
            invariant
                i <= self.enemies@.len(),
                self.enemies@.len() == before.len(),
                damage == at_most(exact, u32::MAX as int),
                0 <= exact,
                forall|j: int| 0 <= j < i ==> self.enemies@[j] == all_damaged(before, exact)[j],
                forall|j: int| i <= j < before.len() ==> self.enemies@[j] == before[j],
                self.state == old(self).state,
                self.matches == old(self).matches,
                self.fading == old(self).fading,
            decreases self.enemies@.len() - i,
        {
            let enemy = self.enemies[i];
            self.enemies[i] = Enemy {
                id: enemy.id,
                kind: enemy.kind,
                max_health: enemy.max_health,
                current_health: apply_damage(enemy.current_health, damage),
                attack: enemy.attack,
            };
            i += 1;
        }
        proof {
            assert(self.enemies@ =~= all_damaged(before, exact));
        }
        let mut healing_elements: Vec<Element> = Vec::new();
        healing_elements.push(Element::Heal);
        proof {
            assert(healing_elements@ =~= seq![Element::Heal]);
        }
        let tiles = count_tiles(&self.matches, &healing_elements);
        let healing = worth(
            tiles,
            HEAL_PER_TILE,
            Ghost(tiles_of(self.matches@, healing_elements@) as int),
        );
        player.current_health = apply_heal(player.current_health, player.max_health, healing);
        damage != 0
    }

    /// Lets every enemy strike the player: the player loses the attacks of
    /// all enemies, down to no health.
    pub fn enemies_attack(&self, player: &mut Player)
        ensures
            final(player).max_health == old(player).max_health,
            final(player).spells == old(player).spells,
            final(player).active_spell == old(player).active_spell,
            final(player).current_health == damaged(
                old(player).current_health as int,
                total_attack_of(self.enemies@),
            ),
    {
        let mut i: usize = 0;
        proof {
            assert(self.enemies@.take(0) =~= Seq::empty());
        }
        while i < self.enemies.len()
            invariant
                i <= self.enemies@.len(),
                player.max_health == old(player).max_health,
                player.spells == old(player).spells,
                player.active_spell == old(player).active_spell,
                0 <= total_attack_of(self.enemies@.take(i as int)),
                player.current_health == damaged(
                    old(player).current_health as int,
                    total_attack_of(self.enemies@.take(i as int)),
                ),
            decreases self.enemies@.len() - i,
        {
            proof {
                assert(self.enemies@.take(i + 1).drop_last() =~= self.enemies@.take(i as int));
            }
            player.current_health = apply_damage(player.current_health, self.enemies[i].attack);
            i += 1;
        }
        proof {
            assert(self.enemies@.take(self.enemies@.len() as int) =~= self.enemies@);
        }
    }

    /// Ends the player's turn when the board has come to its end and the
    /// enemies have stopped moving: the enemies' turn begins, and they
    /// strike the player. Otherwise nothing happens. The answer says
    /// whether the turn ended.
    pub fn end_player_turn(&mut self, board: BoardState, enemies_idle: bool, player: &mut Player) -> (ended:
        bool)
        ensures
            final(self).fading == old(self).fading,
            ended == (old(self).state == BattleState::PlayerTurn && board == BoardState::End
                && enemies_idle),
            final(self).enemies == old(self).enemies,
            final(self).matches == old(self).matches,
            final(player).max_health == old(player).max_health,
            final(player).spells == old(player).spells,
            final(player).active_spell == old(player).active_spell,
            ended ==> final(self).state == BattleState::EnemyTurn && final(player).current_health
                == damaged(old(player).current_health as int, total_attack_of(old(self).enemies@)),
            !ended ==> final(self).state == old(self).state && final(player).current_health == old(player).current_health,
    {
        if self.state == BattleState::PlayerTurn && board == BoardState::End && enemies_idle {
            self.state = BattleState::EnemyTurn;
            self.enemies_attack(player);
            true
        } else {
            false
        }
    }

    /// Takes the enemies without health out of the battle, during either
    /// turn, and hands them back.
    pub fn kill_enemies(&mut self) -> (killed: Vec<Enemy>)
        ensures
            final(self).fading == old(self).fading,
            final(self).state == old(self).state,
            final(self).matches == old(self).matches,
            Self::in_a_turn(old(self).state) ==> final(self).enemies@ == alive(old(self).enemies@)
                && killed@ == fallen(old(self).enemies@),
            !Self::in_a_turn(old(self).state) ==> final(self).enemies == old(self).enemies
                && killed@.len() == 0,
    {
        let mut killed: Vec<Enemy> = Vec::new();
        if self.state != BattleState::PlayerTurn && self.state != BattleState::EnemyTurn {
            return killed;
        }
        let mut standing: Vec<Enemy> = Vec::new();
        let mut i: usize = 0;
        proof {
            assert(self.enemies@.take(0) =~= Seq::empty());
        }
        while i < self.enemies.len()
            invariant
                i <= self.enemies@.len(),
                self.enemies == old(self).enemies,
                self.state == old(self).state,
                self.matches == old(self).matches,
                self.fading == old(self).fading,
                standing@ == alive(self.enemies@.take(i as int)),
                killed@ == fallen(self.enemies@.take(i as int)),
            decreases self.enemies@.len() - i,
        {
            proof {
                assert(self.enemies@.take(i + 1).drop_last() =~= self.enemies@.take(i as int));
            }
            if self.enemies[i].current_health > 0 {
                standing.push(self.enemies[i]);
            } else {
                killed.push(self.enemies[i]);
            }
            i += 1;
        }
        proof {
            assert(self.enemies@.take(self.enemies@.len() as int) =~= self.enemies@);
        }
        self.enemies = standing;
        killed
    }

    /// Begins the outtro when, during either turn, no enemy is left. The
    /// answer says whether it began.
    pub fn start_outtro(&mut self) -> (begun: bool)
        ensures
            final(self).fading == old(self).fading,
            begun == (Self::in_a_turn(old(self).state) && old(self).enemies@.len() == 0),
            final(self).enemies == old(self).enemies,
            final(self).matches == old(self).matches,
            final(self).state == if begun {
                BattleState::Outtro
            } else {
                old(self).state
            },
    {
        if (self.state == BattleState::PlayerTurn || self.state == BattleState::EnemyTurn)
            && self.enemies.len() == 0 {
            self.state = BattleState::Outtro;
            true
        } else {
            false
        }
    }

    /// Ends the enemies' turn when they have stopped moving: with no enemy
    /// left the outtro begins; otherwise the player's next turn begins,
    /// with no group matched yet. The answer says whether the turn ended.
    pub fn end_enemy_turn(&mut self, enemies_idle: bool) -> (ended: bool)
        ensures
            final(self).fading == old(self).fading,
            ended == (old(self).state == BattleState::EnemyTurn && enemies_idle),
            final(self).enemies == old(self).enemies,
            !ended ==> final(self).state == old(self).state && final(self).matches == old(self).matches,
            ended && old(self).enemies@.len() == 0 ==> final(self).state == BattleState::Outtro
                && final(self).matches == old(self).matches,
            ended && old(self).enemies@.len() > 0 ==> final(self).state == BattleState::PlayerTurn
                && final(self).matches@.len() == 0,
    {
        if self.state == BattleState::EnemyTurn && enemies_idle {
            if self.enemies.len() == 0 {
                self.state = BattleState::Outtro;
            } else {
                self.state = BattleState::PlayerTurn;
                self.matches = Vec::new();
            }
            true
        } else {
            false
        }
    }

    /// Runs the outtro. As soon as no beaten enemy is on its way out any
    /// more, the screen is asked to fade out, once, which the answer says.
    /// When a fade has ended, the battle is over. In any other state
    /// nothing happens.
    pub fn fade_out(&mut self, waiting_for_enemy_death: bool, fade_ended: bool) -> (start_fade:
        bool)
        ensures
            final(self).enemies == old(self).enemies,
            final(self).matches == old(self).matches,
            start_fade == (old(self).state == BattleState::Outtro && !old(self).fading
                && !waiting_for_enemy_death),
            old(self).state != BattleState::Outtro ==> final(self).state == old(self).state
                && final(self).fading == old(self).fading,
            old(self).state == BattleState::Outtro && fade_ended ==> final(self).state
                == BattleState::End && !final(self).fading,
            old(self).state == BattleState::Outtro && !fade_ended ==> final(self).state
                == BattleState::Outtro && final(self).fading == (old(self).fading || start_fade),
    {
        if self.state != BattleState::Outtro {
            return false;
        }
        let start_fade = !self.fading && !waiting_for_enemy_death;
        if start_fade {
            self.fading = true;
        }
        if fade_ended {
            self.state = BattleState::End;
            self.fading = false;
        }
        start_fade
    }

    /// Breaks the battle off: it becomes `Inactive` and the screen is no
    /// longer fading.
    pub fn stop(&mut self)
        ensures
            final(self).enemies == old(self).enemies,
            final(self).matches == old(self).matches,
            final(self).state == BattleState::Inactive,
            !final(self).fading,
    {
        self.state = BattleState::Inactive;
        self.fading = false;
    }

    /// Marks a battle that is over as cleaned up. In any other state
    /// nothing happens.
    pub fn clean_up(&mut self)
        ensures
            final(self).fading == old(self).fading,
            final(self).enemies == old(self).enemies,
            final(self).matches == old(self).matches,
            final(self).state == if old(self).state == BattleState::End {
                BattleState::CleanedUp
            } else {
                old(self).state
            },
    {
        if self.state == BattleState::End {
            self.state = BattleState::CleanedUp;
        }
    }
}

/// Whether the board has to be stopped: it runs only in the player's turn.
pub fn stop_board(battle: BattleState, board: BoardState) -> (stop: bool)
    ensures
        stop == (battle != BattleState::PlayerTurn && board != BoardState::Inactive),
{
    battle != BattleState::PlayerTurn && board != BoardState::Inactive
}

} // verus!
