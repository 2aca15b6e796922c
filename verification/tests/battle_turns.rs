use gem_battle::battle::{
    apply_damage, apply_heal, count_tiles, stop_board, Battle, BattleState, Enemy, EnemyKind,
    ENEMY_KIND_COUNT, HEAL_PER_TILE,
};
use gem_battle::board::BoardState;
use gem_battle::element::Element;
use gem_battle::matching::Match;
use gem_battle::player::{Player, Spell, STARTING_HEALTH};

fn group(element: Element, size: u64) -> Match {
    let tiles: Vec<u64> = (0..size).collect();
    Match::from_tiles(&tiles, element)
}

fn enemy(id: u64, health: u32, attack: u32) -> Enemy {
    Enemy::new(id, EnemyKind::Bat, health, attack)
}

fn battle_in_player_turn(enemies: Vec<Enemy>) -> Battle {
    let mut battle = Battle::new(enemies);
    assert!(battle.intro(false));
    assert!(!battle.intro(true));
    assert_eq!(battle.state, BattleState::PlayerTurn);
    battle
}

#[test]
fn damage_stops_at_zero() {
    assert_eq!(apply_damage(40, 0), 40);
    assert_eq!(apply_damage(40, 6), 34);
    assert_eq!(apply_damage(40, 40), 0);
    assert_eq!(apply_damage(40, 41), 0);
    assert_eq!(apply_damage(0, u32::MAX), 0);
    assert_eq!(apply_damage(u32::MAX, u32::MAX - 1), 1);
}

#[test]
fn healing_stops_at_full_health() {
    assert_eq!(apply_heal(50, 100, 0), 50);
    assert_eq!(apply_heal(50, 100, 9), 59);
    assert_eq!(apply_heal(50, 100, 50), 100);
    assert_eq!(apply_heal(50, 100, 51), 100);
    assert_eq!(apply_heal(100, 100, 9), 100);
    assert_eq!(apply_heal(1, 100, u32::MAX), 100);
    assert_eq!(apply_heal(u32::MAX - 1, u32::MAX, 5), u32::MAX);
    assert_eq!(apply_heal(0, 0, 3), 0);
}

#[test]
fn tiles_are_counted_for_the_elements_of_interest() {
    let matches = vec![
        group(Element::Fire, 3),
        group(Element::Water, 4),
        group(Element::Fire, 5),
        group(Element::Heal, 3),
    ];
    assert_eq!(count_tiles(&matches, &vec![Element::Fire]), 8);
    assert_eq!(count_tiles(&matches, &vec![Element::Fire, Element::Water]), 12);
    assert_eq!(count_tiles(&matches, &vec![Element::Light]), 0);
    assert_eq!(count_tiles(&matches, &Vec::new()), 0);
    assert_eq!(count_tiles(&Vec::new(), &vec![Element::Fire]), 0);
}

#[test]
fn enemy_kinds_have_places_names_and_models() {
    assert_eq!(ENEMY_KIND_COUNT, 20);
    assert_eq!(EnemyKind::from_index(0), EnemyKind::Alien);
    assert_eq!(EnemyKind::from_index(10), EnemyKind::Spectre);
    assert_eq!(EnemyKind::from_index(19), EnemyKind::Yeti);
    assert_eq!(EnemyKind::Spectre.name(), "Ghost");
    assert_eq!(EnemyKind::GreenDemon.name(), "GreenDemon");
    assert_eq!(EnemyKind::YellowDragon.gltf_path(), "models/enemies/YellowDragon.glb");
    assert_eq!(EnemyKind::Bee.scene_path(), "models/enemies/Bee.glb#Scene0");
    let paths = EnemyKind::gltf_paths();
    assert_eq!(paths.len(), 20);
    assert_eq!(paths[0], "models/enemies/Alien.glb");
    assert_eq!(paths[3], "models/enemies/Cactus.glb");
    assert_eq!(paths[19], "models/enemies/Yeti.glb");
    for place in 0..20 {
        assert_eq!(paths[place], EnemyKind::from_index(place).gltf_path());
    }
}

#[test]
fn random_enemy_kinds_vary() {
    let mut names = std::collections::BTreeSet::new();
    for _ in 0..400 {
        names.insert(EnemyKind::random().name());
    }
    assert!(names.len() >= 2);
}

#[test]
fn a_battle_starts_with_its_intro() {
    let mut battle = Battle::new(vec![enemy(1, 40, 10)]);
    assert_eq!(battle.state, BattleState::Intro);
    assert!(!battle.fading);
    assert!(battle.intro(true));
    assert!(battle.fading);
    assert_eq!(battle.state, BattleState::Intro);
    assert!(!battle.intro(false));
    assert_eq!(battle.state, BattleState::Intro);
    assert!(!battle.intro(true));
    assert_eq!(battle.state, BattleState::PlayerTurn);
    assert!(!battle.fading);
    assert!(!battle.intro(true));
    assert_eq!(battle.state, BattleState::PlayerTurn);
}

#[test]
fn matches_are_tracked_in_the_players_turn_only() {
    let mut battle = Battle::new(vec![enemy(1, 40, 10)]);
    battle.track_matches(vec![group(Element::Fire, 3)]);
    assert!(battle.matches.is_empty());
    battle.intro(false);
    battle.intro(true);
    battle.track_matches(vec![group(Element::Fire, 3)]);
    battle.track_matches(vec![group(Element::Water, 4), group(Element::Heal, 3)]);
    assert_eq!(battle.matches.len(), 3);
    assert_eq!(battle.matches[1].element, Element::Water);
    assert_eq!(battle.matches[2].size(), 3);
}

#[test]
fn the_player_strikes_with_the_active_spell() {
    let mut battle = battle_in_player_turn(vec![enemy(1, 40, 10), enemy(2, 5, 1)]);
    let mut player = Player::default();
    player.current_health = 50;
    let mut spell = Spell::fire();
    spell.absorb(&Spell::wave());
    assert_eq!(spell.attack, 4);
    player.active_spell = Some(spell);
    battle.track_matches(vec![
        group(Element::Fire, 3),
        group(Element::Grass, 5),
        group(Element::Water, 4),
        group(Element::Heal, 3),
    ]);
    assert!(battle.player_attack(&mut player));
    // Seven tiles of fire and water, four damage each.
    assert_eq!(battle.enemies[0].current_health, 12);
    assert_eq!(battle.enemies[1].current_health, 0);
    assert_eq!(battle.enemies[0].max_health, 40);
    // Three healing tiles, three health each.
    assert_eq!(HEAL_PER_TILE, 3);
    assert_eq!(player.current_health, 59);
    assert_eq!(player.max_health, STARTING_HEALTH);
    assert!(player.active_spell.is_some());
    assert_eq!(battle.matches.len(), 4);
}

#[test]
fn a_strike_without_matching_tiles_hurts_nobody() {
    let mut battle = battle_in_player_turn(vec![enemy(1, 40, 10)]);
    let mut player = Player::default();
    player.active_spell = Some(Spell::ray());
    battle.track_matches(vec![group(Element::Fire, 3)]);
    assert!(!battle.player_attack(&mut player));
    assert_eq!(battle.enemies[0].current_health, 40);
    assert_eq!(player.current_health, 100);
}

#[test]
fn healing_does_not_go_past_full_health() {
    let mut battle = battle_in_player_turn(vec![enemy(1, 40, 10)]);
    let mut player = Player::default();
    player.current_health = 95;
    player.active_spell = Some(Spell::empty());
    battle.track_matches(vec![group(Element::Heal, 6)]);
    assert!(!battle.player_attack(&mut player));
    assert_eq!(player.current_health, 100);
}

#[test]
fn outside_the_players_turn_nobody_strikes() {
    let mut battle = Battle::new(vec![enemy(1, 40, 10)]);
    let mut player = Player::default();
    player.current_health = 10;
    assert!(!battle.player_attack(&mut player));
    assert_eq!(battle.enemies[0].current_health, 40);
    assert_eq!(player.current_health, 10);
}

#[test]
fn huge_damage_leaves_no_health() {
    let mut battle = battle_in_player_turn(vec![enemy(1, u32::MAX, 10)]);
    let mut player = Player::default();
    let mut spell = Spell::fire();
    spell.attack = u32::MAX;
    player.active_spell = Some(spell);
    battle.track_matches(vec![group(Element::Fire, 30), group(Element::Fire, 30)]);
    assert!(battle.player_attack(&mut player));
    assert_eq!(battle.enemies[0].current_health, 0);
}

#[test]
fn the_enemies_strike_back() {
    let mut battle = battle_in_player_turn(vec![enemy(1, 40, 10), enemy(2, 40, 25)]);
    let mut player = Player::default();
    assert!(!battle.end_player_turn(BoardState::Matching, true, &mut player));
    assert!(!battle.end_player_turn(BoardState::End, false, &mut player));
    assert_eq!(battle.state, BattleState::PlayerTurn);
    assert_eq!(player.current_health, 100);
    assert!(battle.end_player_turn(BoardState::End, true, &mut player));
    assert_eq!(battle.state, BattleState::EnemyTurn);
    assert_eq!(player.current_health, 65);
    assert!(!battle.end_player_turn(BoardState::End, true, &mut player));
    assert_eq!(player.current_health, 65);
    battle.enemies_attack(&mut player);
    battle.enemies_attack(&mut player);
    assert_eq!(player.current_health, 0);
}

#[test]
fn the_enemy_turn_leads_back_to_the_player() {
    let mut battle = battle_in_player_turn(vec![enemy(1, 40, 10)]);
    let mut player = Player::default();
    battle.track_matches(vec![group(Element::Fire, 3)]);
    battle.end_player_turn(BoardState::End, true, &mut player);
    assert!(!battle.end_enemy_turn(false));
    assert_eq!(battle.state, BattleState::EnemyTurn);
    assert_eq!(battle.matches.len(), 1);
    assert!(battle.end_enemy_turn(true));
    assert_eq!(battle.state, BattleState::PlayerTurn);
    assert!(battle.matches.is_empty());
    assert!(!battle.end_enemy_turn(true));
}

#[test]
fn beaten_enemies_leave_the_battle() {
    let mut battle = battle_in_player_turn(vec![enemy(1, 40, 10), enemy(2, 6, 1), enemy(3, 3, 1)]);
    let mut player = Player::default();
    player.active_spell = Some(Spell::fire());
    battle.track_matches(vec![group(Element::Fire, 3)]);
    battle.player_attack(&mut player);
    let killed = battle.kill_enemies();
    assert_eq!(killed.iter().map(|e| e.id).collect::<Vec<u64>>(), vec![2, 3]);
    assert_eq!(battle.enemies.iter().map(|e| e.id).collect::<Vec<u64>>(), vec![1]);
    assert_eq!(battle.enemies[0].current_health, 34);
    assert!(battle.kill_enemies().is_empty());
    assert!(!battle.start_outtro());
}

#[test]
fn the_battle_ends_when_no_enemy_is_left() {
    let mut battle = battle_in_player_turn(vec![enemy(1, 6, 10)]);
    let mut player = Player::default();
    player.active_spell = Some(Spell::curse());
    battle.track_matches(vec![group(Element::Dark, 3)]);
    assert!(battle.player_attack(&mut player));
    assert_eq!(battle.kill_enemies().len(), 1);
    assert!(battle.start_outtro());
    assert_eq!(battle.state, BattleState::Outtro);
    assert!(!battle.start_outtro());
    assert!(!battle.fade_out(true, false));
    assert!(!battle.fading);
    assert!(battle.fade_out(false, false));
    assert!(battle.fading);
    assert!(!battle.fade_out(false, false));
    assert_eq!(battle.state, BattleState::Outtro);
    assert!(!battle.fade_out(false, true));
    assert_eq!(battle.state, BattleState::End);
    assert!(!battle.fading);
    battle.clean_up();
    assert_eq!(battle.state, BattleState::CleanedUp);
    battle.clean_up();
    assert_eq!(battle.state, BattleState::CleanedUp);
}

#[test]
fn an_enemy_turn_without_enemies_goes_to_the_outtro() {
    let mut battle = battle_in_player_turn(Vec::new());
    let mut player = Player::default();
    battle.end_player_turn(BoardState::End, true, &mut player);
    assert_eq!(player.current_health, 100);
    assert!(battle.end_enemy_turn(true));
    assert_eq!(battle.state, BattleState::Outtro);
}

#[test]
fn enemies_are_not_killed_outside_the_turns() {
    let mut battle = Battle::new(vec![Enemy {
        id: 1,
        kind: EnemyKind::Pig,
        max_health: 5,
        current_health: 0,
        attack: 1,
    }]);
    assert!(battle.kill_enemies().is_empty());
    assert_eq!(battle.enemies.len(), 1);
    assert!(!battle.start_outtro());
    assert!(!battle.fade_out(false, true));
    battle.clean_up();
    assert_eq!(battle.state, BattleState::Intro);
}

#[test]
fn a_battle_can_be_broken_off() {
    let mut battle = battle_in_player_turn(vec![enemy(1, 40, 10)]);
    battle.track_matches(vec![group(Element::Fire, 3)]);
    battle.stop();
    assert_eq!(battle.state, BattleState::Inactive);
    assert!(!battle.fading);
    assert_eq!(battle.enemies.len(), 1);
    assert_eq!(battle.matches.len(), 1);
    assert!(!battle.start_outtro());
}

#[test]
fn the_board_runs_only_in_the_players_turn() {
    assert!(!stop_board(BattleState::PlayerTurn, BoardState::Ready));
    assert!(stop_board(BattleState::EnemyTurn, BoardState::End));
    assert!(stop_board(BattleState::Outtro, BoardState::Ready));
    assert!(!stop_board(BattleState::EnemyTurn, BoardState::Inactive));
}

#[test]
fn spells_of_one_element() {
    let fire = Spell::fire();
    assert_eq!((fire.name.as_str(), fire.attack), ("Fire", 2));
    assert_eq!(fire.elements, vec![Element::Fire]);
    let wave = Spell::wave();
    assert_eq!((wave.name.as_str(), wave.attack), ("Wave", 2));
    assert_eq!(wave.elements, vec![Element::Water]);
    let thorns = Spell::thorns();
    assert_eq!((thorns.name.as_str(), thorns.attack), ("Thorns", 2));
    assert_eq!(thorns.elements, vec![Element::Grass]);
    let ray = Spell::ray();
    assert_eq!((ray.name.as_str(), ray.attack), ("Ray", 3));
    assert_eq!(ray.elements, vec![Element::Light]);
    let curse = Spell::curse();
    assert_eq!((curse.name.as_str(), curse.attack), ("Curse", 3));
    assert_eq!(curse.elements, vec![Element::Dark]);
    let empty = Spell::empty();
    assert_eq!((empty.name.as_str(), empty.attack), ("", 0));
    assert!(empty.elements.is_empty());
}

#[test]
fn spells_merge() {
    let merged = Spell::merge(&vec![Spell::ray(), Spell::fire()]);
    assert_eq!(merged.name, " Ray Fire");
    assert_eq!(merged.attack, 5);
    assert_eq!(merged.elements, vec![Element::Light, Element::Fire]);
    assert!(merged.uses(Element::Fire));
    assert!(merged.uses(Element::Light));
    assert!(!merged.uses(Element::Heal));
    assert_eq!(merged.name_modifier(), "Blinding");
    let nothing = Spell::merge(&Vec::new());
    assert_eq!(nothing.name, "");
    assert_eq!(nothing.attack, 0);
    let copy = merged.duplicate();
    assert_eq!(copy.name, merged.name);
    assert_eq!(copy.elements, merged.elements);
    assert_eq!(copy.attack, merged.attack);
}

#[test]
fn name_modifiers() {
    let words = [
        (Element::Heal, "Healing"),
        (Element::Dark, "Cursed"),
        (Element::Water, "Frost"),
        (Element::Fire, "Blaze"),
        (Element::Grass, "Overgrown"),
        (Element::Light, "Blinding"),
    ];
    for (element, word) in words {
        let spell = Spell { name: String::new(), elements: vec![element, Element::Heal], attack: 1 };
        assert_eq!(spell.name_modifier(), word);
    }
}

#[test]
fn attacks_that_do_not_fit_are_noticed() {
    let mut strong = Spell::fire();
    strong.attack = u32::MAX - 2;
    assert!(Spell::attacks_fit(&vec![strong.duplicate(), Spell::fire()]));
    assert!(!Spell::attacks_fit(&vec![strong.duplicate(), Spell::ray()]));
    assert!(!Spell::attacks_fit(&vec![Spell::ray(), strong, Spell::empty()]));
    assert!(Spell::attacks_fit(&Vec::new()));
}

#[test]
fn a_new_player() {
    let player = Player::default();
    assert_eq!(player.max_health, 100);
    assert_eq!(player.current_health, 100);
    assert!(player.active_spell.is_none());
    assert!(!player.is_dead());
    let names: Vec<&str> = player.spells.iter().map(|spell| spell.name.as_str()).collect();
    assert_eq!(
        names,
        vec!["Fire", "Fire", "Wave", "Wave", "Thorns", "Thorns", "Ray", "Curse"]
    );
    let attacks: Vec<u32> = player.spells.iter().map(|spell| spell.attack).collect();
    assert_eq!(attacks, vec![2, 2, 2, 2, 2, 2, 3, 3]);
}
