use gem_battle::animation::AnimationType;
use gem_battle::despawn::{
    count_destroyed_gems, waiting_for_enemy_death, DelayedDespawn, DespawnEvent, DespawnReason,
};
use gem_battle::pointer::{hover_event, WorldCursorEventInfo};
use gem_battle::main_state::{
    die, go_to_restart, loaded, start_battle, Difficulty, MainState, NUM_ROUNDS,
};
use gem_battle::player::Player;
use gem_battle::tween::TweenType;

#[test]
fn tween_type_codes() {
    assert_eq!(u64::from(TweenType::Untagged), 0);
    assert_eq!(u64::from(TweenType::Fall), 1);
}

#[test]
fn tween_type_decodes_its_codes() {
    assert_eq!(TweenType::try_from(0), Ok(TweenType::Untagged));
    assert_eq!(TweenType::try_from(1), Ok(TweenType::Fall));
}

#[test]
fn tween_type_rejects_other_numbers() {
    assert_eq!(TweenType::try_from(2), Err(2));
    assert_eq!(TweenType::try_from(u64::MAX), Err(u64::MAX));
}

#[test]
fn tween_type_round_trip() {
    for tag in [TweenType::Untagged, TweenType::Fall] {
        assert_eq!(TweenType::try_from(u64::from(tag)), Ok(tag));
    }
}

#[test]
fn animation_type_codes() {
    assert_eq!(u64::from(AnimationType::Untagged), 0);
    assert_eq!(u64::from(AnimationType::Fall), 1);
    assert_eq!(u64::from(AnimationType::Combo), 2);
}

#[test]
fn animation_type_decodes_its_codes() {
    assert_eq!(AnimationType::try_from(0), Ok(AnimationType::Untagged));
    assert_eq!(AnimationType::try_from(1), Ok(AnimationType::Fall));
    assert_eq!(AnimationType::try_from(2), Ok(AnimationType::Combo));
}

#[test]
fn animation_type_rejects_other_numbers() {
    assert_eq!(AnimationType::try_from(3), Err(3));
    assert_eq!(AnimationType::try_from(1 << 40), Err(1 << 40));
}

#[test]
fn delayed_despawn_counts_down() {
    let mut delay = DelayedDespawn::new(200_000).with_reason(DespawnReason::DestroyGem);
    assert_eq!(delay.reason(), Some(DespawnReason::DestroyGem));
    assert_eq!(delay.remaining(), 200_000);
    assert!(!delay.tick(150_000));
    assert_eq!(delay.remaining(), 50_000);
    assert!(delay.tick(50_000));
    assert_eq!(delay.remaining(), 0);
    assert!(delay.tick(1));
    assert_eq!(delay.event(7), DespawnEvent { entity: 7, reason: Some(DespawnReason::DestroyGem) });
}

#[test]
fn delayed_despawn_without_reason() {
    let mut delay = DelayedDespawn::new(0);
    assert_eq!(delay.reason(), None);
    assert!(delay.tick(0));
    assert_eq!(delay.event(3).reason, None);
}

#[test]
fn only_gem_reports_are_counted() {
    let events = vec![
        DespawnEvent { entity: 1, reason: Some(DespawnReason::DestroyGem) },
        DespawnEvent { entity: 2, reason: None },
        DespawnEvent { entity: 3, reason: Some(DespawnReason::DestroyEnemy) },
        DespawnEvent { entity: 4, reason: Some(DespawnReason::DestroyGem) },
    ];
    assert_eq!(count_destroyed_gems(&events), 2);
    assert_eq!(count_destroyed_gems(&Vec::new()), 0);
}

#[test]
fn enemy_death_is_waited_for() {
    let gem = DelayedDespawn::new(10).with_reason(DespawnReason::DestroyGem);
    let enemy = DelayedDespawn::new(10).with_reason(DespawnReason::DestroyEnemy);
    let plain = DelayedDespawn::new(10);
    assert!(!waiting_for_enemy_death(&vec![gem, plain]));
    assert!(waiting_for_enemy_death(&vec![gem, enemy, plain]));
    assert!(!waiting_for_enemy_death(&Vec::new()));
}

#[test]
fn hover_events() {
    assert_eq!(hover_event(false, true), Some(WorldCursorEventInfo::Entered));
    assert_eq!(hover_event(true, false), Some(WorldCursorEventInfo::Exited));
    assert_eq!(hover_event(true, true), None);
    assert_eq!(hover_event(false, false), None);
}

#[test]
fn difficulty_starts_easy_and_grows() {
    let mut difficulty = Difficulty::default();
    assert_eq!(difficulty, Difficulty { round: 1, enemy_health: 40, enemy_attack: 10 });
    assert!(difficulty.has_room());
    difficulty.advance(48);
    assert_eq!(difficulty, Difficulty { round: 2, enemy_health: 48, enemy_attack: 12 });
}

#[test]
fn difficulty_without_room() {
    let full_round = Difficulty { round: u32::MAX, enemy_health: 1, enemy_attack: 1 };
    assert!(!full_round.has_room());
    let full_attack = Difficulty { round: 1, enemy_health: 1, enemy_attack: u32::MAX - 1 };
    assert!(!full_attack.has_room());
    let just_fits = Difficulty { round: u32::MAX - 1, enemy_health: 1, enemy_attack: u32::MAX - 2 };
    assert!(just_fits.has_room());
}

#[test]
fn game_is_won_after_the_last_round() {
    let mut difficulty = Difficulty::default();
    for _ in 0..NUM_ROUNDS - 1 {
        difficulty.advance(1);
        assert_eq!(difficulty.go_to_map(), MainState::Journey);
    }
    assert_eq!(difficulty.round, NUM_ROUNDS);
    difficulty.advance(1);
    assert_eq!(difficulty.go_to_map(), MainState::Win);
}

#[test]
fn main_state_moves() {
    assert_eq!(loaded(MainState::Load, true), MainState::Load);
    assert_eq!(loaded(MainState::Load, false), MainState::Journey);
    assert_eq!(loaded(MainState::Battle, false), MainState::Battle);
    assert_eq!(start_battle(MainState::Journey), MainState::Battle);
    assert_eq!(start_battle(MainState::Win), MainState::Win);
    assert_eq!(go_to_restart(MainState::Death, true), MainState::Restart);
    assert_eq!(go_to_restart(MainState::Win, true), MainState::Restart);
    assert_eq!(go_to_restart(MainState::Win, false), MainState::Win);
    assert_eq!(go_to_restart(MainState::Battle, true), MainState::Battle);
}

#[test]
fn player_dies_only_in_battle() {
    let mut player = Player::default();
    assert!(!die(MainState::Battle, &player));
    player.current_health = 0;
    assert!(player.is_dead());
    assert!(die(MainState::Battle, &player));
    assert!(!die(MainState::Journey, &player));
}
