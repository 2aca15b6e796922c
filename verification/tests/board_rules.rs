use gem_battle::board::{Board, BoardState, DRAG_LIMIT};
use gem_battle::element::Element;
use gem_battle::fall::FallingGem;
use gem_battle::grid::tile_at;
use gem_battle::board::Destroyed;
use gem_battle::grid::Gem;
use gem_battle::matching::Match;
use gem_battle::pointer::{any_pressed, closest_tile, ends_pressed, ends_released, ButtonState};
use gem_battle::timing::{
    despawn_delay, destroy_delay, destroy_schedule, fall_duration, Vanishing,
    BETWEEN_MATCH_DELAY, DESTROY_TIME, MATCH_START_DELAY,
};
use gem_battle::tween::{count_fall_completions, TweenType};

fn still() -> [[Element; 5]; 6] {
    let mut elements = [[Element::Heal; 5]; 6];
    for x in 0..6 {
        for y in 0..5 {
            elements[x][y] = Element::from_index((x + 2 * y) % 6);
        }
    }
    elements
}

#[test]
fn a_new_board_is_inactive_and_full() {
    let board = Board::new(&still());
    assert_eq!(board.state(), BoardState::Inactive);
    assert!(board.swapping().is_none());
    assert_eq!(board.waiting_for(), 0);
    assert!(board.grid().is_complete());
    assert!(!board.timer_finished());
}

#[test]
fn a_ready_board_has_every_tile_filled() {
    let mut board = Board::new(&still());
    assert!(board.activate());
    assert_eq!(board.state(), BoardState::Ready);
    for tile in 0..30 {
        assert!(board.grid().gem_of(tile).is_some());
    }
    assert!(board.activate());
}

#[test]
fn nothing_can_be_picked_up_from_an_inactive_board() {
    let mut board = Board::new(&still());
    assert!(!board.pickup(3));
    assert_eq!(board.state(), BoardState::Inactive);
    assert!(!board.swap_gems(4));
    let (matches, destroyed) = board.drop_gem();
    assert!(matches.is_empty() && destroyed.is_empty());
    assert_eq!(board.state(), BoardState::Inactive);
    assert!(board.gem_destroyed().is_empty());
    assert!(board.fall_completed().0.is_empty());
    assert!(!board.finish_matching());
    assert_eq!(board.state(), BoardState::Inactive);
}

#[test]
fn a_handle_past_the_grid_is_no_tile() {
    let mut board = Board::new(&still());
    board.activate();
    assert!(!board.pickup(30));
    assert_eq!(board.state(), BoardState::Ready);
    assert!(board.pickup(29));
    assert!(!board.swap_gems(30));
    assert_eq!(board.swapping().unwrap().swaps, 0);
}

#[test]
fn pickup_holds_the_gem() {
    let mut board = Board::new(&still());
    board.activate();
    assert!(board.pickup(tile_at(2, 2)));
    let drag = board.swapping().unwrap();
    assert_eq!(drag.swaps, 0);
    assert_eq!(drag.gem, tile_at(2, 2));
    assert_eq!(drag.origin, tile_at(2, 2));
    assert_eq!(drag.current_tile, tile_at(2, 2));
    assert_eq!(drag.remaining, DRAG_LIMIT);
    assert_eq!(DRAG_LIMIT, 9_000_000);
    for tile in 0..30 {
        assert_eq!(board.grid().gem_of(tile).unwrap().holding, tile == tile_at(2, 2));
    }
    assert!(!board.pickup(tile_at(0, 0)));
    assert!(!board.activate());
}

#[test]
fn the_dragged_gem_and_the_hovered_gem_are_lit() {
    let mut board = Board::new(&still());
    assert!(!board.is_lit(4, true));
    board.activate();
    assert!(board.is_lit(4, true));
    assert!(!board.is_lit(4, false));
    board.pickup(4);
    assert!(board.is_lit(4, false));
    assert!(!board.is_lit(5, true));
    board.swap_gems(5);
    assert!(board.is_lit(5, false));
    assert!(!board.is_lit(4, false));
}

#[test]
fn swaps_move_the_gem_and_count_up() {
    let mut board = Board::new(&still());
    board.activate();
    board.pickup(tile_at(0, 0));
    let dragged = board.grid().gem_of(tile_at(0, 0)).unwrap();
    let neighbour = board.grid().gem_of(tile_at(1, 0)).unwrap();
    let mut last = 0;
    for (step, target) in [tile_at(1, 0), tile_at(1, 0), tile_at(1, 1), tile_at(2, 1)]
        .iter()
        .enumerate()
    {
        let swapped = board.swap_gems(*target);
        assert_eq!(swapped, step != 1);
        let swaps = board.swapping().unwrap().swaps;
        assert!(swaps >= last);
        last = swaps;
    }
    assert_eq!(last, 3);
    assert_eq!(board.swapping().unwrap().current_tile, tile_at(2, 1));
    assert_eq!(board.swapping().unwrap().origin, tile_at(0, 0));
    assert_eq!(board.grid().gem_of(tile_at(2, 1)), Some(dragged));
    assert_eq!(board.grid().gem_of(tile_at(0, 0)), Some(neighbour));
}

#[test]
fn the_timer_runs_from_pickup() {
    let mut board = Board::new(&still());
    board.activate();
    board.update_timer(1_000_000);
    assert!(board.swapping().is_none());
    board.pickup(tile_at(0, 0));
    assert_eq!(board.swapping().unwrap().remaining, DRAG_LIMIT);
    board.update_timer(3_000_000);
    assert_eq!(board.swapping().unwrap().remaining, 6_000_000);
    assert_eq!(board.swapping().unwrap().swaps, 0);
    board.swap_gems(tile_at(0, 1));
    board.update_timer(5_000_000);
    assert_eq!(board.swapping().unwrap().remaining, 1_000_000);
    assert_eq!(board.swapping().unwrap().swaps, 1);
    assert!(!board.timer_finished());
    let (matches, _) = board.drop_if_due(false);
    assert!(matches.is_empty());
    assert_eq!(board.state(), BoardState::Swapping);
    board.update_timer(2_000_000);
    assert_eq!(board.swapping().unwrap().remaining, 0);
    assert!(board.timer_finished());
    board.drop_if_due(false);
    assert_eq!(board.state(), BoardState::Matching);
}

#[test]
fn a_gem_that_is_held_and_never_moved_drops_after_the_limit() {
    let mut board = Board::new(&still());
    board.activate();
    board.pickup(tile_at(2, 2));
    for _ in 0..9 {
        board.drop_if_due(false);
        assert_eq!(board.state(), BoardState::Swapping);
        board.update_timer(1_000_000);
    }
    assert!(board.timer_finished());
    board.drop_if_due(false);
    assert_eq!(board.state(), BoardState::Ready);
    assert_eq!(board.grid().gem_of(tile_at(2, 2)).unwrap().id, tile_at(2, 2));
}

#[test]
fn the_gem_follows_the_pointer() {
    let mut board = Board::new(&still());
    assert!(!board.drag_to(1500, 500));
    board.activate();
    board.pickup(tile_at(0, 0));
    assert!(!board.drag_to(400, 300));
    assert_eq!(board.swapping().unwrap().swaps, 0);
    assert!(board.drag_to(1500, 500));
    assert_eq!(board.swapping().unwrap().current_tile, tile_at(1, 0));
    assert_eq!(board.grid().gem_of(tile_at(1, 0)).unwrap().id, tile_at(0, 0));
    assert_eq!(board.grid().gem_of(tile_at(0, 0)).unwrap().id, tile_at(1, 0));
    assert!(!board.drag_to(1999, 999));
    assert!(board.drag_to(2000, 1000));
    assert_eq!(board.swapping().unwrap().current_tile, tile_at(2, 1));
    assert!(board.drag_to(-50_000, 90_000));
    assert_eq!(board.swapping().unwrap().current_tile, tile_at(0, 4));
    assert_eq!(board.swapping().unwrap().swaps, 3);
}

#[test]
fn a_matching_board_with_nothing_outstanding_can_stop() {
    let mut board = Board::new(&still());
    board.activate();
    board.pickup(tile_at(0, 0));
    board.swap_gems(tile_at(0, 1));
    board.swap_gems(tile_at(0, 0));
    board.drop_gem();
    assert_eq!(board.state(), BoardState::Matching);
    assert!(board.stop());
    assert_eq!(board.state(), BoardState::Inactive);
    assert!(board.activate());
}

#[test]
fn release_drops_the_gem_at_once() {
    let mut board = Board::new(&still());
    board.activate();
    board.pickup(tile_at(4, 4));
    board.drop_if_due(true);
    assert_eq!(board.state(), BoardState::Ready);
    for tile in 0..30 {
        assert!(!board.grid().gem_of(tile).unwrap().holding);
    }
    board.drop_if_due(true);
    assert_eq!(board.state(), BoardState::Ready);
}

#[test]
fn stop_lets_the_gem_go() {
    let mut board = Board::new(&still());
    board.activate();
    board.pickup(tile_at(4, 4));
    board.swap_gems(tile_at(4, 3));
    assert!(board.stop());
    assert_eq!(board.state(), BoardState::Inactive);
    assert!(board.swapping().is_none());
    assert!(!board.grid().gem_of(tile_at(4, 3)).unwrap().holding);
    assert_eq!(board.grid().gem_of(tile_at(4, 3)).unwrap().id, tile_at(4, 4));
    assert!(board.activate());
}

#[test]
fn a_board_that_destroys_gems_cannot_stop() {
    let mut elements = still();
    elements[1][0] = Element::Fire;
    elements[1][1] = Element::Fire;
    elements[1][2] = Element::Fire;
    let mut board = Board::new(&elements);
    board.activate();
    board.pickup(tile_at(5, 4));
    board.swap_gems(tile_at(5, 3));
    board.drop_gem();
    assert_eq!(board.state(), BoardState::Matching);
    assert!(!board.stop());
    assert_eq!(board.state(), BoardState::Matching);
    assert!(!board.finish_matching());
    assert_eq!(board.state(), BoardState::Matching);
    assert!(!board.activate());
    assert!(!board.pickup(0));
    // Once the gems are gone and the grid is full again, the board stops.
    board.gem_destroyed();
    board.gem_destroyed();
    board.gem_destroyed();
    assert_eq!(board.state(), BoardState::Falling);
    assert!(board.stop());
    assert_eq!(board.state(), BoardState::Inactive);
    assert!(board.grid().is_complete());
}

#[test]
fn a_swap_that_makes_a_match_is_resolved() {
    let mut elements = still();
    // Fire at (0,0) and (1,0), and one more at (2,1) that the drag brings
    // down to (2,0).
    elements[0][0] = Element::Fire;
    elements[1][0] = Element::Fire;
    elements[2][1] = Element::Fire;
    elements[2][0] = Element::Light;
    elements[3][0] = Element::Dark;
    elements[0][1] = Element::Grass;
    elements[1][1] = Element::Water;
    elements[3][1] = Element::Grass;
    elements[2][2] = Element::Heal;
    let mut board = Board::new(&elements);
    board.activate();
    assert!(board.pickup(tile_at(2, 1)));
    assert!(board.swap_gems(tile_at(2, 0)));
    let (matches, destroyed) = board.drop_gem();
    assert_eq!(board.state(), BoardState::Matching);
    assert_eq!(matches.len(), 1);
    assert_eq!(matches[0].element, Element::Fire);
    assert_eq!(matches[0].size(), 3);
    let tiles: Vec<u64> = destroyed.iter().map(|entry| entry.tile).collect();
    assert_eq!(tiles, vec![tile_at(0, 0), tile_at(1, 0), tile_at(2, 0)]);
    let ids: Vec<u64> = destroyed.iter().map(|entry| entry.gem.id).collect();
    assert_eq!(ids, vec![tile_at(0, 0), tile_at(1, 0), tile_at(2, 1)]);
    for entry in &destroyed {
        assert!(!entry.gem.holding);
        assert_eq!(entry.gem.element, Element::Fire);
        assert!(board.grid().gem_of(entry.tile).is_none());
    }
    assert_eq!(board.waiting_for(), 3);
}

#[test]
fn new_gems_take_over_the_ids_of_destroyed_gems() {
    let mut elements = still();
    elements[1][2] = Element::Dark;
    elements[1][3] = Element::Dark;
    elements[1][4] = Element::Dark;
    let mut board = Board::new(&elements);
    board.activate();
    board.pickup(tile_at(5, 4));
    board.swap_gems(tile_at(5, 3));
    let (_, destroyed) = board.drop_gem();
    assert_eq!(destroyed.len(), 3);
    let supply = vec![Element::Dark, Element::Light, Element::Grass];
    board.gem_destroyed_with(&supply);
    board.gem_destroyed_with(&supply);
    let falls = board.gem_destroyed_with(&supply);
    assert_eq!(falls.len(), 3);
    for (i, entry) in destroyed.iter().enumerate() {
        let gem = board.grid().gem_of(tile_at(1, 2 + i)).unwrap();
        assert_eq!(gem.id, entry.gem.id);
        assert_eq!(gem.element, supply[i]);
        assert!(!gem.holding);
    }
    let mut ids: Vec<u64> = (0..30).map(|tile| board.grid().gem_of(tile).unwrap().id).collect();
    ids.sort();
    ids.dedup();
    assert_eq!(ids.len(), 30);
}

#[test]
fn a_chain_reaction_goes_round_again() {
    let mut elements = still();
    // A match along the bottom of the first three columns, and above it
    // two gems that meet a third once they have come down.
    elements[0][0] = Element::Fire;
    elements[1][0] = Element::Fire;
    elements[2][0] = Element::Fire;
    elements[3][0] = Element::Water;
    elements[0][1] = Element::Grass;
    elements[1][1] = Element::Water;
    elements[2][1] = Element::Water;
    let mut board = Board::new(&elements);
    board.activate();
    board.pickup(tile_at(5, 4));
    board.swap_gems(tile_at(5, 3));
    board.swap_gems(tile_at(5, 4));
    let (matches, destroyed) = board.drop_gem();
    assert_eq!(matches.len(), 1);
    assert_eq!(destroyed.len(), 3);
    let supply = vec![Element::Heal, Element::Dark, Element::Heal];
    board.gem_destroyed_with(&supply);
    board.gem_destroyed_with(&supply);
    let falls = board.gem_destroyed_with(&supply);
    assert_eq!(falls.len(), 15);
    assert_eq!(board.waiting_for(), 15);
    assert_eq!(board.grid().gem_of(tile_at(2, 0)).unwrap().element, Element::Water);
    let mut cleared = (Vec::new(), Vec::new());
    for _ in 0..15 {
        assert_eq!(board.state(), BoardState::Falling);
        cleared = board.fall_completed();
    }
    assert_eq!(board.state(), BoardState::Matching);
    assert_eq!(cleared.0.len(), 1);
    assert_eq!(cleared.0[0].element, Element::Water);
    assert_eq!(cleared.1.len(), 3);
    assert_eq!(board.waiting_for(), 3);
}

#[test]
fn random_refill_fills_the_grid() {
    let mut elements = still();
    elements[4][0] = Element::Fire;
    elements[4][1] = Element::Fire;
    elements[4][2] = Element::Fire;
    let mut board = Board::new(&elements);
    board.activate();
    board.pickup(tile_at(0, 4));
    board.swap_gems(tile_at(0, 3));
    board.swap_gems(tile_at(0, 4));
    board.drop_gem();
    assert!(board.gem_destroyed().is_empty());
    assert!(board.gem_destroyed().is_empty());
    let falls = board.gem_destroyed();
    assert_eq!(board.state(), BoardState::Falling);
    assert_eq!(falls.len(), 5);
    assert_eq!(
        falls
            .iter()
            .filter(|fall| matches!(fall.gem, FallingGem::New { .. }))
            .count(),
        3
    );
    assert!(board.grid().is_complete());
    assert!(board.gem_destroyed().is_empty());
    assert_eq!(board.state(), BoardState::Falling);
}

#[test]
fn the_closest_tile_is_the_one_under_the_point() {
    assert_eq!(closest_tile(500, 500), tile_at(0, 0));
    assert_eq!(closest_tile(0, 0), tile_at(0, 0));
    assert_eq!(closest_tile(999, 999), tile_at(0, 0));
    assert_eq!(closest_tile(2300, 4100), tile_at(2, 4));
    assert_eq!(closest_tile(5999, 4999), tile_at(5, 4));
    for x in 0..6 {
        for y in 0..5 {
            let tile = closest_tile(1000 * x as i64 + 500, 1000 * y as i64 + 500);
            assert_eq!(tile, tile_at(x, y));
        }
    }
}

#[test]
fn points_off_the_board_go_to_the_nearest_edge() {
    assert_eq!(closest_tile(-1, -1), tile_at(0, 0));
    assert_eq!(closest_tile(i64::MIN, 2500), tile_at(0, 2));
    assert_eq!(closest_tile(i64::MAX, i64::MAX), tile_at(5, 4));
    assert_eq!(closest_tile(3500, -70_000), tile_at(3, 0));
    assert_eq!(closest_tile(6000, 5000), tile_at(5, 4));
    assert_eq!(closest_tile(60_000, 1500), tile_at(5, 1));
}

#[test]
fn between_two_tiles_the_larger_handle_wins() {
    assert_eq!(closest_tile(1000, 500), tile_at(1, 0));
    assert_eq!(closest_tile(500, 1000), tile_at(0, 1));
    assert_eq!(closest_tile(3000, 2000), tile_at(3, 2));
}

#[test]
fn closest_tile_agrees_with_a_search() {
    for px in (-1500..7500).step_by(250) {
        for py in (-1500..6500).step_by(250) {
            let mut best = 0u64;
            let mut best_distance = i64::MAX;
            for tile in 0..30u64 {
                let dx = px - (1000 * (tile as i64 / 5) + 500);
                let dy = py - (1000 * (tile as i64 % 5) + 500);
                let distance = dx * dx + dy * dy;
                if distance <= best_distance {
                    best = tile;
                    best_distance = distance;
                }
            }
            assert_eq!(closest_tile(px, py), best);
        }
    }
}

#[test]
fn destroyed_gems_vanish_group_after_group() {
    assert_eq!(MATCH_START_DELAY, 100);
    assert_eq!(BETWEEN_MATCH_DELAY, 100);
    assert_eq!(DESTROY_TIME, 100);
    assert_eq!(destroy_delay(0, 0), 100);
    assert_eq!(destroy_delay(0, 2), 100);
    assert_eq!(destroy_delay(1, 3), 200);
    assert_eq!(destroy_delay(4, 20), 500);
    assert_eq!(despawn_delay(0, 0), 200);
    assert_eq!(despawn_delay(2, 7), 400);
    assert_eq!(destroy_delay(u32::MAX, u32::MAX), 100 + 100 * u32::MAX as u64);
}

#[test]
fn fall_times_follow_free_fall() {
    assert_eq!(fall_duration(0), 0);
    assert_eq!(fall_duration(1), 258_198);
    assert_eq!(fall_duration(2), 365_148);
    assert_eq!(fall_duration(3), 447_213);
    assert_eq!(fall_duration(5), 577_350);
    assert_eq!(fall_duration(15), 1_000_000);
    assert_eq!(fall_duration(60), 2_000_000);
}

#[test]
fn fall_times_agree_with_the_formula() {
    for rows in [1u32, 4, 7, 9, 10, 100, 12_345, u32::MAX] {
        let seconds = f64::sqrt(2.0 * rows as f64 / 30.0);
        let micros = fall_duration(rows) as f64;
        assert!((micros - seconds * 1e6).abs() <= 1.0);
        let exact = fall_duration(rows) as u128;
        let target = 2 * rows as u128 * 1_000_000_000_000;
        assert!(exact * exact * 30 <= target);
        assert!(target < (exact + 1) * (exact + 1) * 30);
    }
}

#[test]
fn the_last_thing_a_button_did_counts() {
    assert!(!ends_pressed(&Vec::new()));
    assert!(!ends_released(&Vec::new()));
    assert!(ends_pressed(&vec![ButtonState::Pressed]));
    assert!(!ends_released(&vec![ButtonState::Pressed]));
    assert!(ends_released(&vec![ButtonState::Pressed, ButtonState::Released]));
    assert!(!ends_pressed(&vec![ButtonState::Pressed, ButtonState::Released]));
    assert!(ends_pressed(&vec![ButtonState::Released, ButtonState::Released, ButtonState::Pressed]));
    assert!(any_pressed(&vec![ButtonState::Released, ButtonState::Pressed, ButtonState::Released]));
    assert!(!any_pressed(&vec![ButtonState::Released, ButtonState::Released]));
    assert!(!any_pressed(&Vec::new()));
}

#[test]
fn only_fall_tags_count_as_fall_completions() {
    let fall = u64::from(TweenType::Fall);
    let plain = u64::from(TweenType::Untagged);
    assert_eq!(count_fall_completions(&vec![fall, plain, 7, fall, u64::MAX, fall]), 3);
    assert_eq!(count_fall_completions(&vec![plain, 2]), 0);
    assert_eq!(count_fall_completions(&Vec::new()), 0);
}

#[test]
fn the_board_goes_on_when_as_many_falls_are_done_as_were_begun() {
    let mut elements = still();
    elements[4][2] = Element::Dark;
    elements[4][3] = Element::Dark;
    elements[4][4] = Element::Dark;
    let mut board = Board::new(&elements);
    board.activate();
    board.pickup(tile_at(0, 4));
    board.swap_gems(tile_at(0, 3));
    board.swap_gems(tile_at(0, 4));
    board.drop_gem();
    let supply = vec![Element::Heal, Element::Light, Element::Heal];
    board.gem_destroyed_with(&supply);
    board.gem_destroyed_with(&supply);
    let falls = board.gem_destroyed_with(&supply);
    assert_eq!(falls.len(), 3);
    let tags = vec![1, 0, 1, 9, 1];
    let done = count_fall_completions(&tags);
    assert_eq!(done, falls.len());
    for report in 0..done {
        assert_eq!(board.state(), BoardState::Falling);
        assert_eq!(board.waiting_for(), falls.len() - report);
        board.fall_completed();
    }
    assert_eq!(board.state(), BoardState::Matching);
}

#[test]
fn destroyed_gems_are_scheduled_group_after_group() {
    let gem = |id: u64| Gem { id, element: Element::Fire, holding: false };
    let first = Match::from_tiles(&vec![10, 11, 12], Element::Fire);
    let second = Match::from_tiles(&vec![0, 5, 15], Element::Water);
    let destroyed = vec![
        Destroyed { tile: 0, gem: gem(40) },
        Destroyed { tile: 5, gem: gem(41) },
        Destroyed { tile: 10, gem: gem(42) },
        Destroyed { tile: 11, gem: gem(43) },
        Destroyed { tile: 12, gem: gem(44) },
        Destroyed { tile: 15, gem: gem(45) },
    ];
    let plan = destroy_schedule(&vec![first, second], &destroyed);
    let expected: Vec<Vanishing> = [(10, 42, 100), (11, 43, 100), (12, 44, 100), (0, 40, 200), (5, 41, 200), (15, 45, 200)]
        .iter()
        .map(|&(tile, id, delay)| Vanishing { tile, gem: gem(id), delay, gone: delay + 100 })
        .collect();
    assert_eq!(plan, expected);
    for (place, entry) in plan.iter().enumerate() {
        let group = if place < 3 { 0 } else { 1 };
        assert_eq!(entry.delay, destroy_delay(group, place as u32));
        assert_eq!(entry.gone, despawn_delay(group, place as u32));
    }
    assert!(destroy_schedule(&Vec::new(), &destroyed).is_empty());
    let lonely = Match::from_tiles(&vec![20, 21, 22], Element::Dark);
    assert!(destroy_schedule(&vec![lonely], &destroyed).is_empty());
}

#[test]
fn the_schedule_of_a_drop_covers_every_destroyed_gem() {
    let mut elements = still();
    elements[1][2] = Element::Dark;
    elements[1][3] = Element::Dark;
    elements[1][4] = Element::Dark;
    elements[3][0] = Element::Grass;
    elements[4][0] = Element::Grass;
    elements[5][0] = Element::Grass;
    let mut board = Board::new(&elements);
    board.activate();
    board.pickup(tile_at(3, 3));
    board.swap_gems(tile_at(3, 4));
    board.swap_gems(tile_at(3, 3));
    let (matches, destroyed) = board.drop_gem();
    assert_eq!(matches.len(), 2);
    assert_eq!(destroyed.len(), 6);
    let plan = destroy_schedule(&matches, &destroyed);
    assert_eq!(plan.len(), 6);
    let mut ids: Vec<u64> = plan.iter().map(|entry| entry.gem.id).collect();
    ids.sort();
    let mut gone: Vec<u64> = destroyed.iter().map(|entry| entry.gem.id).collect();
    gone.sort();
    assert_eq!(ids, gone);
    assert_eq!(plan.iter().filter(|entry| entry.delay == 100).count(), 3);
    assert_eq!(plan.iter().filter(|entry| entry.delay == 200).count(), 3);
    for entry in &plan {
        assert_eq!(entry.gone, entry.delay + 100);
        let group = if entry.delay == 100 { &matches[0] } else { &matches[1] };
        assert!(group.contains(entry.tile));
    }
}
