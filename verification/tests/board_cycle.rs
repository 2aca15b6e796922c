use gem_battle::board::{Board, BoardState};
use gem_battle::element::Element;
use gem_battle::fall::FallingGem;
use gem_battle::grid::{tile_at, Grid};
use gem_battle::matching::find_matches;

/// A grid without any three equal gems in a line.
fn calm_elements() -> [[Element; 5]; 6] {
    let mut elements = [[Element::Heal; 5]; 6];
    for x in 0..6 {
        for y in 0..5 {
            elements[x][y] = Element::from_index((x + 2 * y) % 6);
        }
    }
    elements
}

fn sorted(mut tiles: Vec<u64>) -> Vec<u64> {
    tiles.sort();
    tiles
}

#[test]
fn calm_grid_has_no_match() {
    let grid = Grid::new(&calm_elements());
    assert_eq!(find_matches(&grid).len(), 0);
}

#[test]
fn l_shape_is_one_match_of_five() {
    let mut elements = calm_elements();
    // Heal is what the calm grid has at (0,0); give the L its own element
    // and keep the neighbours different.
    elements[0][0] = Element::Fire;
    elements[1][0] = Element::Fire;
    elements[2][0] = Element::Fire;
    elements[0][1] = Element::Fire;
    elements[0][2] = Element::Fire;
    elements[3][0] = Element::Water;
    elements[0][3] = Element::Water;
    elements[1][1] = Element::Dark;
    let grid = Grid::new(&elements);
    let matches = find_matches(&grid);
    assert_eq!(matches.len(), 1);
    assert_eq!(matches[0].size(), 5);
    assert_eq!(matches[0].element, Element::Fire);
    let expected = sorted(vec![
        tile_at(0, 0),
        tile_at(1, 0),
        tile_at(2, 0),
        tile_at(0, 1),
        tile_at(0, 2),
    ]);
    assert_eq!(sorted(matches[0].tile_list()), expected);
}

#[test]
fn detector_gives_the_same_groups_twice() {
    let mut elements = calm_elements();
    elements[4][1] = Element::Dark;
    elements[4][2] = Element::Dark;
    elements[4][3] = Element::Dark;
    let grid = Grid::new(&elements);
    let first = find_matches(&grid);
    let second = find_matches(&grid);
    assert_eq!(first.len(), second.len());
    for (a, b) in first.iter().zip(second.iter()) {
        assert_eq!(a.element, b.element);
        assert_eq!(sorted(a.tile_list()), sorted(b.tile_list()));
    }
}

#[test]
fn drag_there_and_back_still_resolves() {
    let mut board = Board::new(&calm_elements());
    assert!(board.activate());
    assert!(board.pickup(tile_at(0, 0)));
    assert_eq!(board.state(), BoardState::Swapping);
    assert!(board.swap_gems(tile_at(0, 1)));
    assert!(board.swap_gems(tile_at(0, 0)));
    assert_eq!(board.swapping().unwrap().swaps, 2);
    let (matches, destroyed) = board.drop_gem();
    assert_ne!(board.state(), BoardState::Ready);
    assert_eq!(board.state(), BoardState::Matching);
    assert_eq!(board.waiting_for(), 0);
    assert!(matches.is_empty());
    assert!(destroyed.is_empty());
    assert!(board.grid().is_complete());
    // Nothing matched, so the matching is over with the next step.
    assert!(board.finish_matching());
    assert_eq!(board.state(), BoardState::End);
    assert!(!board.finish_matching());
    assert_eq!(board.state(), BoardState::End);
}

#[test]
fn a_timeout_after_a_swap_leads_to_matching() {
    let mut board = Board::new(&calm_elements());
    board.activate();
    board.pickup(tile_at(0, 0));
    board.swap_gems(tile_at(0, 1));
    board.swap_gems(tile_at(0, 0));
    board.update_timer(9_000_000);
    assert!(board.timer_finished());
    board.drop_if_due(false);
    assert_eq!(board.state(), BoardState::Matching);
    assert_eq!(board.waiting_for(), 0);
}

#[test]
fn a_timeout_without_a_swap_leads_back_to_ready() {
    let mut board = Board::new(&calm_elements());
    board.activate();
    board.pickup(tile_at(0, 0));
    board.update_timer(8_999_999);
    board.drop_if_due(false);
    assert_eq!(board.state(), BoardState::Swapping);
    board.update_timer(1);
    assert!(board.timer_finished());
    board.drop_if_due(false);
    assert_eq!(board.state(), BoardState::Ready);
    assert!(!board.grid().gem_of(tile_at(0, 0)).unwrap().holding);
}

#[test]
fn drag_there_and_back_goes_to_matching_when_a_match_waits() {
    let mut elements = calm_elements();
    elements[2][0] = Element::Fire;
    elements[2][1] = Element::Fire;
    elements[2][2] = Element::Fire;
    let mut board = Board::new(&elements);
    assert!(board.activate());
    assert!(board.pickup(tile_at(0, 0)));
    assert!(board.swap_gems(tile_at(0, 1)));
    assert!(board.swap_gems(tile_at(0, 0)));
    assert_eq!(board.swapping().unwrap().swaps, 2);
    board.drop_gem();
    assert_eq!(board.state(), BoardState::Matching);
}

#[test]
fn drop_without_swap_returns_to_ready() {
    let mut board = Board::new(&calm_elements());
    board.activate();
    let before = board.grid().gem_of(tile_at(3, 2));
    assert!(board.pickup(tile_at(3, 2)));
    assert!(board.grid().gem_of(tile_at(3, 2)).unwrap().holding);
    assert!(!board.swap_gems(tile_at(3, 2)));
    board.update_timer(4_000_000);
    assert_eq!(board.swapping().unwrap().remaining, 5_000_000);
    assert!(!board.timer_finished());
    board.drop_gem();
    assert_eq!(board.state(), BoardState::Ready);
    assert_eq!(board.grid().gem_of(tile_at(3, 2)), before);
    assert!(board.swapping().is_none());
}

#[test]
fn vertical_match_at_the_bottom_runs_one_cycle() {
    let mut elements = calm_elements();
    elements[2][0] = Element::Fire;
    elements[2][1] = Element::Fire;
    elements[2][2] = Element::Fire;
    let above_three = elements[2][3];
    let above_four = elements[2][4];
    let mut board = Board::new(&elements);
    board.activate();
    board.pickup(tile_at(5, 4));
    board.swap_gems(tile_at(5, 3));
    board.swap_gems(tile_at(5, 4));
    let (matches, destroyed) = board.drop_gem();
    assert_eq!(board.state(), BoardState::Matching);
    assert_eq!(matches.len(), 1);
    assert_eq!(matches[0].size(), 3);
    assert_eq!(matches[0].element, Element::Fire);
    assert_eq!(destroyed.len(), 3);
    assert_eq!(board.waiting_for(), 3);
    assert_eq!(board.grid().vacant(), 3);
    assert!(board.grid().gem_of(tile_at(2, 0)).is_none());

    // New gems that match nothing around them.
    let supply = vec![Element::Light, Element::Grass, Element::Light];
    assert!(board.gem_destroyed_with(&supply).is_empty());
    assert!(board.gem_destroyed_with(&supply).is_empty());
    let falls = board.gem_destroyed_with(&supply);
    assert_eq!(board.state(), BoardState::Falling);
    // The two gems above the match slide down, and three new gems come in
    // on top: every tile of the column gets a new occupant.
    assert_eq!(falls.len(), 5);
    let new_gems = falls
        .iter()
        .filter(|fall| matches!(fall.gem, FallingGem::New { .. }))
        .count();
    assert_eq!(new_gems, 3);
    for (row, fall) in falls.iter().enumerate() {
        assert_eq!(fall.tile, tile_at(2, row));
    }
    assert_eq!(falls[0].gem, FallingGem::Existing { gem: tile_at(2, 3), from: 3 });
    assert_eq!(falls[1].gem, FallingGem::Existing { gem: tile_at(2, 4), from: 4 });
    assert_eq!(falls[2].gem, FallingGem::New { height: 1 });
    assert_eq!(falls[3].gem, FallingGem::New { height: 2 });
    assert_eq!(falls[4].gem, FallingGem::New { height: 3 });
    for fall in &falls {
        assert_eq!(fall.rows, 3);
    }
    assert!(board.grid().is_complete());
    assert_eq!(board.grid().gem_of(tile_at(2, 0)).unwrap().element, above_three);
    assert_eq!(board.grid().gem_of(tile_at(2, 1)).unwrap().element, above_four);
    assert_eq!(board.grid().gem_of(tile_at(2, 2)).unwrap().element, Element::Light);
    assert_eq!(board.grid().gem_of(tile_at(2, 3)).unwrap().element, Element::Grass);
    assert_eq!(board.grid().gem_of(tile_at(2, 4)).unwrap().element, Element::Light);
    assert_eq!(board.waiting_for(), 5);
    for _ in 0..4 {
        let (again, _) = board.fall_completed();
        assert!(again.is_empty());
        assert_eq!(board.state(), BoardState::Falling);
    }
    let (again, gone) = board.fall_completed();
    assert!(again.is_empty());
    assert!(gone.is_empty());
    // The last fall leads back to matching; with no match left the board
    // waits for nothing and comes to its end.
    assert_eq!(board.state(), BoardState::Matching);
    assert_eq!(board.waiting_for(), 0);
    assert!(board.gem_destroyed().is_empty());
    assert_eq!(board.state(), BoardState::Matching);
    assert!(board.finish_matching());
    assert_eq!(board.state(), BoardState::End);
    assert_eq!(board.grid().vacant(), 0);
}

#[test]
fn vertical_match_at_the_top_is_filled_by_new_gems_only() {
    let mut elements = calm_elements();
    elements[2][2] = Element::Fire;
    elements[2][3] = Element::Fire;
    elements[2][4] = Element::Fire;
    let mut board = Board::new(&elements);
    board.activate();
    board.pickup(tile_at(5, 0));
    board.swap_gems(tile_at(5, 1));
    board.swap_gems(tile_at(5, 0));
    let (_, destroyed) = board.drop_gem();
    assert_eq!(destroyed.len(), 3);
    let supply = vec![Element::Light, Element::Grass, Element::Light];
    board.gem_destroyed_with(&supply);
    board.gem_destroyed_with(&supply);
    let falls = board.gem_destroyed_with(&supply);
    assert_eq!(falls.len(), 3);
    assert_eq!(falls[0].gem, FallingGem::New { height: 1 });
    assert_eq!(falls[1].gem, FallingGem::New { height: 2 });
    assert_eq!(falls[2].gem, FallingGem::New { height: 3 });
}
