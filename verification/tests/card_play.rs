use gem_battle::cards::{contains_id, Cards, CardsState, HAND_SIZE, MERGE_SIZE};
use gem_battle::element::Element;
use gem_battle::player::{Player, Spell};

fn deck() -> Cards {
    Cards::new(Player::default().spells)
}

fn all_cards(cards: &Cards) -> Vec<u64> {
    let mut all: Vec<u64> = Vec::new();
    all.extend(cards.draw_pile());
    all.extend(cards.discard_pile());
    all.extend(cards.hand());
    all.sort();
    all
}

fn play_to_select(cards: &mut Cards) {
    cards.draw();
    assert_eq!(cards.state(), CardsState::Draw);
    cards.begin_select();
    assert_eq!(cards.state(), CardsState::Select);
}

#[test]
fn new_cards_lie_in_the_draw_pile() {
    let cards = deck();
    assert_eq!(cards.state(), CardsState::Inactive);
    assert_eq!(all_cards(&cards), (0..8).collect::<Vec<u64>>());
    assert_eq!(cards.draw_pile().len(), 8);
    assert!(cards.hand().is_empty());
    assert!(cards.discard_pile().is_empty());
    assert_eq!(cards.hovered_card(), None);
    assert_eq!(cards.selected_count(), 0);
    assert_eq!(cards.spell(6).name, "Ray");
    assert_eq!(cards.spell(0).elements, vec![Element::Fire]);
}

#[test]
fn a_large_deck_comes_shuffled() {
    let spells: Vec<Spell> = (0..40).map(|_| Spell::fire()).collect();
    let cards = Cards::new(spells);
    let pile = cards.draw_pile().clone();
    let mut ordered = pile.clone();
    ordered.sort();
    assert_eq!(ordered, (0..40).collect::<Vec<u64>>());
    assert_ne!(pile, ordered);
}

#[test]
fn drawing_takes_the_first_cards_of_the_pile() {
    let mut cards = deck();
    let pile = cards.draw_pile().clone();
    cards.draw();
    assert_eq!(HAND_SIZE, 5);
    assert_eq!(cards.hand().as_slice(), &pile[..5]);
    assert_eq!(cards.draw_pile().as_slice(), &pile[5..]);
    assert!(cards.discard_pile().is_empty());
    assert_eq!(all_cards(&cards), (0..8).collect::<Vec<u64>>());
}

#[test]
fn a_short_pile_is_refilled_from_the_discard_pile() {
    let mut cards = deck();
    let mut player = Player::default();
    play_to_select(&mut cards);
    let first = cards.hand()[0];
    let second = cards.hand()[1];
    cards.hover_cards(&vec![first]);
    cards.select_cards(true);
    cards.hover_cards(&vec![second]);
    cards.select_cards(true);
    assert!(cards.start_merge(&mut player));
    cards.discard();
    cards.finish();
    assert_eq!(cards.state(), CardsState::End);
    assert_eq!(cards.discard_pile().len(), 5);
    assert_eq!(cards.draw_pile().len(), 3);
    let left = cards.draw_pile().clone();
    cards.draw();
    assert_eq!(cards.hand().len(), 5);
    assert_eq!(&cards.hand()[..3], left.as_slice());
    assert_eq!(cards.draw_pile().len(), 3);
    assert!(cards.discard_pile().is_empty());
    assert_eq!(all_cards(&cards), (0..8).collect::<Vec<u64>>());
}

#[test]
fn the_pointer_picks_the_first_card_under_it() {
    let mut cards = deck();
    cards.draw();
    let hand = cards.hand().clone();
    cards.hover_cards(&vec![hand[2]]);
    assert_eq!(cards.hovered_card(), None);
    cards.begin_select();
    cards.hover_cards(&vec![hand[3], hand[1], 77]);
    assert_eq!(cards.hovered_card(), Some(hand[1]));
    cards.hover_cards(&vec![hand[0], hand[1]]);
    assert_eq!(cards.hovered_card(), Some(hand[1]));
    cards.hover_cards(&vec![hand[4]]);
    assert_eq!(cards.hovered_card(), Some(hand[4]));
    cards.hover_cards(&vec![77]);
    assert_eq!(cards.hovered_card(), None);
    cards.hover_cards(&Vec::new());
    assert_eq!(cards.hovered_card(), None);
}

#[test]
fn a_click_chooses_and_a_second_click_lets_go() {
    let mut cards = deck();
    play_to_select(&mut cards);
    let card = cards.hand()[2];
    cards.select_cards(true);
    assert_eq!(cards.selected_count(), 0);
    cards.hover_cards(&vec![card]);
    cards.select_cards(false);
    assert!(!cards.is_selected(card));
    cards.select_cards(true);
    assert!(cards.is_selected(card));
    assert_eq!(cards.selected_count(), 1);
    cards.select_cards(true);
    assert!(!cards.is_selected(card));
    assert_eq!(cards.selected_count(), 0);
}

#[test]
fn two_chosen_cards_are_merged_into_the_active_spell() {
    let mut cards = deck();
    let mut player = Player::default();
    play_to_select(&mut cards);
    let hand = cards.hand().clone();
    assert!(!cards.start_merge(&mut player));
    cards.hover_cards(&vec![hand[0]]);
    cards.select_cards(true);
    assert!(!cards.start_merge(&mut player));
    assert!(player.active_spell.is_none());
    cards.hover_cards(&vec![hand[4]]);
    cards.select_cards(true);
    assert_eq!(MERGE_SIZE, 2);
    assert_eq!(cards.selected_count(), 2);
    let a = cards.spell(hand[0]).duplicate();
    let b = cards.spell(hand[4]).duplicate();
    assert!(cards.start_merge(&mut player));
    assert_eq!(cards.state(), CardsState::Merge);
    assert_eq!(cards.selected_count(), 0);
    let spell = player.active_spell.as_ref().unwrap();
    assert_eq!(spell.attack, a.attack + b.attack);
    let one_way = format!(" {} {}", a.name, b.name);
    let other_way = format!(" {} {}", b.name, a.name);
    assert!(spell.name == one_way || spell.name == other_way);
    if spell.name == one_way && a.name != b.name {
        assert_eq!(spell.elements, vec![a.elements[0], b.elements[0]]);
    }
    assert!(spell.uses(a.elements[0]));
    assert!(spell.uses(b.elements[0]));
    assert_eq!(spell.elements.len(), 2);
    assert!(!cards.start_merge(&mut player));
}

#[test]
fn spells_are_merged_in_the_order_given() {
    let cards = deck();
    let spell = cards.merge_in_order(&vec![7, 0]);
    assert_eq!(spell.name, " Curse Fire");
    assert_eq!(spell.attack, 5);
    assert_eq!(spell.elements, vec![Element::Dark, Element::Fire]);
    let single = cards.merge_in_order(&vec![2]);
    assert_eq!(single.name, " Wave");
    assert_eq!(single.attack, 2);
    let none = cards.merge_in_order(&Vec::new());
    assert_eq!(none.name, "");
    assert_eq!(none.attack, 0);
}

#[test]
fn the_hand_is_discarded_after_the_merge() {
    let mut cards = deck();
    let mut player = Player::default();
    play_to_select(&mut cards);
    let hand = cards.hand().clone();
    cards.discard();
    assert_eq!(cards.state(), CardsState::Select);
    assert_eq!(cards.hand().len(), 5);
    cards.hover_cards(&vec![hand[1]]);
    cards.select_cards(true);
    cards.hover_cards(&vec![hand[2]]);
    cards.select_cards(true);
    cards.start_merge(&mut player);
    cards.finish();
    assert_eq!(cards.state(), CardsState::Merge);
    cards.discard();
    assert_eq!(cards.state(), CardsState::Discard);
    assert!(cards.hand().is_empty());
    assert_eq!(cards.discard_pile(), &hand);
    assert_eq!(cards.hovered_card(), None);
    cards.begin_select();
    assert_eq!(cards.state(), CardsState::Discard);
    cards.finish();
    assert_eq!(cards.state(), CardsState::End);
    cards.stop();
    assert_eq!(cards.state(), CardsState::Inactive);
    assert_eq!(all_cards(&cards), (0..8).collect::<Vec<u64>>());
}

#[test]
fn cards_can_be_laid_out_in_a_given_order() {
    let mut cards = Cards::with_draw_pile(Player::default().spells, vec![7, 6, 5, 4, 3, 2, 1, 0]);
    assert_eq!(cards.state(), CardsState::Inactive);
    assert_eq!(cards.draw_pile(), &vec![7, 6, 5, 4, 3, 2, 1, 0]);
    cards.deal();
    assert_eq!(cards.state(), CardsState::Draw);
    assert_eq!(cards.hand(), &vec![7, 6, 5, 4, 3]);
    assert_eq!(cards.draw_pile(), &vec![2, 1, 0]);
    assert!(cards.discard_pile().is_empty());
}

#[test]
fn discarded_cards_go_under_the_draw_pile() {
    let mut cards = Cards::with_draw_pile(Player::default().spells, vec![7, 6, 5, 4, 3, 2, 1, 0]);
    let mut player = Player::default();
    cards.deal();
    cards.begin_select();
    cards.hover_cards(&vec![7]);
    cards.select_cards(true);
    cards.hover_cards(&vec![3]);
    cards.select_cards(true);
    assert!(cards.start_merge(&mut player));
    let spell = player.active_spell.as_ref().unwrap();
    assert_eq!(spell.attack, 5);
    assert!(spell.name == " Curse Wave" || spell.name == " Wave Curse");
    cards.discard();
    assert_eq!(cards.discard_pile(), &vec![7, 6, 5, 4, 3]);
    cards.restock(vec![3, 5, 7, 4, 6]);
    assert_eq!(cards.draw_pile(), &vec![2, 1, 0, 3, 5, 7, 4, 6]);
    assert!(cards.discard_pile().is_empty());
    assert_eq!(cards.state(), CardsState::Discard);
    cards.deal();
    assert_eq!(cards.hand(), &vec![2, 1, 0, 3, 5]);
    assert_eq!(cards.draw_pile(), &vec![7, 4, 6]);
}

#[test]
fn handles_are_found_in_lists() {
    assert!(contains_id(&vec![4, 8, 15], 8));
    assert!(!contains_id(&vec![4, 8, 15], 16));
    assert!(!contains_id(&Vec::new(), 0));
}
