//! The cards of the player: drawing a hand, choosing two cards, and merging
//! their spells into the spell of the turn.
//!
//! A card is known by its handle, the place of its spell in the list of
//! spells that the cards were made from. Every card lies in the draw pile,
//! in the discard pile or in the hand.

use crate::chance::shuffle;
use crate::id_set::IdSet;
use crate::player::merged_all;
use crate::player::spell_views;
use crate::player::total_attack;
use crate::player::total_attack_positive;
use crate::player::Player;
use crate::player::Spell;
use crate::player::SpellView;
use vstd::multiset::Multiset;
use vstd::prelude::*;

verus! {

/// The state of the cards.
#[derive(Debug, Hash, Clone, Copy, PartialEq, Eq, Structural)]
pub enum CardsState {
    /// The cards are not in play.
    Inactive,
    /// A hand is drawn.
    Draw,
    /// The player chooses cards of the hand.
    Select,
    /// The chosen cards are merged.
    Merge,
    /// The hand is discarded.
    Discard,
    /// The spell of the turn is made.
    End,
}

/// How many cards make a hand.
pub const HAND_SIZE: usize = 5;

/// How many cards are merged into the spell of a turn.
pub const MERGE_SIZE: usize = 2;

/// What the cards are made of.
pub struct CardsView {
    /// The state of the cards.
    pub state: CardsState,
    /// The spell of each card, by the card's handle.
    pub spells: Seq<SpellView>,
    /// The cards that can still be drawn; the next to be drawn first.
    pub draw_pile: Seq<u64>,
    /// The cards that were played.
    pub discard_pile: Seq<u64>,
    /// The cards in the player's hand.
    pub hand: Seq<u64>,
    /// The card of the hand under the pointer.
    pub hovered_card: Option<u64>,
    /// The cards of the hand that the player has chosen.
    pub selected_cards: Set<u64>,
}

/// Whether every handle of the list is the handle of a card.
pub open spec fn all_cards(list: Seq<u64>, count: int) -> bool {
    forall|i: int| 0 <= i < list.len() ==> (#[trigger] list[i]) < count
}

/// All the cards, wherever they lie.
pub open spec fn cards_of(v: CardsView) -> Multiset<u64> {
    (v.draw_pile + v.discard_pile + v.hand).to_multiset()
}

/// Whether the parts fit together: the piles and the hand hold handles of
/// cards only, the card under the pointer and the chosen cards are in the
/// hand, and the attacks of all spells together fit into an attack.
pub open spec fn cards_wf(v: CardsView) -> bool {
    &&& all_cards(v.draw_pile, v.spells.len() as int)
    &&& all_cards(v.discard_pile, v.spells.len() as int)
    &&& all_cards(v.hand, v.spells.len() as int)
    &&& v.selected_cards.finite()
    &&& forall|card: u64| #[trigger] v.selected_cards.contains(card) ==> v.hand.contains(card)
    &&& v.hovered_card is Some ==> v.hand.contains(v.hovered_card->0)
    &&& total_attack(v.spells) <= u32::MAX
}

/// The cards after a hand was drawn, where `shuffled` is the order in which
/// the discarded cards go under a draw pile that is too short for a hand.
pub open spec fn drawn(v: CardsView, shuffled: Seq<u64>) -> CardsView {
    let enough = v.draw_pile.len() >= HAND_SIZE;
    let pile = if enough {
        v.draw_pile
    } else {
        v.draw_pile + shuffled
    };
    CardsView {
        state: CardsState::Draw,
        draw_pile: pile.skip(HAND_SIZE as int),
        discard_pile: if enough {
            v.discard_pile
        } else {
            Seq::empty()
        },
        hand: v.hand + pile.take(HAND_SIZE as int),
        ..v
    }
}

/// The first card of the hand that is under the pointer.
pub open spec fn first_under(hand: Seq<u64>, under_pointer: Seq<u64>) -> Option<u64>
    decreases hand.len(),
{
    if hand.len() == 0 {
        None
    } else if under_pointer.contains(hand.first()) {
        Some(hand.first())
    } else {
        first_under(hand.drop_first(), under_pointer)
    }
}

/// The card under the pointer after the pointer has moved: the card that
/// was under it, if it still is; otherwise the first card of the hand that
/// is under it now.
pub open spec fn hovered_after(v: CardsView, under_pointer: Seq<u64>) -> Option<u64> {
    if v.hovered_card is Some && under_pointer.contains(v.hovered_card->0) {
        v.hovered_card
    } else {
        first_under(v.hand, under_pointer)
    }
}

/// The chosen cards after a click: the card under the pointer is chosen if
/// it was not, and no longer chosen if it was.
pub open spec fn selected_after(v: CardsView) -> Set<u64> {
    match v.hovered_card {
        Some(card) => if v.selected_cards.contains(card) {
            v.selected_cards.remove(card)
        } else {
            v.selected_cards.insert(card)
        },
        None => v.selected_cards,
    }
}

/// The spells of the cards of a list, in the order of the list.
pub open spec fn spells_of(spells: Seq<SpellView>, cards: Seq<u64>) -> Seq<SpellView> {
    Seq::new(cards.len(), |i: int| spells[cards[i] as int])
}

/// The first card of a hand that is under the pointer is a card of the
/// hand.
pub proof fn first_under_is_in_hand(hand: Seq<u64>, under_pointer: Seq<u64>)
    ensures
        first_under(hand, under_pointer) is Some ==> hand.contains(
            first_under(hand, under_pointer)->0,
        ) && under_pointer.contains(first_under(hand, under_pointer)->0),
    decreases hand.len(),
{
    if hand.len() > 0 {
        if under_pointer.contains(hand.first()) {
            assert(hand[0] == hand.first());
        } else {
            first_under_is_in_hand(hand.drop_first(), under_pointer);
            if first_under(hand, under_pointer) is Some {
                let card = first_under(hand, under_pointer)->0;
                let i = choose|i: int|
                    0 <= i < hand.drop_first().len() && hand.drop_first()[i] == card;
                assert(hand[i + 1] == card);
            }
        }
    }
}

/// Two spells of a list have attacks that add up to no more than the
/// attacks of the whole list.
pub proof fn two_attacks_fit(spells: Seq<SpellView>, a: int, b: int)
    requires
        0 <= a < b < spells.len(),
    ensures
        spells[a].attack + spells[b].attack <= total_attack(spells),
    decreases spells.len(),
{
    let rest = spells.drop_last();
    if b == spells.len() - 1 {
        one_attack_fits(rest, a);
    } else {
        two_attacks_fit(rest, a, b);
    }
}

/// A spell of a list has an attack of no more than the attacks of the
/// whole list.
pub proof fn one_attack_fits(spells: Seq<SpellView>, a: int)
    requires
        0 <= a < spells.len(),
    ensures
        spells[a].attack <= total_attack(spells),
    decreases spells.len(),
{
    let rest = spells.drop_last();
    total_attack_positive(rest);
    if a < spells.len() - 1 {
        one_attack_fits(rest, a);
    }
}

/// Whether a handle is in a list.
pub fn contains_id(list: &Vec<u64>, id: u64) -> (found: bool)
    ensures
        found == list@.contains(id),
{
    let mut i: usize = 0;
    while i < list.len()
        invariant
            i <= list@.len(),
            forall|j: int| 0 <= j < i ==> list@[j] != id,
        decreases list@.len() - i,
    {
        if list[i] == id {
            return true;
        }
        i += 1;
    }
    false
}

/// The cards of the player.
pub struct Cards {
    state: CardsState,
    spells: Vec<Spell>,
    draw_pile: Vec<u64>,
    discard_pile: Vec<u64>,
    hand: Vec<u64>,
    hovered_card: Option<u64>,
    selected_cards: IdSet,
}

impl View for Cards {
    type V = CardsView;

    closed spec fn view(&self) -> CardsView {
        CardsView {
            state: self.state,
            spells: spell_views(self.spells@),
            draw_pile: self.draw_pile@,
            discard_pile: self.discard_pile@,
            hand: self.hand@,
            hovered_card: self.hovered_card,
            selected_cards: self.selected_cards@,
        }
    }
}

impl Cards {
    /// Whether the parts fit together.
    pub open spec fn wf(&self) -> bool {
        cards_wf(self@)
    }

    /// One card for each spell, all in the draw pile in the given order.
    /// The pile must hold the handle of each card once. The attacks of the
    /// spells together must fit into an attack.
    pub fn with_draw_pile(spells: Vec<Spell>, pile: Vec<u64>) -> (cards: Cards)
        requires
            total_attack(spell_views(spells@)) <= u32::MAX,
            pile@.to_multiset() == Seq::new(spells@.len(), |i: int| i as u64).to_multiset(),
            spells@.len() <= u64::MAX,
        ensures
            cards.wf(),
            cards@ == (CardsView {
                state: CardsState::Inactive,
                spells: spell_views(spells@),
                draw_pile: pile@,
                discard_pile: Seq::empty(),
                hand: Seq::empty(),
                hovered_card: None,
                selected_cards: Set::<u64>::empty(),
            }),
    {
        proof {
            same_cards_in_range(
                Seq::new(spells@.len(), |i: int| i as u64),
                pile@,
                spells@.len() as int,
            );
        }
        Cards {
            state: CardsState::Inactive,
            spells,
            draw_pile: pile,
            discard_pile: Vec::new(),
            hand: Vec::new(),
            hovered_card: None,
            selected_cards: IdSet::empty(),
        }
    }

    /// One card for each spell, all in the draw pile in an order picked by
    /// chance. The attacks of the spells together must fit into an attack,
    /// and there must be no more spells than handles.
    pub fn new(spells: Vec<Spell>) -> (cards: Cards)
        requires
            total_attack(spell_views(spells@)) <= u32::MAX,
            spells@.len() <= u64::MAX,
        ensures
            cards.wf(),
            cards@.state == CardsState::Inactive,
            cards@.spells == spell_views(spells@),
            cards@.draw_pile.to_multiset() == Seq::new(spells@.len(), |i: int| i as u64).to_multiset(),
            cards@.discard_pile.len() == 0,
            cards@.hand.len() == 0,
            cards@.hovered_card is None,
            cards@.selected_cards == Set::<u64>::empty(),
    {
        let mut pile: Vec<u64> = Vec::new();
        let mut i: usize = 0;
        while i < spells.len()
            invariant
                i <= spells@.len(),
                spells@.len() <= u64::MAX,
                pile@ == Seq::new(i as nat, |k: int| k as u64),
            decreases spells@.len() - i,
        {
            pile.push(i as u64);
            proof {
                assert(pile@ =~= Seq::new((i + 1) as nat, |k: int| k as u64));
            }
            i += 1;
        }
        shuffle(&mut pile);
        Cards::with_draw_pile(spells, pile)
    }

    /// The state of the cards.
    pub fn state(&self) -> (state: CardsState)
        ensures
            state == self@.state,
    {
        self.state
    }

    /// The cards in the hand.
    pub fn hand(&self) -> (hand: &Vec<u64>)
        ensures
            hand@ == self@.hand,
    {
        &self.hand
    }

    /// The cards that can still be drawn.
    pub fn draw_pile(&self) -> (pile: &Vec<u64>)
        ensures
            pile@ == self@.draw_pile,
    {
        &self.draw_pile
    }

    /// The cards that were played.
    pub fn discard_pile(&self) -> (pile: &Vec<u64>)
        ensures
            pile@ == self@.discard_pile,
    {
        &self.discard_pile
    }

    /// The card under the pointer.
    pub fn hovered_card(&self) -> (card: Option<u64>)
        ensures
            card == self@.hovered_card,
    {
        self.hovered_card
    }

    /// Whether the player has chosen a card.
    pub fn is_selected(&self, card: u64) -> (chosen: bool)
        ensures
            chosen == self@.selected_cards.contains(card),
    {
        self.selected_cards.contains(card)
    }

    /// How many cards the player has chosen.
    pub fn selected_count(&self) -> (count: usize)
        ensures
            count == self@.selected_cards.len(),
    {
        self.selected_cards.len()
    }

    /// The spell of a card.
    pub fn spell(&self, card: u64) -> (spell: &Spell)
        requires
            card < self@.spells.len(),
        ensures
            spell@ == self@.spells[card as int],
    {
        let count = self.spells.len();
        assert(self@.spells.len() == count);
        assert(self@.spells[card as int] == self.spells@[card as int]@);
        &self.spells[card as usize]
    }

    /// Takes the cards out of play.
    pub fn stop(&mut self)
        requires
            old(self).wf(),
        ensures
            final(self).wf(),
            final(self)@ == (CardsView { state: CardsState::Inactive, ..old(self)@ }),
    {
        self.state = CardsState::Inactive;
    }

    /// Puts the discarded cards, in the order given, under the draw pile.
    /// The order must hold the discarded cards, each as often as the
    /// discard pile does.
    pub fn restock(&mut self, shuffled: Vec<u64>)
        requires
            old(self).wf(),
            shuffled@.to_multiset() == old(self)@.discard_pile.to_multiset(),
        ensures
            final(self).wf(),
            final(self)@ == (CardsView {
                draw_pile: old(self)@.draw_pile + shuffled@,
                discard_pile: Seq::empty(),
                ..old(self)@
            }),
            cards_of(final(self)@) == cards_of(old(self)@),
    {
        let ghost before = self@;
        proof {
            same_cards_in_range(before.discard_pile, shuffled@, self.spells@.len() as int);
            assert(before.spells.len() == self.spells@.len());
            joined_cards(before.draw_pile, before.discard_pile, before.hand);
            joined_cards(before.draw_pile, shuffled@, before.hand);
        }
        let ghost order = shuffled@;
        let mut shuffled = shuffled;
        self.draw_pile.append(&mut shuffled);
        self.discard_pile = Vec::new();
        proof {
            assert(self.draw_pile@ + self.discard_pile@ + self.hand@ =~= before.draw_pile + order
                + before.hand);
        }
    }

    /// Deals a hand: the next cards of the draw pile, as many as a hand
    /// has, go to the hand in their order. The draw pile must hold that
    /// many.
    pub fn deal(&mut self)
        requires
            old(self).wf(),
            old(self)@.draw_pile.len() >= HAND_SIZE,
        ensures
            final(self).wf(),
            final(self)@ == (CardsView {
                state: CardsState::Draw,
                draw_pile: old(self)@.draw_pile.skip(HAND_SIZE as int),
                hand: old(self)@.hand + old(self)@.draw_pile.take(HAND_SIZE as int),
                ..old(self)@
            }),
            cards_of(final(self)@) == cards_of(old(self)@),
    {
        let ghost before = self@;
        self.state = CardsState::Draw;
        let rest = self.draw_pile.split_off(HAND_SIZE);
        self.hand.append(&mut self.draw_pile);
        self.draw_pile = rest;
        proof {
            let drawn = before.draw_pile.take(HAND_SIZE as int);
            let left = before.draw_pile.skip(HAND_SIZE as int);
            assert(before.draw_pile =~= drawn + left);
            assert(self.hand@ =~= before.hand + drawn);
            assert(self.draw_pile@ =~= left);
            moved_cards(drawn, left, before.discard_pile, before.hand);
            assert(self.draw_pile@ + self.discard_pile@ + self.hand@ =~= left
                + before.discard_pile + (before.hand + drawn));
            assert(before.draw_pile + before.discard_pile + before.hand =~= drawn + left
                + before.discard_pile + before.hand);
            assert forall|card: u64| #[trigger]
                self.selected_cards@.contains(card) implies self.hand@.contains(card) by {
                let i = choose|i: int| 0 <= i < before.hand.len() && before.hand[i] == card;
                assert(self.hand@[i] == card);
            }
            if self.hovered_card is Some {
                let card = self.hovered_card->0;
                let i = choose|i: int| 0 <= i < before.hand.len() && before.hand[i] == card;
                assert(self.hand@[i] == card);
            }
        }
    }

    /// Draws a hand. If fewer cards than a hand has are left to draw, the
    /// discarded cards are shuffled and put under the draw pile first; then
    /// a hand is dealt. Both piles together must hold as many cards as a
    /// hand has.
    ///
    /// No card is lost or made. When the draw pile holds enough cards, the
    /// outcome is that of [`Cards::deal`]; otherwise it is that of
    /// [`Cards::restock`], with the discarded cards in some order, followed
    /// by [`Cards::deal`].
    pub fn draw(&mut self)
        requires
            old(self).wf(),
            old(self)@.draw_pile.len() + old(self)@.discard_pile.len() >= HAND_SIZE,
        ensures
            final(self).wf(),
            cards_of(final(self)@) == cards_of(old(self)@),
            exists|shuffled: Seq<u64>|
                shuffled.to_multiset() == old(self)@.discard_pile.to_multiset() && final(self)@
                    == #[trigger] drawn(old(self)@, shuffled),
    {
        let ghost before = self@;
        let ghost mut order = before.discard_pile;
        if self.draw_pile.len() < HAND_SIZE {
            let mut pile: Vec<u64> = Vec::new();
            let mut i: usize = 0;
            while i < self.discard_pile.len()
                invariant
                    i <= self.discard_pile@.len(),
                    pile@ == self.discard_pile@.take(i as int),
                decreases self.discard_pile@.len() - i,
            {
                pile.push(self.discard_pile[i]);
                proof {
                    assert(pile@ =~= self.discard_pile@.take(i + 1));
                }
                i += 1;
            }
            proof {
                assert(self.discard_pile@.take(self.discard_pile@.len() as int)
                    =~= self.discard_pile@);
            }
            shuffle(&mut pile);
            proof {
                order = pile@;
                before.discard_pile.to_multiset_ensures();
                pile@.to_multiset_ensures();
            }
            self.restock(pile);
        }
        self.deal();
        proof {
            assert(self@ == drawn(before, order));
        }
    }

    /// Lets the player choose, once a hand is drawn. In any other state
    /// nothing happens.
    pub fn begin_select(&mut self)
        requires
            old(self).wf(),
        ensures
            final(self).wf(),
            final(self)@ == (CardsView {
                state: if old(self)@.state == CardsState::Draw {
                    CardsState::Select
                } else {
                    old(self)@.state
                },
                ..old(self)@
            }),
    {
        if self.state == CardsState::Draw {
            self.state = CardsState::Select;
        }
    }

    /// Follows the pointer while the player chooses: `under_pointer` lists
    /// the cards that the pointer is over. The card that was under the
    /// pointer stays so if it is among them; otherwise the first card of
    /// the hand that is among them takes its place. In any other state
    /// nothing happens.
    pub fn hover_cards(&mut self, under_pointer: &Vec<u64>)
        requires
            old(self).wf(),
        ensures
            final(self).wf(),
            final(self)@ == (CardsView {
                hovered_card: if old(self)@.state == CardsState::Select {
                    hovered_after(old(self)@, under_pointer@)
                } else {
                    old(self)@.hovered_card
                },
                ..old(self)@
            }),
    {
        if self.state != CardsState::Select {
            return ;
        }
        match self.hovered_card {
            Some(card) => {
                if contains_id(under_pointer, card) {
                    return ;
                }
            },
            None => {},
        }
        proof {
            first_under_is_in_hand(self.hand@, under_pointer@);
        }
        let mut found: Option<u64> = None;
        let mut i: usize = 0;
        proof {
            assert(self.hand@.skip(0) =~= self.hand@);
        }
        while i < self.hand.len()
            invariant_except_break
                found is None,
                first_under(self.hand@, under_pointer@) == first_under(
                    self.hand@.skip(i as int),
                    under_pointer@,
                ),
            invariant
                i <= self.hand@.len(),
            ensures
                found == first_under(self.hand@, under_pointer@),
            decreases self.hand@.len() - i,
        {
            proof {
                assert(self.hand@.skip(i as int).drop_first() =~= self.hand@.skip(i + 1));
            }
            if contains_id(under_pointer, self.hand[i]) {
                found = Some(self.hand[i]);
                break ;
            }
            i += 1;
        }
        self.hovered_card = found;
    }

    /// Takes a click while the player chooses: the card under the pointer
    /// is chosen if it was not, and no longer chosen if it was. Without a
    /// click, without a card under the pointer, or in any other state,
    /// nothing happens.
    pub fn select_cards(&mut self, clicked: bool)
        requires
            old(self).wf(),
        ensures
            final(self).wf(),
            final(self)@ == (CardsView {
                selected_cards: if old(self)@.state == CardsState::Select && clicked {
                    selected_after(old(self)@)
                } else {
                    old(self)@.selected_cards
                },
                ..old(self)@
            }),
    {
        if self.state != CardsState::Select || !clicked {
            return ;
        }
        match self.hovered_card {
            Some(card) => {
                if !self.selected_cards.insert(card) {
                    self.selected_cards.remove(card);
                    proof {
                        assert(self.selected_cards@ =~= old(self)@.selected_cards.remove(card));
                    }
                }
            },
            None => {},
        }
    }

    /// The spell that the chosen cards make when they are merged in the
    /// given order.
    pub fn merge_in_order(&self, order: &Vec<u64>) -> (spell: Spell)
        requires
            self.wf(),
            all_cards(order@, self@.spells.len() as int),
            order@.no_duplicates(),
            order@.len() <= MERGE_SIZE,
        ensures
            spell@ == merged_all(spells_of(self@.spells, order@)),
    {
        let ghost chosen = spells_of(self@.spells, order@);
        let count = self.spells.len();
        assert(self@.spells.len() == count);
        let mut spell = Spell::empty();
        let mut i: usize = 0;
        proof {
            assert(chosen.take(0) =~= Seq::empty());
        }
        while i < order.len()
            invariant
                self.wf(),
                i <= order@.len(),
                order@.len() <= MERGE_SIZE,
                order@.no_duplicates(),
                all_cards(order@, self@.spells.len() as int),
                chosen == spells_of(self@.spells, order@),
                count == self.spells@.len(),
                spell@ == merged_all(chosen.take(i as int)),
                spell.attack == total_attack(chosen.take(i as int)),
            decreases order@.len() - i,
        {
            let card = order[i];
            proof {
                assert(self@.spells.len() == self.spells@.len());
                assert(self@.spells[card as int] == self.spells@[card as int]@);
                assert(chosen.take(i + 1).drop_last() =~= chosen.take(i as int));
                assert(chosen.take(i + 1).last() == self@.spells[card as int]);
                if i == 0 {
                    one_attack_fits(self@.spells, card as int);
                } else {
                    let earlier = order@[0];
                    assert(chosen.take(1).drop_last() =~= Seq::<SpellView>::empty());
                    assert(chosen.take(1).last() == self@.spells[earlier as int]);
                    assert(total_attack(chosen.take(1).drop_last()) == 0);
                    if earlier < card {
                        two_attacks_fit(self@.spells, earlier as int, card as int);
                    } else {
                        two_attacks_fit(self@.spells, card as int, earlier as int);
                    }
                }
            }
            spell.absorb(&self.spells[card as usize]);
            i += 1;
        }
        proof {
            assert(chosen.take(chosen.len() as int) =~= chosen);
        }
        spell
    }

    /// Merges the chosen cards once the player has chosen as many as a
    /// merge takes: their spells are merged, in the order in which the set
    /// of chosen cards hands them out, into the active spell of the player;
    /// no card stays chosen. The answer says whether the merge took place.
    /// With another number of chosen cards, or in any other state than
    /// `Select`, nothing happens.
    pub fn start_merge(&mut self, player: &mut Player) -> (merging: bool)
        requires
            old(self).wf(),
        ensures
            final(self).wf(),
            merging == (old(self)@.state == CardsState::Select && old(self)@.selected_cards.len()
                == MERGE_SIZE),
            final(player).max_health == old(player).max_health,
            final(player).current_health == old(player).current_health,
            final(player).spells == old(player).spells,
            !merging ==> final(self)@ == old(self)@ && final(player).active_spell == old(player).active_spell,
            merging ==> final(self)@ == (CardsView {
                state: CardsState::Merge,
                selected_cards: Set::<u64>::empty(),
                ..old(self)@
            }) && exists|order: Seq<u64>|
                order.no_duplicates() && order.to_set() == old(self)@.selected_cards
                    && final(player).active_spell is Some && (#[trigger] merged_all(
                    spells_of(old(self)@.spells, order),
                )) == final(player).active_spell->0@,
    {
        if self.state != CardsState::Select || self.selected_cards.len() != MERGE_SIZE {
            return false;
        }
        let ghost before = self@;
        let order = self.selected_cards.take_all();
        proof {
            order@.unique_seq_to_set();
            assert forall|i: int| 0 <= i < order@.len() implies (#[trigger] order@[i])
                < before.spells.len() by {
                assert(order@.to_set().contains(order@[i]));
                let card = order@[i];
                let k = choose|k: int| 0 <= k < before.hand.len() && before.hand[k] == card;
            }
        }
        let spell = self.merge_in_order(&order);
        player.active_spell = Some(spell);
        self.state = CardsState::Merge;
        proof {
            assert(merged_all(spells_of(before.spells, order@)) == player.active_spell->0@);
        }
        true
    }

    /// Discards the hand after a merge: its cards go on the discard pile,
    /// in their order, and no card is under the pointer. In any other state
    /// than `Merge` nothing happens.
    pub fn discard(&mut self)
        requires
            old(self).wf(),
        ensures
            final(self).wf(),
            old(self)@.state != CardsState::Merge ==> final(self)@ == old(self)@,
            old(self)@.state == CardsState::Merge ==> final(self)@ == (CardsView {
                state: CardsState::Discard,
                discard_pile: old(self)@.discard_pile + old(self)@.hand,
                hand: Seq::empty(),
                hovered_card: None,
                selected_cards: Set::<u64>::empty(),
                ..old(self)@
            }),
            cards_of(final(self)@) == cards_of(old(self)@),
    {
        if self.state != CardsState::Merge {
            return ;
        }
        let ghost before = self@;
        self.discard_pile.append(&mut self.hand);
        self.hovered_card = None;
        self.selected_cards = IdSet::empty();
        self.state = CardsState::Discard;
        proof {
            assert(self.draw_pile@ + self.discard_pile@ + self.hand@ =~= before.draw_pile
                + before.discard_pile + before.hand);
        }
    }

    /// Ends the cards' part of the turn after the hand was discarded. In
    /// any other state nothing happens.
    pub fn finish(&mut self)
        requires
            old(self).wf(),
        ensures
            final(self).wf(),
            final(self)@ == (CardsView {
                state: if old(self)@.state == CardsState::Discard {
                    CardsState::End
                } else {
                    old(self)@.state
                },
                ..old(self)@
            }),
    {
        if self.state == CardsState::Discard {
            self.state = CardsState::End;
        }
    }
}

/// A list with the same cards as a list of handles of cards holds handles
/// of cards only.
proof fn same_cards_in_range(before: Seq<u64>, after: Seq<u64>, count: int)
    requires
        all_cards(before, count),
        after.to_multiset() == before.to_multiset(),
    ensures
        all_cards(after, count),
{
    broadcast use vstd::seq_lib::to_multiset_contains;

    assert forall|i: int| 0 <= i < after.len() implies (#[trigger] after[i]) < count by {
        assert(after.contains(after[i]));
        assert(after.to_multiset().count(after[i]) > 0);
        assert(before.to_multiset().count(after[i]) > 0);
        assert(before.contains(after[i]));
        let k = choose|k: int| 0 <= k < before.len() && before[k] == after[i];
    }
}

/// Three lists laid end to end have the cards of each.
proof fn joined_cards(a: Seq<u64>, b: Seq<u64>, c: Seq<u64>)
    ensures
        (a + b + c).to_multiset() == a.to_multiset().add(b.to_multiset()).add(c.to_multiset()),
{
    vstd::seq_lib::lemma_multiset_commutative(a + b, c);
    vstd::seq_lib::lemma_multiset_commutative(a, b);
}

/// Moving the first cards of the draw pile behind the hand keeps the cards.
proof fn moved_cards(drawn: Seq<u64>, left: Seq<u64>, discarded: Seq<u64>, hand: Seq<u64>)
    ensures
        (left + discarded + (hand + drawn)).to_multiset() == (drawn + left + discarded
            + hand).to_multiset(),
{
    joined_cards(left, discarded, hand + drawn);
    vstd::seq_lib::lemma_multiset_commutative(hand, drawn);
    joined_cards(drawn + left, discarded, hand);
    vstd::seq_lib::lemma_multiset_commutative(drawn, left);
    assert((left + discarded + (hand + drawn)).to_multiset() =~= (drawn + left + discarded
        + hand).to_multiset());
}

} // verus!
