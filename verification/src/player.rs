//! The player and the spells that the player casts.

use crate::element::contains_element;
use crate::element::Element;
use vstd::prelude::*;
use vstd::string::StringExecFns;

verus! {

/// A spell: its name, the elements whose matches it turns into damage, and
/// how much damage each matched tile does.
pub struct Spell {
    pub name: String,
    pub elements: Vec<Element>,
    pub attack: u32,
}

/// What a spell is made of.
pub struct SpellView {
    pub name: Seq<char>,
    pub elements: Seq<Element>,
    pub attack: u32,
}

impl View for Spell {
    type V = SpellView;

    open spec fn view(&self) -> SpellView {
        SpellView { name: self.name@, elements: self.elements@, attack: self.attack }
    }
}

/// A spell of one element.
pub open spec fn basic_spell(name: Seq<char>, element: Element, attack: u32) -> SpellView {
    SpellView { name, elements: seq![element], attack }
}

/// The spell that two spells make together: the attacks add up, the names
/// follow each other, each with a blank before it, and so do the elements.
pub open spec fn merged(first: SpellView, second: SpellView) -> SpellView {
    SpellView {
        name: first.name + " "@ + second.name,
        elements: first.elements + second.elements,
        attack: (first.attack + second.attack) as u32,
    }
}

/// The spell that the spells of a list make together, starting from the
/// empty spell.
pub open spec fn merged_all(spells: Seq<SpellView>) -> SpellView
    decreases spells.len(),
{
    if spells.len() == 0 {
        SpellView { name: Seq::empty(), elements: Seq::empty(), attack: 0 }
    } else {
        merged(merged_all(spells.drop_last()), spells.last())
    }
}

/// The attacks of the spells of a list, added up.
pub open spec fn total_attack(spells: Seq<SpellView>) -> int
    decreases spells.len(),
{
    if spells.len() == 0 {
        0
    } else {
        total_attack(spells.drop_last()) + spells.last().attack
    }
}

/// The word that is put before a name for each element.
pub open spec fn modifier_of(element: Element) -> Seq<char> {
    match element {
        Element::Heal => "Healing"@,
        Element::Dark => "Cursed"@,
        Element::Water => "Frost"@,
        Element::Fire => "Blaze"@,
        Element::Grass => "Overgrown"@,
        Element::Light => "Blinding"@,
    }
}

impl Spell {
    /// A spell of one element.
    fn basic(name: &str, element: Element, attack: u32) -> (spell: Spell)
        ensures
            spell@ == basic_spell(name@, element, attack),
    {
        let mut elements: Vec<Element> = Vec::new();
        elements.push(element);
        Spell { name: name.to_owned(), elements, attack }
    }

    /// The spell `Fire`.
    pub fn fire() -> (spell: Spell)
        ensures
            spell@ == basic_spell("Fire"@, Element::Fire, 2),
    {
        Spell::basic("Fire", Element::Fire, 2)
    }

    /// The spell `Wave`.
    pub fn wave() -> (spell: Spell)
        ensures
            spell@ == basic_spell("Wave"@, Element::Water, 2),
    {
        Spell::basic("Wave", Element::Water, 2)
    }

    /// The spell `Thorns`.
    pub fn thorns() -> (spell: Spell)
        ensures
            spell@ == basic_spell("Thorns"@, Element::Grass, 2),
    {
        Spell::basic("Thorns", Element::Grass, 2)
    }

    /// The spell `Ray`.
    pub fn ray() -> (spell: Spell)
        ensures
            spell@ == basic_spell("Ray"@, Element::Light, 3),
    {
        Spell::basic("Ray", Element::Light, 3)
    }

    /// The spell `Curse`.
    pub fn curse() -> (spell: Spell)
        ensures
            spell@ == basic_spell("Curse"@, Element::Dark, 3),
    {
        Spell::basic("Curse", Element::Dark, 3)
    }

    /// The spell without a name, without elements and without attack.
    pub fn empty() -> (spell: Spell)
        ensures
            spell@ == merged_all(Seq::empty()),
    {
        Spell { name: String::new(), elements: Vec::new(), attack: 0 }
    }

    /// A second spell like this one.
    pub fn duplicate(&self) -> (copy: Spell)
        ensures
            copy@ == self@,
    {
        let mut elements: Vec<Element> = Vec::new();
        let mut i: usize = 0;
        while i < self.elements.len()
            invariant
                i <= self.elements@.len(),
                elements@ == self.elements@.take(i as int),
            decreases self.elements@.len() - i,
        {
            elements.push(self.elements[i]);
            proof {
                assert(elements@ =~= self.elements@.take(i + 1));
            }
            i += 1;
        }
        proof {
            assert(self.elements@.take(self.elements@.len() as int) =~= self.elements@);
        }
        Spell { name: self.name.as_str().to_owned(), elements, attack: self.attack }
    }

    /// The word that the first element of the spell puts before a name. The
    /// spell must have an element.
    pub fn name_modifier(&self) -> (word: &'static str)
        requires
            self.elements@.len() > 0,
        ensures
            word@ == modifier_of(self.elements@[0]),
    {
        match self.elements[0] {
            Element::Heal => "Healing",
            Element::Dark => "Cursed",
            Element::Water => "Frost",
            Element::Fire => "Blaze",
            Element::Grass => "Overgrown",
            Element::Light => "Blinding",
        }
    }

    /// Whether the spell works with an element.
    pub fn uses(&self, element: Element) -> (found: bool)
        ensures
            found == self.elements@.contains(element),
    {
        contains_element(&self.elements, element)
    }

    /// Takes another spell into this one: the attacks add up, and the
    /// other's name, with a blank before it, and elements follow this
    /// spell's own. The sum of the attacks must fit.
    pub fn absorb(&mut self, other: &Spell)
        requires
            old(self).attack + other.attack <= u32::MAX,
        ensures
            final(self)@ == merged(old(self)@, other@),
    {
        self.attack = self.attack + other.attack;
        self.name.append(" ");
        self.name.append(other.name.as_str());
        let ghost before = self.elements@;
        let mut i: usize = 0;
        while i < other.elements.len()
            invariant
                i <= other.elements@.len(),
                self.elements@ == before + other.elements@.take(i as int),
                self.name@ == old(self).name@ + " "@ + other.name@,
                self.attack == old(self).attack + other.attack,
            decreases other.elements@.len() - i,
        {
            self.elements.push(other.elements[i]);
            proof {
                assert(self.elements@ =~= before + other.elements@.take(i + 1));
            }
            i += 1;
        }
        proof {
            assert(other.elements@.take(other.elements@.len() as int) =~= other.elements@);
        }
    }

    /// Whether the attacks of the spells together fit into an attack.
    pub fn attacks_fit(spells: &Vec<Spell>) -> (fit: bool)
        ensures
            fit == (total_attack(spell_views(spells@)) <= u32::MAX),
    {
        let mut total: u32 = 0;
        let mut i: usize = 0;
        proof {
            assert(spell_views(spells@).take(0) =~= Seq::empty());
        }
        while i < spells.len()
            invariant
                i <= spells@.len(),
                total == total_attack(spell_views(spells@).take(i as int)),
            decreases spells@.len() - i,
        {
            proof {
                let views = spell_views(spells@);
                assert(views.take(i + 1).drop_last() =~= views.take(i as int));
                assert(views.take(i + 1).last() == spells@[i as int]@);
                total_attack_grows(views, i + 1);
            }
            if spells[i].attack > u32::MAX - total {
                return false;
            }
            total = total + spells[i].attack;
            i += 1;
        }
        proof {
            let views = spell_views(spells@);
            assert(views.take(views.len() as int) =~= views);
        }
        true
    }

    /// The spell that the given spells make together, taken in their order.
    /// The sum of their attacks must fit.
    pub fn merge(spells: &Vec<Spell>) -> (spell: Spell)
        requires
            total_attack(spell_views(spells@)) <= u32::MAX,
        ensures
            spell@ == merged_all(spell_views(spells@)),
    {
        let mut spell = Spell::empty();
        let mut i: usize = 0;
        while i < spells.len()
            invariant
                i <= spells@.len(),
                total_attack(spell_views(spells@)) <= u32::MAX,
                spell@ == merged_all(spell_views(spells@).take(i as int)),
                spell.attack == total_attack(spell_views(spells@).take(i as int)),
            decreases spells@.len() - i,
        {
            proof {
                let views = spell_views(spells@);
                assert(views.take(i + 1).drop_last() =~= views.take(i as int));
                assert(views.take(i + 1).last() == spells@[i as int]@);
                total_attack_grows(views, i + 1);
            }
            spell.absorb(&spells[i]);
            i += 1;
        }
        proof {
            let views = spell_views(spells@);
            assert(views.take(views.len() as int) =~= views);
        }
        spell
    }
}

/// What the spells of a list are made of.
pub open spec fn spell_views(spells: Seq<Spell>) -> Seq<SpellView> {
    Seq::new(spells.len(), |i: int| spells[i]@)
}

/// The attacks of the first spells of a list add up to no more than those
/// of all of them.
pub proof fn total_attack_grows(spells: Seq<SpellView>, count: int)
    requires
        0 <= count <= spells.len(),
    ensures
        0 <= total_attack(spells.take(count)) <= total_attack(spells),
    decreases spells.len() - count,
{
    if count < spells.len() {
        total_attack_grows(spells, count + 1);
        assert(spells.take(count + 1).drop_last() =~= spells.take(count));
        total_attack_positive(spells.take(count));
    } else {
        assert(spells.take(count) =~= spells);
        total_attack_positive(spells);
    }
}

/// Attacks add up to nothing negative.
pub proof fn total_attack_positive(spells: Seq<SpellView>)
    ensures
        0 <= total_attack(spells),
    decreases spells.len(),
{
    if spells.len() > 0 {
        total_attack_positive(spells.drop_last());
    }
}

/// The player: health, the spells that the player owns, and the spell that
/// is active in the current turn.
pub struct Player {
    pub max_health: u32,
    pub current_health: u32,
    pub spells: Vec<Spell>,
    pub active_spell: Option<Spell>,
}

/// The health that a new player has.
pub const STARTING_HEALTH: u32 = 100;

impl Default for Player {
    /// A player in full health who owns two `Fire`, two `Wave`, two
    /// `Thorns`, one `Ray` and one `Curse`, with no spell active.
    fn default() -> (player: Player)
        ensures
            player.max_health == STARTING_HEALTH,
            player.current_health == STARTING_HEALTH,
            player.active_spell is None,
            spell_views(player.spells@) == seq![
                basic_spell("Fire"@, Element::Fire, 2),
                basic_spell("Fire"@, Element::Fire, 2),
                basic_spell("Wave"@, Element::Water, 2),
                basic_spell("Wave"@, Element::Water, 2),
                basic_spell("Thorns"@, Element::Grass, 2),
                basic_spell("Thorns"@, Element::Grass, 2),
                basic_spell("Ray"@, Element::Light, 3),
                basic_spell("Curse"@, Element::Dark, 3),
            ],
    {
        let mut spells: Vec<Spell> = Vec::new();
        spells.push(Spell::fire());
        spells.push(Spell::fire());
        spells.push(Spell::wave());
        spells.push(Spell::wave());
        spells.push(Spell::thorns());
        spells.push(Spell::thorns());
        spells.push(Spell::ray());
        spells.push(Spell::curse());
        let player = Player {
            max_health: STARTING_HEALTH,
            current_health: STARTING_HEALTH,
            spells,
            active_spell: None,
        };
        proof {
            assert(spell_views(player.spells@) =~= seq![
                basic_spell("Fire"@, Element::Fire, 2),
                basic_spell("Fire"@, Element::Fire, 2),
                basic_spell("Wave"@, Element::Water, 2),
                basic_spell("Wave"@, Element::Water, 2),
                basic_spell("Thorns"@, Element::Grass, 2),
                basic_spell("Thorns"@, Element::Grass, 2),
                basic_spell("Ray"@, Element::Light, 3),
                basic_spell("Curse"@, Element::Dark, 3),
            ]);
        }
        player
    }
}

impl Player {
    /// Whether the player has no health left.
    pub fn is_dead(&self) -> (dead: bool)
        ensures
            dead == (self.current_health == 0),
    {
        self.current_health == 0
    }
}

} // verus!
