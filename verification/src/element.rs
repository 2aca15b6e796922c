//! The elements that a gem can belong to.

use crate::chance::index_below;
use vstd::prelude::*;
use vstd::string::StringExecFns;

verus! {

/// The element of a gem. Gems of one element match each other.
#[derive(Debug, Clone, Copy, PartialEq, Eq, Structural)]
pub enum Element {
    Heal,
    Dark,
    Water,
    Fire,
    Grass,
    Light,
}

/// How many elements there are.
pub const ELEMENT_COUNT: usize = 6;

impl Element {
    /// The position of the element in the order in which they are declared.
    pub open spec fn ordinal(self) -> nat {
        match self {
            Element::Heal => 0,
            Element::Dark => 1,
            Element::Water => 2,
            Element::Fire => 3,
            Element::Grass => 4,
            Element::Light => 5,
        }
    }

    /// The element that stands at a position; positions past the last one
    /// give the last element.
    pub open spec fn at(position: nat) -> Element {
        if position == 0 {
            Element::Heal
        } else if position == 1 {
            Element::Dark
        } else if position == 2 {
            Element::Water
        } else if position == 3 {
            Element::Fire
        } else if position == 4 {
            Element::Grass
        } else {
            Element::Light
        }
    }

    /// Every element has a position below the count, and is the element at
    /// its own position.
    pub proof fn ordinal_round_trip(self)
        ensures
            self.ordinal() < ELEMENT_COUNT,
            Self::at(self.ordinal()) == self,
    {
    }

    /// The position of the element.
    pub fn index(&self) -> (position: usize)
        ensures
            position == self.ordinal(),
            position < ELEMENT_COUNT,
    {
        match self {
            Element::Heal => 0,
            Element::Dark => 1,
            Element::Water => 2,
            Element::Fire => 3,
            Element::Grass => 4,
            Element::Light => 5,
        }
    }

    /// The element at a position below the count.
    pub fn from_index(position: usize) -> (element: Element)
        requires
            position < ELEMENT_COUNT,
        ensures
            element == Self::at(position as nat),
            element.ordinal() == position,
    {
        if position == 0 {
            Element::Heal
        } else if position == 1 {
            Element::Dark
        } else if position == 2 {
            Element::Water
        } else if position == 3 {
            Element::Fire
        } else if position == 4 {
            Element::Grass
        } else {
            Element::Light
        }
    }

    /// The name of the element.
    pub open spec fn name_of(self) -> Seq<char> {
        match self {
            Element::Heal => "Heal"@,
            Element::Dark => "Dark"@,
            Element::Water => "Water"@,
            Element::Fire => "Fire"@,
            Element::Grass => "Grass"@,
            Element::Light => "Light"@,
        }
    }

    /// The name of the element.
    pub fn name(&self) -> (name: &'static str)
        ensures
            name@ == self.name_of(),
    {
        match self {
            Element::Heal => "Heal",
            Element::Dark => "Dark",
            Element::Water => "Water",
            Element::Fire => "Fire",
            Element::Grass => "Grass",
            Element::Light => "Light",
        }
    }

    /// Where the icon of the element is kept: `icons/`, the element's name,
    /// and `.png`.
    pub fn icon_path(&self) -> (path: String)
        ensures
            path@ == "icons/"@ + self.name_of() + ".png"@,
    {
        let folder = "icons/".to_owned();
        folder.concat(self.name()).concat(".png")
    }

    /// The icons of all elements, in the order of the elements.
    pub fn icon_paths() -> (paths: Vec<String>)
        ensures
            paths@.len() == ELEMENT_COUNT,
            forall|i: int|
                0 <= i < ELEMENT_COUNT ==> (#[trigger] paths@[i])@ == "icons/"@ + Element::at(
                    i as nat,
                ).name_of() + ".png"@,
    {
        let mut paths: Vec<String> = Vec::new();
        let mut position: usize = 0;
        while position < ELEMENT_COUNT
            invariant
                position <= ELEMENT_COUNT,
                paths@.len() == position,
                forall|i: int|
                    0 <= i < position ==> (#[trigger] paths@[i])@ == "icons/"@ + Element::at(
                        i as nat,
                    ).name_of() + ".png"@,
            decreases ELEMENT_COUNT - position,
        {
            paths.push(Element::from_index(position).icon_path());
            position += 1;
        }
        paths
    }

    /// An element picked by chance, each with the same weight.
    pub fn random() -> (element: Element)
        ensures
            element.ordinal() < ELEMENT_COUNT,
    {
        let position: usize = index_below(ELEMENT_COUNT);
        Element::from_index(position)
    }
}

/// Whether an element is among the elements of a list.
pub fn contains_element(elements: &Vec<Element>, element: Element) -> (found: bool)
    ensures
        found == elements@.contains(element),
{
    let mut i: usize = 0;
    while i < elements.len()
        invariant
            i <= elements@.len(),
            forall|j: int| 0 <= j < i ==> elements@[j] != element,
        decreases elements@.len() - i,
    {
        if elements[i] == element {
            return true;
        }
        i += 1;
    }
    false
}

} // verus!
