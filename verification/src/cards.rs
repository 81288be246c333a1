//! Card categories and their frame colours.

use vstd::prelude::*;

verus! {

/// Card visual category: determines border colour, ribbon colour and overall tone.
#[derive(Clone, Copy, Debug, PartialEq, Eq)]
pub enum CardType {
    Person,
    Event,
    Item,
    Discovery,
    Lore,
    Trade,
}

impl CardType {
    /// Border colour of the card frame, as (r, g, b).
    pub fn border_color(&self) -> (c: (u8, u8, u8))
        ensures
            c == (match *self {
                CardType::Person => (170u8, 140u8, 80u8),
                CardType::Event => (150u8, 55u8, 45u8),
                CardType::Item => (90u8, 120u8, 150u8),
                CardType::Discovery => (180u8, 160u8, 70u8),
                CardType::Lore => (120u8, 90u8, 55u8),
                CardType::Trade => (70u8, 130u8, 60u8),
            }),
    {
        match self {
            CardType::Person => (170, 140, 80),
            CardType::Event => (150, 55, 45),
            CardType::Item => (90, 120, 150),
            CardType::Discovery => (180, 160, 70),
            CardType::Lore => (120, 90, 55),
            CardType::Trade => (70, 130, 60),
        }
    }

    /// Ribbon (top strip) colour, as (r, g, b).
    pub fn ribbon_color(&self) -> (c: (u8, u8, u8))
        ensures
            c == (match *self {
                CardType::Person => (195u8, 165u8, 65u8),
                CardType::Event => (185u8, 45u8, 35u8),
                CardType::Item => (70u8, 115u8, 165u8),
                CardType::Discovery => (215u8, 185u8, 55u8),
                CardType::Lore => (155u8, 115u8, 65u8),
                CardType::Trade => (55u8, 155u8, 45u8),
            }),
    {
        match self {
            CardType::Person => (195, 165, 65),
            CardType::Event => (185, 45, 35),
            CardType::Item => (70, 115, 165),
            CardType::Discovery => (215, 185, 55),
            CardType::Lore => (155, 115, 65),
            CardType::Trade => (55, 155, 45),
        }
    }
}

} // verus!
