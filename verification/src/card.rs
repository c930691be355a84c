//! Playing cards: suit, rank and card as plain immutable values.

use vstd::prelude::*;

verus! {

/// The four suits. A suit never ranks a card; it only decides flushes.
#[derive(Debug, Clone, Copy, PartialEq, Eq, Structural, Hash)]
pub enum Suit {
    Clubs,
    Diamonds,
    Hearts,
    Spades,
}

/// The thirteen ranks, lowest first. Ace is high.
#[derive(Debug, Clone, Copy, PartialEq, Eq, Structural, PartialOrd, Ord, Hash)]
pub enum Rank {
    Two,
    Three,
    Four,
    Five,
    Six,
    Seven,
    Eight,
    Nine,
    Ten,
    Jack,
    Queen,
    King,
    Ace,
}

/// One card of the deck. Cards are ranked by their rank alone.
#[derive(Debug, Clone, Copy, PartialEq, Eq, Structural, Hash)]
pub struct Card {
    pub rank: Rank,
    pub suit: Suit,
}

impl Rank {
    /// The number a rank counts for: 2 for the deuce up to 14 for the ace.
    pub open spec fn spec_value(self) -> int {
        match self {
            Rank::Two => 2,
            Rank::Three => 3,
            Rank::Four => 4,
            Rank::Five => 5,
            Rank::Six => 6,
            Rank::Seven => 7,
            Rank::Eight => 8,
            Rank::Nine => 9,
            Rank::Ten => 10,
            Rank::Jack => 11,
            Rank::Queen => 12,
            Rank::King => 13,
            Rank::Ace => 14,
        }
    }

    /// The rank that counts for `v`; the deuce for a number outside `2..=14`.
    pub open spec fn spec_from_value(v: int) -> Rank {
        if v == 14 {
            Rank::Ace
        } else if v == 13 {
            Rank::King
        } else if v == 12 {
            Rank::Queen
        } else if v == 11 {
            Rank::Jack
        } else if v == 10 {
            Rank::Ten
        } else if v == 9 {
            Rank::Nine
        } else if v == 8 {
            Rank::Eight
        } else if v == 7 {
            Rank::Seven
        } else if v == 6 {
            Rank::Six
        } else if v == 5 {
            Rank::Five
        } else if v == 4 {
            Rank::Four
        } else if v == 3 {
            Rank::Three
        } else {
            Rank::Two
        }
    }

    /// The number a rank counts for, from 2 to 14.
    pub fn value(self) -> (v: u8)
        ensures
            v == self.spec_value(),
            2 <= v <= 14,
    {
        match self {
            Rank::Two => 2,
            Rank::Three => 3,
            Rank::Four => 4,
            Rank::Five => 5,
            Rank::Six => 6,
            Rank::Seven => 7,
            Rank::Eight => 8,
            Rank::Nine => 9,
            Rank::Ten => 10,
            Rank::Jack => 11,
            Rank::Queen => 12,
            Rank::King => 13,
            Rank::Ace => 14,
        }
    }

    /// The rank that counts for `v`, where there is one.
    pub fn from_value(v: u8) -> (r: Option<Rank>)
        ensures
            r is Some <==> 2 <= v <= 14,
            r is Some ==> r->Some_0 == Rank::spec_from_value(v as int) && r->Some_0.spec_value() == v,
    {
        match v {
            2 => Some(Rank::Two),
            3 => Some(Rank::Three),
            4 => Some(Rank::Four),
            5 => Some(Rank::Five),
            6 => Some(Rank::Six),
            7 => Some(Rank::Seven),
            8 => Some(Rank::Eight),
            9 => Some(Rank::Nine),
            10 => Some(Rank::Ten),
            11 => Some(Rank::Jack),
            12 => Some(Rank::Queen),
            13 => Some(Rank::King),
            14 => Some(Rank::Ace),
            _ => None,
        }
    }

    /// Counting a rank and going back gives the rank again, and every rank
    /// counts for a number from 2 to 14.
    pub proof fn lemma_value_round_trip(self)
        ensures
            2 <= self.spec_value() <= 14,
            Rank::spec_from_value(self.spec_value()) == self,
    {
    }
}

impl Suit {
    /// A number for each suit, from 0 for clubs to 3 for spades.
    pub open spec fn spec_index(self) -> int {
        match self {
            Suit::Clubs => 0,
            Suit::Diamonds => 1,
            Suit::Hearts => 2,
            Suit::Spades => 3,
        }
    }

    /// The suit with the number `i`; clubs for a number outside `0..=3`.
    pub open spec fn spec_from_index(i: int) -> Suit {
        if i == 3 {
            Suit::Spades
        } else if i == 2 {
            Suit::Hearts
        } else if i == 1 {
            Suit::Diamonds
        } else {
            Suit::Clubs
        }
    }
}

} // verus!
