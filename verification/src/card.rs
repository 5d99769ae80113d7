//! Playing cards.

use vstd::prelude::*;

verus! {

/// Card rank, from Two up to Ace.
#[derive(Debug, Clone, Copy, PartialEq, Eq, Structural, Hash)]
pub enum Rank {
    Two,
    Three,
    Four,
    Five,
    Six,
    Seven,
    Eight,
    Nine,
    Ten,
    Jack,
    Queen,
    King,
    Ace,
}

/// Card suit.
#[derive(Debug, Clone, Copy, PartialEq, Eq, Structural, Hash)]
pub enum Suit {
    Clubs,
    Diamonds,
    Hearts,
    Spades,
}

/// A standard playing card.
#[derive(Debug, Clone, Copy, PartialEq, Eq, Structural, Hash)]
pub struct Card {
    pub rank: Rank,
    pub suit: Suit,
}

/// Numeric value of a rank: Two is 2, ..., Ace is 14.
pub open spec fn rank_val(r: Rank) -> int {
    match r {
        Rank::Two => 2,
        Rank::Three => 3,
        Rank::Four => 4,
        Rank::Five => 5,
        Rank::Six => 6,
        Rank::Seven => 7,
        Rank::Eight => 8,
        Rank::Nine => 9,
        Rank::Ten => 10,
        Rank::Jack => 11,
        Rank::Queen => 12,
        Rank::King => 13,
        Rank::Ace => 14,
    }
}

/// Index of a suit: Clubs 0, Diamonds 1, Hearts 2, Spades 3.
pub open spec fn suit_idx(s: Suit) -> int {
    match s {
        Suit::Clubs => 0,
        Suit::Diamonds => 1,
        Suit::Hearts => 2,
        Suit::Spades => 3,
    }
}

/// The rank whose value is `v` (for `2 <= v <= 14`).
pub open spec fn rank_of_val(v: int) -> Rank {
    if v <= 2 {
        Rank::Two
    } else if v == 3 {
        Rank::Three
    } else if v == 4 {
        Rank::Four
    } else if v == 5 {
        Rank::Five
    } else if v == 6 {
        Rank::Six
    } else if v == 7 {
        Rank::Seven
    } else if v == 8 {
        Rank::Eight
    } else if v == 9 {
        Rank::Nine
    } else if v == 10 {
        Rank::Ten
    } else if v == 11 {
        Rank::Jack
    } else if v == 12 {
        Rank::Queen
    } else if v == 13 {
        Rank::King
    } else {
        Rank::Ace
    }
}

/// The suit whose index is `i` (for `0 <= i < 4`).
pub open spec fn suit_of_idx(i: int) -> Suit {
    if i <= 0 {
        Suit::Clubs
    } else if i == 1 {
        Suit::Diamonds
    } else if i == 2 {
        Suit::Hearts
    } else {
        Suit::Spades
    }
}

/// Rank values lie in 2..=14 and the value determines the rank.
pub proof fn lemma_rank_val(r: Rank)
    ensures
        2 <= rank_val(r) <= 14,
        rank_of_val(rank_val(r)) == r,
{
}

/// Every value in 2..=14 is the value of exactly the rank built from it.
pub proof fn lemma_val_rank(v: int)
    requires
        2 <= v <= 14,
    ensures
        rank_val(rank_of_val(v)) == v,
{
}

impl Rank {
    /// Numeric value of the rank (Two = 2, ..., Ace = 14).
    pub fn value(&self) -> (v: u8)
        ensures
            v == rank_val(*self),
    {
        match self {
            Rank::Two => 2,
            Rank::Three => 3,
            Rank::Four => 4,
            Rank::Five => 5,
            Rank::Six => 6,
            Rank::Seven => 7,
            Rank::Eight => 8,
            Rank::Nine => 9,
            Rank::Ten => 10,
            Rank::Jack => 11,
            Rank::Queen => 12,
            Rank::King => 13,
            Rank::Ace => 14,
        }
    }

    /// The rank with the given value, if the value is in 2..=14.
    pub fn from_value(v: u8) -> (r: Option<Rank>)
        ensures
            r is Some <==> 2 <= v <= 14,
            r matches Some(rank) ==> rank_val(rank) == v,
    {
        match v {
            2 => Some(Rank::Two),
            3 => Some(Rank::Three),
            4 => Some(Rank::Four),
            5 => Some(Rank::Five),
            6 => Some(Rank::Six),
            7 => Some(Rank::Seven),
            8 => Some(Rank::Eight),
            9 => Some(Rank::Nine),
            10 => Some(Rank::Ten),
            11 => Some(Rank::Jack),
            12 => Some(Rank::Queen),
            13 => Some(Rank::King),
            14 => Some(Rank::Ace),
            _ => None,
        }
    }
}

impl Suit {
    /// Index of the suit (Clubs 0, Diamonds 1, Hearts 2, Spades 3).
    pub fn index(&self) -> (i: usize)
        ensures
            i == suit_idx(*self),
    {
        match self {
            Suit::Clubs => 0,
            Suit::Diamonds => 1,
            Suit::Hearts => 2,
            Suit::Spades => 3,
        }
    }
}

} // verus!
