use vstd::prelude::*;

verus! {

/// One of the four french suits of a standard 52-card deck.
#[derive(PartialEq, Eq, Structural, Debug, Clone, Copy, Hash)]
pub enum Suit {
    Club,
    Diamond,
    Heart,
    Spade,
}

/// A card value, from Two (lowest) up to Ace (highest).
#[derive(PartialEq, Eq, Structural, Debug, Clone, Copy, Hash)]
pub enum Value {
    Two,
    Three,
    Four,
    Five,
    Six,
    Seven,
    Eight,
    Nine,
    Ten,
    Jack,
    Queen,
    King,
    Ace,
}

impl Suit {
    /// Position of the suit in the fixed Club < Diamond < Heart < Spade listing.
    pub open spec fn index_spec(self) -> int {
        match self {
            Suit::Club => 0,
            Suit::Diamond => 1,
            Suit::Heart => 2,
            Suit::Spade => 3,
        }
    }

    pub fn index(self) -> (r: usize)
        ensures
            r == self.index_spec(),
    {
        match self {
            Suit::Club => 0,
            Suit::Diamond => 1,
            Suit::Heart => 2,
            Suit::Spade => 3,
        }
    }

    /// The suit sitting at a given position of the fixed listing.
    pub open spec fn from_index_spec(i: int) -> Suit {
        if i == 0 {
            Suit::Club
        } else if i == 1 {
            Suit::Diamond
        } else if i == 2 {
            Suit::Heart
        } else {
            Suit::Spade
        }
    }

    pub fn from_index(i: usize) -> (r: Suit)
        requires
            i < 4,
        ensures
            r == Suit::from_index_spec(i as int),
            r.index_spec() == i,
    {
        if i == 0 {
            Suit::Club
        } else if i == 1 {
            Suit::Diamond
        } else if i == 2 {
            Suit::Heart
        } else {
            Suit::Spade
        }
    }
}

impl Value {
    /// Position of the value in the Two..Ace order; higher means stronger.
    pub open spec fn index_spec(self) -> int {
        match self {
            Value::Two => 0,
            Value::Three => 1,
            Value::Four => 2,
            Value::Five => 3,
            Value::Six => 4,
            Value::Seven => 5,
            Value::Eight => 6,
            Value::Nine => 7,
            Value::Ten => 8,
            Value::Jack => 9,
            Value::Queen => 10,
            Value::King => 11,
            Value::Ace => 12,
        }
    }

    pub fn index(self) -> (r: usize)
        ensures
            r == self.index_spec(),
    {
        match self {
            Value::Two => 0,
            Value::Three => 1,
            Value::Four => 2,
            Value::Five => 3,
            Value::Six => 4,
            Value::Seven => 5,
            Value::Eight => 6,
            Value::Nine => 7,
            Value::Ten => 8,
            Value::Jack => 9,
            Value::Queen => 10,
            Value::King => 11,
            Value::Ace => 12,
        }
    }

    /// The value sitting at a given position of the Two..Ace order.
    pub open spec fn from_index_spec(i: int) -> Value {
        if i == 0 {
            Value::Two
        } else if i == 1 {
            Value::Three
        } else if i == 2 {
            Value::Four
        } else if i == 3 {
            Value::Five
        } else if i == 4 {
            Value::Six
        } else if i == 5 {
            Value::Seven
        } else if i == 6 {
            Value::Eight
        } else if i == 7 {
            Value::Nine
        } else if i == 8 {
            Value::Ten
        } else if i == 9 {
            Value::Jack
        } else if i == 10 {
            Value::Queen
        } else if i == 11 {
            Value::King
        } else {
            Value::Ace
        }
    }

    pub fn from_index(i: usize) -> (r: Value)
        requires
            i < 13,
        ensures
            r == Value::from_index_spec(i as int),
            r.index_spec() == i,
    {
        if i == 0 {
            Value::Two
        } else if i == 1 {
            Value::Three
        } else if i == 2 {
            Value::Four
        } else if i == 3 {
            Value::Five
        } else if i == 4 {
            Value::Six
        } else if i == 5 {
            Value::Seven
        } else if i == 6 {
            Value::Eight
        } else if i == 7 {
            Value::Nine
        } else if i == 8 {
            Value::Ten
        } else if i == 9 {
            Value::Jack
        } else if i == 10 {
            Value::Queen
        } else if i == 11 {
            Value::King
        } else {
            Value::Ace
        }
    }
}

/// Round-tripping a value index through `from_index_spec` is the identity.
pub proof fn lemma_value_index_roundtrip(v: Value)
    ensures
        Value::from_index_spec(v.index_spec()) == v,
        0 <= v.index_spec() < 13,
{
}

/// Round-tripping a suit index through `from_index_spec` is the identity.
pub proof fn lemma_suit_index_roundtrip(s: Suit)
    ensures
        Suit::from_index_spec(s.index_spec()) == s,
        0 <= s.index_spec() < 4,
{
}

/// An in-range value index round-trips through `from_index_spec`.
pub proof fn lemma_value_from_index_roundtrip(i: int)
    requires
        0 <= i < 13,
    ensures
        Value::from_index_spec(i).index_spec() == i,
{
}

/// An in-range suit index round-trips through `from_index_spec`.
pub proof fn lemma_suit_from_index_roundtrip(i: int)
    requires
        0 <= i < 4,
    ensures
        Suit::from_index_spec(i).index_spec() == i,
{
}

/// A playing card: a suit and a value.
#[derive(PartialEq, Eq, Structural, Debug, Clone, Copy, Hash)]
pub struct Card {
    pub suit: Suit,
    pub value: Value,
}

impl Card {
    pub fn new(suit: Suit, value: Value) -> (r: Self)
        ensures
            r.suit == suit,
            r.value == value,
    {
        Card { suit, value }
    }
}

} // verus!
