//! Ranks, suits and cards, with the two tables that drive the game: the point
//! value of a card and its strength inside a trick.

use vstd::prelude::*;

verus! {

/// The nine ranks. The derived order is the display order only.
#[derive(PartialOrd, Ord, PartialEq, Eq, Structural, Debug, Clone, Copy)]
pub enum Number {
    Six,
    Seven,
    Eight,
    Nine,
    Ten,
    Jack,
    Queen,
    King,
    Ace,
}

/// The four suits. The derived order is the display order only.
#[derive(PartialOrd, Ord, PartialEq, Hash, Eq, Structural, Debug, Clone, Copy)]
pub enum Suit {
    Clubs,
    Diamonds,
    Hearts,
    Spades,
}

/// A card is its suit and its rank; two cards are equal when both agree.
#[derive(Eq, Ord, PartialOrd, PartialEq, Structural, Debug, Clone, Copy)]
pub struct Card {
    pub suit: Suit,
    pub number: Number,
}

/// Position of a rank in the plain ranking, Six = 1 up to Ace = 9.
pub open spec fn rank_of(n: Number) -> int {
    match n {
        Number::Six => 1,
        Number::Seven => 2,
        Number::Eight => 3,
        Number::Nine => 4,
        Number::Ten => 5,
        Number::Jack => 6,
        Number::Queen => 7,
        Number::King => 8,
        Number::Ace => 9,
    }
}

/// Position of a suit in the display order, Clubs = 0 up to Spades = 3.
pub open spec fn suit_index(s: Suit) -> int {
    match s {
        Suit::Clubs => 0,
        Suit::Diamonds => 1,
        Suit::Hearts => 2,
        Suit::Spades => 3,
    }
}

/// Position of a card in the display order: by suit first, then by rank.
/// It numbers the 36 cards from 0 to 35.
pub open spec fn display_index(c: Card) -> int {
    suit_index(c.suit) * 9 + rank_of(c.number) - 1
}

/// The trump Jack, the strongest card of a round.
pub open spec fn bour(trump: Suit) -> Card {
    Card { suit: trump, number: Number::Jack }
}

/// Points that a card is worth when the round is scored.
pub open spec fn card_value(c: Card, trump: Suit) -> int {
    match c.number {
        Number::Six => 0,
        Number::Seven => 0,
        Number::Eight => 0,
        Number::Nine => if c.suit == trump { 14 } else { 0 },
        Number::Ten => 10,
        Number::Jack => if c.suit == trump { 20 } else { 2 },
        Number::Queen => 3,
        Number::King => 4,
        Number::Ace => 11,
    }
}

/// Strength of a card inside a trick whose led suit is `led`. A card that is
/// neither trump nor of the led suit has strength 0.
pub open spec fn card_power(c: Card, trump: Suit, led: Suit) -> int {
    if c.suit == trump {
        match c.number {
            Number::Six => 10,
            Number::Seven => 11,
            Number::Eight => 12,
            Number::Nine => 19,
            Number::Ten => 14,
            Number::Jack => 20,
            Number::Queen => 16,
            Number::King => 17,
            Number::Ace => 18,
        }
    } else if c.suit == led {
        rank_of(c.number)
    } else {
        0
    }
}

/// Inside one trick two cards of the same power above 0 are the same card:
/// among the cards that can win, powers never tie.
pub proof fn lemma_power_tells_cards_apart(a: Card, b: Card, trump: Suit, led: Suit)
    requires
        card_power(a, trump, led) == card_power(b, trump, led),
        card_power(a, trump, led) > 0,
    ensures
        a == b,
{
}

/// The letter that stands for a rank.
pub open spec fn number_glyph(n: Number) -> char {
    match n {
        Number::Six => '6',
        Number::Seven => '7',
        Number::Eight => '8',
        Number::Nine => '9',
        Number::Ten => 'T',
        Number::Jack => 'J',
        Number::Queen => 'Q',
        Number::King => 'K',
        Number::Ace => 'A',
    }
}

/// The symbol that stands for a suit.
pub open spec fn suit_glyph(s: Suit) -> char {
    match s {
        Suit::Clubs => '♣',
        Suit::Diamonds => '♦',
        Suit::Hearts => '♥',
        Suit::Spades => '♠',
    }
}

/// The text of a card: its two glyphs between brackets.
pub open spec fn card_text(c: Card) -> Seq<char> {
    seq!['[', ' ', number_glyph(c.number), suit_glyph(c.suit), ' ', ']']
}

/// Builds the bracketed text around two glyphs with std's `format!`. The
/// contract says that the result is the six characters `[`, space, `n`, `s`,
/// space, `]`; Verus does not look inside the formatting machinery.
#[verifier::external_body]
fn bracketed(n: char, s: char) -> (text: String)
    ensures
        text@ == seq!['[', ' ', n, s, ' ', ']'],
{
    format!("[ {}{} ]", n, s)
}

impl Card {
    /// Points that this card is worth under the given trump.
    pub fn value(&self, trump: Suit) -> (v: u8)
        ensures
            v == card_value(*self, trump),
            v <= 20,
    {
        match self.number {
            Number::Six => 0,
            Number::Seven => 0,
            Number::Eight => 0,
            Number::Nine => {
                if self.suit == trump {
                    14
                } else {
                    0
                }
            },
            Number::Ten => 10,
            Number::Jack => {
                if self.suit == trump {
                    20
                } else {
                    2
                }
            },
            Number::Queen => 3,
            Number::King => 4,
            Number::Ace => 11,
        }
    }

    /// Strength of this card in a trick led in `bottom`.
    pub fn power(&self, trump: Suit, bottom: Suit) -> (p: u8)
        ensures
            p == card_power(*self, trump, bottom),
            self.suit != trump && self.suit != bottom ==> p == 0,
            p <= 20,
    {
        if self.suit != bottom && self.suit != trump {
            return 0;
        }
        let trump_bonus: u8 = if self.suit == trump {
            9
        } else {
            0
        };
        match self.number {
            Number::Six => 1 + trump_bonus,
            Number::Seven => 2 + trump_bonus,
            Number::Eight => 3 + trump_bonus,
            Number::Nine => {
                if self.suit == trump {
                    19
                } else {
                    4
                }
            },
            Number::Ten => 5 + trump_bonus,
            Number::Jack => {
                if self.suit == trump {
                    20
                } else {
                    6
                }
            },
            Number::Queen => 7 + trump_bonus,
            Number::King => 8 + trump_bonus,
            Number::Ace => 9 + trump_bonus,
        }
    }

    /// The text of this card, such as `[ J♠ ]`.
    pub fn display(&self) -> (text: String)
        ensures
            text@ == card_text(*self),
    {
        let s: char = match self.suit {
            Suit::Spades => '♠',
            Suit::Hearts => '♥',
            Suit::Diamonds => '♦',
            Suit::Clubs => '♣',
        };
        let n: char = match self.number {
            Number::Ace => 'A',
            Number::King => 'K',
            Number::Queen => 'Q',
            Number::Jack => 'J',
            Number::Ten => 'T',
            Number::Nine => '9',
            Number::Eight => '8',
            Number::Seven => '7',
            Number::Six => '6',
        };
        bracketed(n, s)
    }

    /// Position of this card in the display order, from 0 to 35.
    pub fn sort_key(&self) -> (k: u8)
        ensures
            k == display_index(*self),
            k < 36,
    {
        let s: u8 = match self.suit {
            Suit::Clubs => 0,
            Suit::Diamonds => 9,
            Suit::Hearts => 18,
            Suit::Spades => 27,
        };
        let n: u8 = match self.number {
            Number::Six => 0,
            Number::Seven => 1,
            Number::Eight => 2,
            Number::Nine => 3,
            Number::Ten => 4,
            Number::Jack => 5,
            Number::Queen => 6,
            Number::King => 7,
            Number::Ace => 8,
        };
        s + n
    }

    /// Whether this card is the trump Jack.
    pub fn is_bour(&self, trump: Suit) -> (b: bool)
        ensures
            b == (*self == bour(trump)),
    {
        self.suit == trump && self.number == Number::Jack
    }
}

} // verus!
