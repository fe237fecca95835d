//! A seat at the table: its hand, the plays that the rules currently allow,
//! and the operations by which a card leaves the hand.

use crate::card::{bour, Card, Suit};
use crate::rules::{contains_card, legal_plays, playable_from};
use vstd::prelude::*;

verus! {

/// Why a seat's request was turned down. None of these changes the hand: the
/// same seat is asked again.
#[derive(PartialEq, Eq, Structural, Debug, Clone, Copy)]
pub enum PlayError {
    /// The card named is not in the hand.
    CardNotInHand,
    /// The position named is not a position of the hand.
    IndexOutOfBounds,
    /// The card is in the hand but the rules do not allow it now.
    IllegalPlay,
}

impl PlayError {
    /// The sentence shown to the seat.
    pub fn message(&self) -> (text: &'static str)
        ensures
            text@ == (match *self {
                PlayError::CardNotInHand => "Card not found"@,
                PlayError::IndexOutOfBounds => "Error: attempting to discard out of bounds"@,
                PlayError::IllegalPlay => "This card is not playable"@,
            }),
    {
        match self {
            PlayError::CardNotInHand => "Card not found",
            PlayError::IndexOutOfBounds => "Error: attempting to discard out of bounds",
            PlayError::IllegalPlay => "This card is not playable",
        }
    }
}

/// How a card of the hand is shown to its owner.
#[derive(PartialEq, Eq, Structural, Debug, Clone, Copy)]
pub enum Highlight {
    /// The trump Jack, playable or not.
    Bour,
    /// A trump that may be played.
    PlayableTrump,
    /// Another card that may be played.
    Playable,
    /// A card that may not be played now.
    Blocked,
}

/// The highlight of card `c` for a seat whose playable cards are `playable`.
pub open spec fn highlight_of(c: Card, trump: Suit, playable: Seq<Card>) -> Highlight {
    if c == bour(trump) {
        Highlight::Bour
    } else if playable.contains(c) {
        if c.suit == trump {
            Highlight::PlayableTrump
        } else {
            Highlight::Playable
        }
    } else {
        Highlight::Blocked
    }
}

/// The first position of `hand` that holds `c`; the length of `hand` when no
/// position does.
pub open spec fn first_position(hand: Seq<Card>, c: Card) -> int
    decreases hand.len(),
{
    if hand.len() == 0 {
        0
    } else if hand[0] == c {
        0
    } else {
        1 + first_position(hand.drop_first(), c)
    }
}

/// `first_position` is the position `i` when `hand[i]` is `c` and no earlier
/// card is.
pub proof fn lemma_first_position(hand: Seq<Card>, c: Card, i: int)
    requires
        0 <= i < hand.len(),
        hand[i] == c,
        forall|j: int| 0 <= j < i ==> hand[j] != c,
    ensures
        first_position(hand, c) == i,
    decreases i,
{
    if i > 0 {
        let rest = hand.drop_first();
        assert(hand[0] != c);
        assert forall|j: int| 0 <= j < i - 1 implies rest[j] != c by {
            assert(rest[j] == hand[j + 1]);
        }
        lemma_first_position(rest, c, i - 1);
    }
}

/// What a seat's choice leads to. Positions are counted from 1, as the seat
/// reads them; the card must be one of the legal plays.
pub open spec fn turn_outcome(
    hand: Seq<Card>,
    played: Seq<Card>,
    trump: Suit,
    bottom: Option<Suit>,
    choice: int,
) -> Result<Card, PlayError> {
    if choice < 1 || choice > hand.len() {
        Err(PlayError::IndexOutOfBounds)
    } else if !legal_plays(hand, played, trump, bottom).contains(hand[choice - 1]) {
        Err(PlayError::IllegalPlay)
    } else {
        Ok(hand[choice - 1])
    }
}

/// The led suit once `card` has been played: the suit that was already led,
/// or the suit of `card` when it opens the trick.
pub open spec fn led_after(bottom: Option<Suit>, card: Card) -> Suit {
    match bottom {
        Some(b) => b,
        None => card.suit,
    }
}

/// One seat: the cards it holds, the cards it may play now, and its name.
#[derive(Clone)]
pub struct Player {
    pub hand: Vec<Card>,
    pub playable_cards: Vec<Card>,
    pub name: String,
}

impl Player {
    /// A seat that holds no card yet.
    pub fn new_with_empty_hand(name: String) -> (player: Player)
        ensures
            player.hand@ == Seq::<Card>::empty(),
            player.playable_cards@ == Seq::<Card>::empty(),
            player.name == name,
    {
        Player { hand: Vec::new(), playable_cards: Vec::new(), name }
    }

    /// A seat that holds `hand`. Its playable cards are computed when its turn
    /// comes.
    pub fn new(hand: Vec<Card>, name: String) -> (player: Player)
        ensures
            player.hand == hand,
            player.playable_cards@ == Seq::<Card>::empty(),
            player.name == name,
    {
        Player { hand, name, playable_cards: Vec::new() }
    }

    /// Takes `card` out of the hand, by value: the first card equal to it
    /// leaves. A card that the hand does not hold is refused and nothing
    /// changes.
    pub fn discard(&mut self, card: &Card) -> (r: Result<Card, PlayError>)
        ensures
            old(self).hand@.contains(*card) ==> {
                &&& r == Ok::<Card, PlayError>(*card)
                &&& final(self).hand@ == old(self).hand@.remove(
                    first_position(old(self).hand@, *card),
                )
            },
            !old(self).hand@.contains(*card) ==> {
                &&& r == Err::<Card, PlayError>(PlayError::CardNotInHand)
                &&& final(self).hand@ == old(self).hand@
            },
            final(self).playable_cards == old(self).playable_cards,
            final(self).name == old(self).name,
    {
        match self.position_of(card) {
            Some(i) => Ok(self.hand.remove(i)),
            None => Err(PlayError::CardNotInHand),
        }
    }

    /// The first position of the hand, counted from 0, that holds `card`.
    pub fn position_of(&self, card: &Card) -> (found: Option<usize>)
        ensures
            found is Some <==> self.hand@.contains(*card),
            found is Some ==> found->Some_0 == first_position(self.hand@, *card),
            found is Some ==> found->Some_0 < self.hand@.len() && self.hand@[found->Some_0 as int]
                == *card,
    {
        let mut i: usize = 0;
        while i < self.hand.len()
            invariant
                i <= self.hand.len(),
                forall|j: int| 0 <= j < i ==> self.hand@[j] != *card,
            decreases self.hand.len() - i,
        {
            if self.hand[i] == *card {
                proof {
                    lemma_first_position(self.hand@, *card, i as int);
                }
                return Some(i);
            }
            i += 1;
        }
        None
    }

    /// Takes the card at position `i` (counted from 0) out of the hand. A
    /// position past the end is refused and nothing changes.
    pub fn discard_index(&mut self, i: usize) -> (r: Result<Card, PlayError>)
        ensures
            i < old(self).hand@.len() ==> {
                &&& r == Ok::<Card, PlayError>(old(self).hand@[i as int])
                &&& final(self).hand@ == old(self).hand@.remove(i as int)
            },
            i >= old(self).hand@.len() ==> {
                &&& r == Err::<Card, PlayError>(PlayError::IndexOutOfBounds)
                &&& final(self).hand@ == old(self).hand@
            },
            final(self).playable_cards == old(self).playable_cards,
            final(self).name == old(self).name,
    {
        if i >= self.hand.len() {
            Err(PlayError::IndexOutOfBounds)
        } else {
            Ok(self.hand.remove(i))
        }
    }

    /// Recomputes the playable cards from the hand, the cards already on the
    /// table, the trump suit and the led suit (`None` for the seat that
    /// leads).
    pub fn update_playable_cards(&mut self, played_cards: &Vec<Card>, trump: Suit, bottom: Option<Suit>)
        ensures
            final(self).playable_cards@ == legal_plays(
                old(self).hand@,
                played_cards@,
                trump,
                bottom,
            ),
            final(self).hand == old(self).hand,
            final(self).name == old(self).name,
    {
        self.playable_cards = playable_from(&self.hand, played_cards, trump, bottom);
    }

    /// One answer of the seat to "which card?". `choice` is a position of the
    /// hand counted from 1. A legal choice leaves the hand and is returned,
    /// and it fixes the led suit if the trick had none; any other answer is
    /// refused, and neither the hand nor the led suit changes.
    pub fn play_turn(
        &mut self,
        choice: usize,
        played_cards: &Vec<Card>,
        trump: Suit,
        bottom: &mut Option<Suit>,
    ) -> (r: Result<Card, PlayError>)
        ensures
            r == turn_outcome(old(self).hand@, played_cards@, trump, *old(bottom), choice as int),
            r is Ok ==> {
                &&& final(self).hand@ == old(self).hand@.remove(choice - 1)
                &&& *final(bottom) == Some(led_after(*old(bottom), r->Ok_0))
            },
            r is Err ==> {
                &&& final(self).hand@ == old(self).hand@
                &&& *final(bottom) == *old(bottom)
            },
            final(self).playable_cards@ == legal_plays(
                old(self).hand@,
                played_cards@,
                trump,
                *old(bottom),
            ),
            final(self).name == old(self).name,
    {
        self.update_playable_cards(played_cards, trump, *bottom);
        if choice == 0 || choice > self.hand.len() {
            return Err(PlayError::IndexOutOfBounds);
        }
        let i: usize = choice - 1;
        let selected_card = self.hand[i];
        if !contains_card(&self.playable_cards, &selected_card) {
            return Err(PlayError::IllegalPlay);
        }
        if bottom.is_none() {
            *bottom = Some(selected_card.suit);
        }
        self.discard_index(i)
    }

    /// How each card of the hand is to be shown, in the order of the hand.
    pub fn hand_highlights(&self, trump: Suit) -> (marks: Vec<Highlight>)
        ensures
            marks@.len() == self.hand@.len(),
            forall|i: int|
                0 <= i < self.hand@.len() ==> marks@[i] == highlight_of(
                    self.hand@[i],
                    trump,
                    self.playable_cards@,
                ),
    {
        let mut marks: Vec<Highlight> = Vec::new();
        let mut i: usize = 0;
        while i < self.hand.len()
            invariant
                i <= self.hand.len(),
                marks@.len() == i,
                forall|j: int|
                    0 <= j < i ==> marks@[j] == highlight_of(
                        self.hand@[j],
                        trump,
                        self.playable_cards@,
                    ),
            decreases self.hand.len() - i,
        {
            let card = self.hand[i];
            let mark = if card.is_bour(trump) {
                Highlight::Bour
            } else if card.suit == trump && contains_card(&self.playable_cards, &card) {
                Highlight::PlayableTrump
            } else if contains_card(&self.playable_cards, &card) {
                Highlight::Playable
            } else {
                Highlight::Blocked
            };
            marks.push(mark);
            i += 1;
        }
        marks
    }
}

} // verus!
