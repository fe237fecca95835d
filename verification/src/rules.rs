//! The legal-play rule: which cards of a hand may be played to the trick in
//! progress. Everything here is a function of the hand, the trump suit, the
//! led suit and the cards already on the table.

use crate::card::{bour, card_power, Card, Suit};
use vstd::prelude::*;

verus! {

/// Whether some card of `hand` has suit `suit`.
pub open spec fn holds_suit(hand: Seq<Card>, suit: Suit) -> bool {
    exists|i: int| 0 <= i < hand.len() && (#[trigger] hand[i]).suit == suit
}

/// The highest power among the trump cards of `played`, 0 when there is none.
pub open spec fn max_trump_power(played: Seq<Card>, trump: Suit, led: Suit) -> int
    decreases played.len(),
{
    if played.len() == 0 {
        0
    } else {
        let before = max_trump_power(played.drop_last(), trump, led);
        let last = played.last();
        if last.suit == trump && card_power(last, trump, led) > before {
            card_power(last, trump, led)
        } else {
            before
        }
    }
}

/// Whether the follow-suit and over-trump rules let `c` be played from `hand`
/// to a trick led in `led`, before the exception for the trump Jack.
pub open spec fn allowed(c: Card, hand: Seq<Card>, played: Seq<Card>, trump: Suit, led: Suit) -> bool {
    if led == trump {
        holds_suit(hand, trump) ==> c.suit == trump
    } else {
        let beats_table = c.suit == trump && card_power(c, trump, led) > max_trump_power(
            played,
            trump,
            led,
        );
        if holds_suit(hand, led) {
            c.suit == led || beats_table
        } else {
            c.suit != trump || beats_table
        }
    }
}

/// The cards of `hand` that the follow-suit and over-trump rules allow, in the
/// order of the hand. The seat that leads may play anything.
pub open spec fn constrained_plays(
    hand: Seq<Card>,
    played: Seq<Card>,
    trump: Suit,
    bottom: Option<Suit>,
) -> Seq<Card> {
    match bottom {
        None => hand,
        Some(led) => hand.filter(|c: Card| allowed(c, hand, played, trump, led)),
    }
}

/// The legal plays: the constrained plays, unless those are the trump Jack
/// alone, in which case the whole hand is legal.
pub open spec fn legal_plays(
    hand: Seq<Card>,
    played: Seq<Card>,
    trump: Suit,
    bottom: Option<Suit>,
) -> Seq<Card> {
    let constrained = constrained_plays(hand, played, trump, bottom);
    if constrained.len() == 1 && constrained[0] == bour(trump) {
        hand
    } else {
        constrained
    }
}

/// A hand that the rules leave without a play: the trick was led in a plain
/// suit, and every card of the hand is a trump that does not beat the highest
/// trump on the table.
pub open spec fn smothered(hand: Seq<Card>, played: Seq<Card>, trump: Suit, bottom: Option<Suit>) -> bool {
    match bottom {
        None => false,
        Some(led) => led != trump && forall|i: int|
            0 <= i < hand.len() ==> (#[trigger] hand[i]).suit == trump && card_power(
                hand[i],
                trump,
                led,
            ) <= max_trump_power(played, trump, led),
    }
}

/// `max_trump_power` is an upper bound on the power of every trump played,
/// and it is either 0 with no trump played or the power of one of them.
pub proof fn lemma_max_trump_power(played: Seq<Card>, trump: Suit, led: Suit)
    ensures
        0 <= max_trump_power(played, trump, led) <= 20,
        forall|i: int|
            0 <= i < played.len() && (#[trigger] played[i]).suit == trump ==> card_power(
                played[i],
                trump,
                led,
            ) <= max_trump_power(played, trump, led),
        holds_suit(played, trump) ==> exists|i: int|
            0 <= i < played.len() && (#[trigger] played[i]).suit == trump && card_power(
                played[i],
                trump,
                led,
            ) == max_trump_power(played, trump, led),
        !holds_suit(played, trump) ==> max_trump_power(played, trump, led) == 0,
    decreases played.len(),
{
    if played.len() > 0 {
        let front = played.drop_last();
        lemma_max_trump_power(front, trump, led);
        assert forall|i: int| 0 <= i < played.len() && (#[trigger] played[i]).suit == trump implies card_power(
            played[i],
            trump,
            led,
        ) <= max_trump_power(played, trump, led) by {
            if i < played.len() - 1 {
                assert(front[i] == played[i]);
            }
        }
        if holds_suit(played, trump) {
            if holds_suit(front, trump) {
                let j = choose|j: int|
                    0 <= j < front.len() && (#[trigger] front[j]).suit == trump && card_power(
                        front[j],
                        trump,
                        led,
                    ) == max_trump_power(front, trump, led);
                assert(played[j] == front[j]);
                if max_trump_power(played, trump, led) != max_trump_power(front, trump, led) {
                    assert(played[played.len() - 1].suit == trump);
                }
            } else {
                let k = choose|k: int| 0 <= k < played.len() && (#[trigger] played[k]).suit == trump;
                if k < played.len() - 1 {
                    assert(front[k].suit == trump);
                }
                assert(played[played.len() - 1].suit == trump);
            }
        } else {
            if holds_suit(front, trump) {
                let j = choose|j: int| 0 <= j < front.len() && (#[trigger] front[j]).suit == trump;
                assert(played[j].suit == trump);
            }
        }
    }
}

/// While the hand is not empty the legal plays are not empty either, except
/// for a smothered hand.
pub proof fn lemma_legal_plays_nonempty(
    hand: Seq<Card>,
    played: Seq<Card>,
    trump: Suit,
    bottom: Option<Suit>,
)
    requires
        hand.len() > 0,
        !smothered(hand, played, trump, bottom),
    ensures
        legal_plays(hand, played, trump, bottom).len() > 0,
{
    match bottom {
        None => {},
        Some(led) => {
            let keep = |c: Card| allowed(c, hand, played, trump, led);
            let constrained = hand.filter(keep);
            // One card of the hand passes the rule.
            let w: int = if led == trump {
                if holds_suit(hand, trump) {
                    choose|i: int| 0 <= i < hand.len() && (#[trigger] hand[i]).suit == trump
                } else {
                    0
                }
            } else if holds_suit(hand, led) {
                choose|i: int| 0 <= i < hand.len() && (#[trigger] hand[i]).suit == led
            } else {
                choose|i: int|
                    0 <= i < hand.len() && !((#[trigger] hand[i]).suit == trump && card_power(
                        hand[i],
                        trump,
                        led,
                    ) <= max_trump_power(played, trump, led))
            };
            assert(0 <= w < hand.len());
            assert(keep(hand[w]));
            hand.lemma_filter_contains_rev(keep, hand[w]);
            assert(constrained.contains(hand[w]));
        },
    }
}

/// A smothered hand has no legal play at all.
pub proof fn lemma_smothered_has_no_play(
    hand: Seq<Card>,
    played: Seq<Card>,
    trump: Suit,
    bottom: Option<Suit>,
)
    requires
        smothered(hand, played, trump, bottom),
    ensures
        hand.len() > 0 ==> legal_plays(hand, played, trump, bottom).len() == 0,
{
    let led = bottom->Some_0;
    let keep = |c: Card| allowed(c, hand, played, trump, led);
    if hand.len() > 0 {
        assert(!holds_suit(hand, led)) by {
            if holds_suit(hand, led) {
                let i = choose|i: int| 0 <= i < hand.len() && (#[trigger] hand[i]).suit == led;
                assert(hand[i].suit == trump);
            }
        }
        assert forall|i: int| 0 <= i < hand.len() implies !keep(#[trigger] hand[i]) by {
            assert(hand[i].suit == trump);
        }
        hand.lemma_all_neg_filter_empty(keep);
    }
}

/// When the follow-suit and over-trump rules leave the trump Jack as the only
/// play, every card of the hand is legal.
pub proof fn lemma_lone_bour_frees_the_hand(
    hand: Seq<Card>,
    played: Seq<Card>,
    trump: Suit,
    bottom: Option<Suit>,
)
    requires
        constrained_plays(hand, played, trump, bottom) =~= seq![bour(trump)],
    ensures
        legal_plays(hand, played, trump, bottom) == hand,
{
}

/// Whether some card of `hand` has suit `search_suit`.
pub fn has_suit(hand: &Vec<Card>, search_suit: Suit) -> (found: bool)
    ensures
        found == holds_suit(hand@, search_suit),
{
    let mut i: usize = 0;
    while i < hand.len()
        invariant
            i <= hand.len(),
            forall|j: int| 0 <= j < i ==> (#[trigger] hand@[j]).suit != search_suit,
        decreases hand.len() - i,
    {
        if hand[i].suit == search_suit {
            return true;
        }
        i += 1;
    }
    false
}

/// The highest power among the trump cards already on the table, 0 when
/// there is none.
pub fn highest_trump_power(played: &Vec<Card>, trump: Suit, led: Suit) -> (top: u8)
    ensures
        top == max_trump_power(played@, trump, led),
{
    let mut top: u8 = 0;
    let mut i: usize = 0;
    while i < played.len()
        invariant
            i <= played.len(),
            top == max_trump_power(played@.take(i as int), trump, led),
        decreases played.len() - i,
    {
        let c = played[i];
        proof {
            assert(played@.take(i + 1).drop_last() =~= played@.take(i as int));
        }
        if c.suit == trump {
            let p = c.power(trump, led);
            if p > top {
                top = p;
            }
        }
        i += 1;
    }
    proof {
        assert(played@.take(played.len() as int) =~= played@);
    }
    top
}

/// Whether `cards` holds a card equal to `card`.
pub fn contains_card(cards: &Vec<Card>, card: &Card) -> (found: bool)
    ensures
        found == cards@.contains(*card),
{
    let mut i: usize = 0;
    while i < cards.len()
        invariant
            i <= cards.len(),
            forall|j: int| 0 <= j < i ==> cards@[j] != *card,
        decreases cards.len() - i,
    {
        if cards[i] == *card {
            return true;
        }
        i += 1;
    }
    false
}

/// A copy of `cards`.
pub fn copy_cards(cards: &Vec<Card>) -> (copy: Vec<Card>)
    ensures
        copy@ == cards@,
{
    let mut copy: Vec<Card> = Vec::new();
    let mut i: usize = 0;
    while i < cards.len()
        invariant
            i <= cards.len(),
            copy@ == cards@.take(i as int),
        decreases cards.len() - i,
    {
        copy.push(cards[i]);
        proof {
            assert(cards@.take(i + 1) =~= cards@.take(i as int).push(cards@[i as int]));
        }
        i += 1;
    }
    proof {
        assert(cards@.take(cards.len() as int) =~= cards@);
    }
    copy
}

/// The legal plays of `hand`, in the order of the hand.
pub fn playable_from(hand: &Vec<Card>, played_cards: &Vec<Card>, trump: Suit, bottom: Option<Suit>) -> (playable: Vec<Card>)
    ensures
        playable@ == legal_plays(hand@, played_cards@, trump, bottom),
{
    let mut playable: Vec<Card> = match bottom {
        None => copy_cards(hand),
        Some(b) => {
            let has_trump = has_suit(hand, trump);
            let has_led = has_suit(hand, b);
            let highest_trump_played_power = highest_trump_power(played_cards, trump, b);
            let ghost keep = |c: Card| allowed(c, hand@, played_cards@, trump, b);
            let mut kept: Vec<Card> = Vec::new();
            let mut i: usize = 0;
            while i < hand.len()
                invariant
                    i <= hand.len(),
                    has_trump == holds_suit(hand@, trump),
                    has_led == holds_suit(hand@, b),
                    highest_trump_played_power == max_trump_power(played_cards@, trump, b),
                    keep == (|c: Card| allowed(c, hand@, played_cards@, trump, b)),
                    kept@ == hand@.take(i as int).filter(keep),
                decreases hand.len() - i,
            {
                let x = hand[i];
                let over_trumps = x.suit == trump && x.power(trump, b) > highest_trump_played_power;
                let ok = if b == trump {
                    !has_trump || x.suit == trump
                } else if has_led {
                    x.suit == b || over_trumps
                } else {
                    x.suit != trump || over_trumps
                };
                proof {
                    assert(ok == keep(x));
                    assert(hand@.take(i + 1) =~= hand@.take(i as int).push(x));
                    hand@.take(i as int).lemma_filter_push(x, keep);
                }
                if ok {
                    kept.push(x);
                }
                i += 1;
            }
            proof {
                assert(hand@.take(hand.len() as int) =~= hand@);
            }
            kept
        },
    };
    // Nobody is ever forced to give up the trump Jack.
    if playable.len() == 1 && playable[0].is_bour(trump) {
        playable = copy_cards(hand);
    }
    playable
}

} // verus!
