//! The plays of one trick, and how a completed trick is decided: who wins it
//! and how many points it carries.

use crate::card::{card_power, card_value, Card, Suit};
use vstd::prelude::*;

verus! {

/// One play of a trick: the card, the seat that played it, and the card's
/// power and value as they were when it was played.
#[derive(PartialEq, Eq, Structural, Debug, Clone, Copy)]
pub struct TurnInfo {
    pub card: Card,
    pub power: u8,
    pub value: u8,
    pub index: usize,
}

/// The play that records `card` from seat `index` in a trick led in `bottom`.
pub open spec fn turn_info(card: Card, index: usize, trump: Suit, bottom: Suit) -> TurnInfo {
    TurnInfo {
        card,
        index,
        power: card_power(card, trump, bottom) as u8,
        value: card_value(card, trump) as u8,
    }
}

/// Position, among `plays`, of the play that wins: the one of highest power,
/// and the last of them should several share it.
pub open spec fn winning_position(plays: Seq<TurnInfo>) -> int
    decreases plays.len(),
{
    if plays.len() <= 1 {
        0
    } else {
        let earlier = winning_position(plays.drop_last());
        if plays.last().power >= plays[earlier].power {
            plays.len() - 1
        } else {
            earlier
        }
    }
}

/// The points that `plays` carry together.
pub open spec fn trick_points(plays: Seq<TurnInfo>) -> int
    decreases plays.len(),
{
    if plays.len() == 0 {
        0
    } else {
        trick_points(plays.drop_last()) + plays.last().value
    }
}

/// The cards of `plays`, in the order in which they were played.
pub open spec fn cards_of(plays: Seq<TurnInfo>) -> Seq<Card> {
    Seq::new(plays.len(), |k: int| plays[k].card)
}

/// The winning play has the highest power of the trick, and every later play
/// is strictly weaker.
pub proof fn lemma_winning_position(plays: Seq<TurnInfo>)
    requires
        plays.len() > 0,
    ensures
        0 <= winning_position(plays) < plays.len(),
        forall|k: int|
            0 <= k < plays.len() ==> (#[trigger] plays[k]).power <= plays[winning_position(
                plays,
            )].power,
        forall|k: int|
            winning_position(plays) < k < plays.len() ==> (#[trigger] plays[k]).power
                < plays[winning_position(plays)].power,
    decreases plays.len(),
{
    if plays.len() > 1 {
        let front = plays.drop_last();
        lemma_winning_position(front);
        let earlier = winning_position(front);
        assert(front[earlier] == plays[earlier]);
        assert forall|k: int| 0 <= k < plays.len() implies (#[trigger] plays[k]).power
            <= plays[winning_position(plays)].power by {
            if k < plays.len() - 1 {
                assert(front[k] == plays[k]);
            }
        }
        assert forall|k: int| winning_position(plays) < k < plays.len() implies (
        #[trigger] plays[k]).power < plays[winning_position(plays)].power by {
            if k < plays.len() - 1 {
                assert(front[k] == plays[k]);
            }
        }
    }
}

/// When no two plays have the same power, the winner is strictly stronger
/// than every other play.
pub proof fn lemma_winner_is_strictly_highest(plays: Seq<TurnInfo>)
    requires
        plays.len() > 0,
        forall|i: int, j: int|
            0 <= i < j < plays.len() ==> (#[trigger] plays[i]).power != (#[trigger] plays[j]).power,
    ensures
        forall|k: int|
            0 <= k < plays.len() && k != winning_position(plays) ==> (#[trigger] plays[k]).power
                < plays[winning_position(plays)].power,
{
    lemma_winning_position(plays);
    let w = winning_position(plays);
    assert forall|k: int| 0 <= k < plays.len() && k != w implies (#[trigger] plays[k]).power
        < plays[w].power by {
        if k < w {
            assert(plays[k].power != plays[w].power);
        }
    }
}

/// The points on the table are not negative, and a play carries at most 255.
pub proof fn lemma_trick_points_bounds(plays: Seq<TurnInfo>)
    ensures
        0 <= trick_points(plays) <= 255 * plays.len(),
    decreases plays.len(),
{
    if plays.len() > 0 {
        lemma_trick_points_bounds(plays.drop_last());
    }
}

impl TurnInfo {
    /// Records the play of `card` by seat `index`, with the power and the
    /// value that the card has under `trump` in a trick led in `bottom`.
    pub fn new(card: Card, index: usize, trump: Suit, bottom: Suit) -> (info: TurnInfo)
        ensures
            info == turn_info(card, index, trump, bottom),
            info.card == card,
            info.index == index,
            info.power == card_power(card, trump, bottom),
            info.value == card_value(card, trump),
    {
        let power = card.power(trump, bottom);
        let value = card.value(trump);
        TurnInfo { card, index, power, value }
    }
}

/// Decides a trick: the seat of the winning play, and the points of all the
/// plays together.
pub fn evaluate_trick(plays: &Vec<TurnInfo>) -> (outcome: (usize, u32))
    requires
        0 < plays@.len() <= 4,
    ensures
        outcome.0 == plays@[winning_position(plays@)].index,
        outcome.1 == trick_points(plays@),
{
    let mut best: usize = 0;
    let mut points: u32 = plays[0].value as u32;
    let mut k: usize = 1;
    proof {
        assert(plays@.take(1).drop_last() =~= Seq::<TurnInfo>::empty());
        assert(trick_points(plays@.take(1)) == plays@[0].value) by {
            assert(trick_points(plays@.take(1).drop_last()) == 0);
        }
    }
    while k < plays.len()
        invariant
            1 <= k <= plays@.len() <= 4,
            best == winning_position(plays@.take(k as int)),
            best < k,
            points == trick_points(plays@.take(k as int)),
            points <= 255 * k,
        decreases plays@.len() - k,
    {
        proof {
            assert(plays@.take(k + 1).drop_last() =~= plays@.take(k as int));
        }
        if plays[k].power >= plays[best].power {
            best = k;
        }
        points = points + plays[k].value as u32;
        k += 1;
    }
    proof {
        assert(plays@.take(plays@.len() as int) =~= plays@);
    }
    (plays[best].index, points)
}

/// The cards of `plays`, in the order in which they were played.
pub fn played_cards(plays: &Vec<TurnInfo>) -> (cards: Vec<Card>)
    ensures
        cards@ == cards_of(plays@),
{
    let mut cards: Vec<Card> = Vec::new();
    let mut k: usize = 0;
    while k < plays.len()
        invariant
            k <= plays@.len(),
            cards@.len() == k,
            forall|j: int| 0 <= j < k ==> cards@[j] == plays@[j].card,
        decreases plays@.len() - k,
    {
        cards.push(plays[k].card);
        k += 1;
    }
    proof {
        assert(cards@ =~= cards_of(plays@));
    }
    cards
}

} // verus!
