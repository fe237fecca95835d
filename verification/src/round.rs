//! One round of nine tricks: the deal, the turn-by-turn state machine, and
//! the score with its end-of-round bonuses.

use crate::card::{Card, Suit};
use crate::deck::{
    display_sorted, is_deck, lemma_deck_value, lemma_value_sum_bounds, lemma_value_sum_concat,
    lemma_value_sum_permutation, lemma_value_sum_remove, sort_cards, value_sum,
};
use crate::player::{first_position, led_after, turn_outcome, PlayError, Player};
use crate::rules::legal_plays;
use crate::trick::{
    cards_of, evaluate_trick, lemma_trick_points_bounds, lemma_winning_position, played_cards,
    trick_points, turn_info, winning_position, TurnInfo,
};
use vstd::multiset::Multiset;
use vstd::prelude::*;
use vstd::seq_lib::{lemma_multiset_commutative, to_multiset_build, to_multiset_remove};

verus! {

/// The nine cards that seat `seat` is dealt from `deck`: the first nine go to
/// seat 0, the next nine to seat 1, and so on.
pub open spec fn dealt_to(seat: int, deck: Seq<Card>) -> Seq<Card> {
    deck.subrange(9 * seat, 9 * seat + 9)
}

/// Whether `hand` is what seat `seat` holds after the deal of `deck`: its
/// nine cards, put in display order.
pub open spec fn is_dealt_hand(hand: Seq<Card>, seat: int, deck: Seq<Card>) -> bool {
    &&& display_sorted(hand)
    &&& hand.to_multiset() == dealt_to(seat, deck).to_multiset()
    &&& hand.len() == 9
}

/// The hand of seat `seat` after the deal of `deck`.
fn deal_hand(deck: &[Card; 36], seat: usize) -> (hand: Vec<Card>)
    requires
        seat < 4,
    ensures
        is_dealt_hand(hand@, seat as int, deck@),
{
    let mut hand: Vec<Card> = Vec::new();
    let first: usize = 9 * seat;
    let mut i: usize = 0;
    while i < 9
        invariant
            i <= 9,
            first == 9 * seat,
            seat < 4,
            hand@ == deck@.subrange(first as int, first + i),
        decreases 9 - i,
    {
        hand.push(deck[first + i]);
        proof {
            assert(deck@.subrange(first as int, first + i + 1) =~= deck@.subrange(
                first as int,
                first + i,
            ).push(deck@[first + i]));
        }
        i += 1;
    }
    sort_cards(&mut hand);
    hand
}

/// Deals `deck` to four seats, nine cards each in the order of the deck, and
/// puts each hand in display order.
pub fn distribute_and_create_players(deck: [Card; 36], names: [String; 4]) -> (players: [Player; 4])
    ensures
        forall|s: int|
            0 <= s < 4 ==> {
                &&& is_dealt_hand((#[trigger] players@[s]).hand@, s, deck@)
                &&& players@[s].playable_cards@ == Seq::<Card>::empty()
                &&& players@[s].name == names@[s]
            },
{
    let hand1 = deal_hand(&deck, 0);
    let hand2 = deal_hand(&deck, 1);
    let hand3 = deal_hand(&deck, 2);
    let hand4 = deal_hand(&deck, 3);
    [
        Player::new(hand1, names[0].clone()),
        Player::new(hand2, names[1].clone()),
        Player::new(hand3, names[2].clone()),
        Player::new(hand4, names[3].clone()),
    ]
}

/// The 36 cards of `cards` as an array.
pub fn deck_array(cards: &Vec<Card>) -> (deck: [Card; 36])
    requires
        cards@.len() == 36,
    ensures
        deck@ == cards@,
{
    let mut deck: [Card; 36] = [cards[0];36];
    let mut i: usize = 0;
    while i < 36
        invariant
            i <= 36,
            cards@.len() == 36,
            forall|j: int| 0 <= j < i ==> deck@[j] == cards@[j],
        decreases 36 - i,
    {
        deck[i] = cards[i];
        i += 1;
    }
    proof {
        assert(deck@ =~= cards@);
    }
    deck
}

/// What a play that was accepted led to.
#[derive(PartialEq, Eq, Structural, Debug, Clone, Copy)]
pub enum Step {
    /// The card lies on the table and the next seat is to play.
    Played { seat: usize, card: Card },
    /// The card completed a trick: `winner` took it, with `points` points,
    /// and leads the next one.
    TrickWon { card: Card, winner: usize, points: u32 },
    /// The card completed the last trick: `winner` took it, with `points`
    /// points before the bonuses, and the round is over.
    RoundOver { card: Card, winner: usize, points: u32 },
}

/// The state of a round as the rules see it: the four hands, the trick in
/// progress, who leads, and the score of the two partnerships. Seats 0 and 2
/// play together (`ac`), and so do seats 1 and 3 (`bd`).
pub struct RoundView {
    pub hands: Seq<Seq<Card>>,
    pub trump: Suit,
    pub lead: int,
    pub plays: Seq<TurnInfo>,
    pub bottom: Option<Suit>,
    pub points_ac: int,
    pub points_bd: int,
    pub tricks_ac: int,
    pub tricks_bd: int,
}

impl RoundView {
    /// The number of tricks that have been decided.
    pub open spec fn tricks_done(self) -> int {
        self.tricks_ac + self.tricks_bd
    }

    /// The round is over once nine tricks have been decided.
    pub open spec fn finished(self) -> bool {
        self.tricks_done() == 9
    }

    /// Whether one partnership took all nine tricks.
    pub open spec fn swept(self) -> bool {
        self.tricks_ac == 9 || self.tricks_bd == 9
    }

    /// The seat whose turn it is: seats follow each other from the lead.
    pub open spec fn active_seat(self) -> int {
        (self.lead + self.plays.len()) % 4
    }

    /// Whether `seat` has already played to the trick in progress.
    pub open spec fn has_played(self, seat: int) -> bool {
        exists|k: int| 0 <= k < self.plays.len() && (#[trigger] self.plays[k]).index == seat
    }

    /// The bonuses that the score holds: none before the end, then 5 for the
    /// last trick and 100 more for a sweep.
    pub open spec fn bonus(self) -> int {
        if self.finished() {
            if self.swept() {
                105
            } else {
                5
            }
        } else {
            0
        }
    }

    /// The points of the cards that are still in the hands or on the table.
    pub open spec fn points_in_play(self) -> int {
        value_sum(self.hands[0], self.trump) + value_sum(self.hands[1], self.trump) + value_sum(
            self.hands[2],
            self.trump,
        ) + value_sum(self.hands[3], self.trump) + trick_points(self.plays)
    }

    /// The cards that are still in the hands or on the table, each as often
    /// as it occurs there.
    pub open spec fn cards_in_play(self) -> Multiset<Card> {
        self.hands[0].to_multiset().add(self.hands[1].to_multiset()).add(
            self.hands[2].to_multiset(),
        ).add(self.hands[3].to_multiset()).add(cards_of(self.plays).to_multiset())
    }

    /// The plays on the table come from the seats in turn, starting with the
    /// lead, each with the power and value of its card.
    pub open spec fn seats_in_turn(self) -> bool {
        &&& 0 <= self.lead < 4
        &&& self.plays.len() <= 4
        &&& forall|k: int|
            0 <= k < self.plays.len() ==> #[trigger] self.plays[k] == turn_info(
                self.plays[k].card,
                ((self.lead + k) % 4) as usize,
                self.trump,
                self.bottom->Some_0,
            )
    }

    /// Every seat has given one card to each decided trick, and one more if
    /// it has played to the trick in progress.
    pub open spec fn hands_in_step(self) -> bool {
        forall|s: int|
            0 <= s < 4 ==> (#[trigger] self.hands[s]).len() + self.tricks_done() + (if self.has_played(
                s,
            ) {
                1int
            } else {
                0int
            }) == 9
    }

    /// No card is in play twice.
    pub open spec fn no_card_twice(self) -> bool {
        forall|c: Card| #[trigger] self.cards_in_play().count(c) <= 1
    }

    /// What holds of a round but for the number of plays on the table.
    pub open spec fn consistent(self) -> bool {
        &&& self.hands.len() == 4
        &&& 0 <= self.tricks_ac
        &&& 0 <= self.tricks_bd
        &&& self.tricks_done() <= 9
        &&& 0 <= self.points_ac
        &&& 0 <= self.points_bd
        &&& (self.plays.len() == 0 ==> self.bottom is None)
        &&& (self.plays.len() > 0 ==> self.bottom == Some(self.plays[0].card.suit))
        &&& self.seats_in_turn()
        &&& self.hands_in_step()
        &&& self.points_ac + self.points_bd + self.points_in_play() == 152 + self.bonus()
        &&& self.no_card_twice()
    }

    /// The invariant of a round between two plays: every seat has played one
    /// card per decided trick, the plays on the table come from the seats in
    /// turn, a complete trick never stays on the table, the score and the
    /// cards still in play add up to the worth of the deck plus the bonuses,
    /// and no card is in play twice.
    pub open spec fn wf(self) -> bool {
        self.consistent() && self.plays.len() < 4
    }

    /// What becomes of the active seat's choice of position `choice`.
    pub open spec fn verdict(self, choice: int) -> Result<Card, PlayError> {
        turn_outcome(
            self.hands[self.active_seat()],
            cards_of(self.plays),
            self.trump,
            self.bottom,
            choice,
        )
    }

    /// The round once the active seat has put the card at `choice` on the
    /// table.
    pub open spec fn with_play(self, choice: int) -> RoundView {
        let seat = self.active_seat();
        let card = self.hands[seat][choice - 1];
        let led = led_after(self.bottom, card);
        RoundView {
            hands: self.hands.update(seat, self.hands[seat].remove(choice - 1)),
            plays: self.plays.push(turn_info(card, seat as usize, self.trump, led)),
            bottom: Some(led),
            ..self
        }
    }

    /// The seat that wins the plays on the table.
    pub open spec fn trick_winner(self) -> int {
        self.plays[winning_position(self.plays)].index as int
    }

    /// The round once the trick on the table has been decided: the winner's
    /// partnership gets its points, the winner leads, the table is cleared.
    /// When this was the ninth trick the same partnership gets 5 points more,
    /// and 100 more if it took every trick.
    pub open spec fn settled(self) -> RoundView {
        let winner = self.trick_winner();
        let points = trick_points(self.plays);
        let last = self.tricks_done() == 8;
        if winner % 2 == 0 {
            let extra: int = if !last {
                0
            } else if self.tricks_ac == 8 {
                105
            } else {
                5
            };
            RoundView {
                lead: winner,
                plays: Seq::empty(),
                bottom: None,
                tricks_ac: self.tricks_ac + 1,
                points_ac: self.points_ac + points + extra,
                ..self
            }
        } else {
            let extra: int = if !last {
                0
            } else if self.tricks_bd == 8 {
                105
            } else {
                5
            };
            RoundView {
                lead: winner,
                plays: Seq::empty(),
                bottom: None,
                tricks_bd: self.tricks_bd + 1,
                points_bd: self.points_bd + points + extra,
                ..self
            }
        }
    }

    /// The round after the active seat has answered `choice`. A refused
    /// answer changes nothing.
    pub open spec fn next(self, choice: int) -> RoundView {
        if self.verdict(choice) is Err {
            self
        } else if self.plays.len() == 3 {
            self.with_play(choice).settled()
        } else {
            self.with_play(choice)
        }
    }

    /// What the active seat is told about its answer `choice`.
    pub open spec fn step(self, choice: int) -> Result<Step, PlayError> {
        match self.verdict(choice) {
            Err(e) => Err(e),
            Ok(card) => {
                let table = self.with_play(choice);
                if self.plays.len() < 3 {
                    Ok(Step::Played { seat: self.active_seat() as usize, card })
                } else if self.tricks_done() == 8 {
                    Ok(
                        Step::RoundOver {
                            card,
                            winner: table.trick_winner() as usize,
                            points: trick_points(table.plays) as u32,
                        },
                    )
                } else {
                    Ok(
                        Step::TrickWon {
                            card,
                            winner: table.trick_winner() as usize,
                            points: trick_points(table.plays) as u32,
                        },
                    )
                }
            },
        }
    }
}

/// An empty table holds no card.
pub proof fn lemma_empty_table(plays: Seq<TurnInfo>)
    requires
        plays.len() == 0,
    ensures
        cards_of(plays).to_multiset() =~= Multiset::<Card>::empty(),
{
    broadcast use vstd::multiset::group_multiset_axioms;

    vstd::seq_lib::to_multiset_len(cards_of(plays));
}

/// Adding a play adds its value to the points on the table.
pub proof fn lemma_trick_points_push(plays: Seq<TurnInfo>, play: TurnInfo)
    ensures
        trick_points(plays.push(play)) == trick_points(plays) + play.value,
{
    assert(plays.push(play).drop_last() =~= plays);
}

/// In a round that is in order, the seats that have played are the first
/// `plays.len()` seats counted from the lead.
pub proof fn lemma_has_played(v: RoundView, seat: int)
    requires
        v.seats_in_turn(),
        0 <= seat < 4,
    ensures
        v.has_played(seat) <==> (seat + 4 - v.lead) % 4 < v.plays.len(),
{
    let d = (seat + 4 - v.lead) % 4;
    if d < v.plays.len() {
        assert(v.plays[d] == turn_info(
            v.plays[d].card,
            ((v.lead + d) % 4) as usize,
            v.trump,
            v.bottom->Some_0,
        ));
        assert((v.lead + d) % 4 == seat);
        assert(v.plays[d].index == seat);
    }
    if v.has_played(seat) {
        let k = choose|k: int| 0 <= k < v.plays.len() && (#[trigger] v.plays[k]).index == seat;
        assert(v.plays[k] == turn_info(
            v.plays[k].card,
            ((v.lead + k) % 4) as usize,
            v.trump,
            v.bottom->Some_0,
        ));
        assert((v.lead + k) % 4 == seat);
        assert(k == d);
    }
}

/// A play that is accepted keeps the round in order.
pub proof fn lemma_with_play_consistent(v: RoundView, choice: int)
    requires
        v.wf(),
        v.verdict(choice) is Ok,
    ensures
        v.with_play(choice).consistent(),
        v.with_play(choice).plays.len() == v.plays.len() + 1,
        v.with_play(choice).tricks_done() == v.tricks_done(),
        v.tricks_done() < 9,
{
    let t = v.with_play(choice);
    let seat = v.active_seat();
    let hand = v.hands[seat];
    let card = hand[choice - 1];
    let led = led_after(v.bottom, card);
    let play = turn_info(card, seat as usize, v.trump, led);
    assert(1 <= choice <= hand.len());
    lemma_has_played(v, seat);
    assert(!v.has_played(seat));
    assert(v.hands[seat].len() + v.tricks_done() == 9);
    assert forall|k: int| 0 <= k < t.plays.len() implies #[trigger] t.plays[k] == turn_info(
        t.plays[k].card,
        ((t.lead + k) % 4) as usize,
        t.trump,
        t.bottom->Some_0,
    ) by {
        if k < v.plays.len() {
            assert(t.plays[k] == v.plays[k]);
        }
    }
    assert forall|s: int| 0 <= s < 4 implies (#[trigger] t.hands[s]).len() + t.tricks_done() + (
    if t.has_played(s) {
        1int
    } else {
        0int
    }) == 9 by {
        assert(v.hands[s].len() + v.tricks_done() + (if v.has_played(s) {
            1int
        } else {
            0int
        }) == 9);
        if s == seat {
            assert(t.plays[v.plays.len() as int].index == seat);
            assert(t.has_played(s));
        } else {
            assert(t.hands[s] == v.hands[s]);
            if v.has_played(s) {
                let k = choose|k: int|
                    0 <= k < v.plays.len() && (#[trigger] v.plays[k]).index == s;
                assert(t.plays[k].index == s);
            }
            if t.has_played(s) {
                let k = choose|k: int|
                    0 <= k < t.plays.len() && (#[trigger] t.plays[k]).index == s;
                assert(k < v.plays.len());
                assert(v.plays[k].index == s);
            }
        }
    }
    lemma_value_sum_remove(hand, choice - 1, v.trump);
    lemma_trick_points_push(v.plays, play);
    assert(t.points_in_play() == v.points_in_play());
    assert(t.cards_in_play() =~= v.cards_in_play()) by {
        broadcast use vstd::multiset::group_multiset_axioms;

        to_multiset_remove(hand, choice - 1);
        to_multiset_build(cards_of(v.plays), card);
        assert(cards_of(t.plays) =~= cards_of(v.plays).push(card));
        assert(hand.to_multiset().count(card) > 0) by {
            vstd::seq_lib::to_multiset_contains(hand, card);
            assert(hand[choice - 1] == card);
        }
        assert(t.hands[seat] == hand.remove(choice - 1));
        assert(forall|s: int| 0 <= s < 4 && s != seat ==> t.hands[s] == v.hands[s]);
    }
}

/// Deciding a complete trick brings the round back between two plays.
pub proof fn lemma_settled_wf(t: RoundView)
    requires
        t.consistent(),
        t.plays.len() == 4,
    ensures
        t.settled().wf(),
        t.tricks_done() < 9,
        0 <= t.trick_winner() < 4,
        0 <= trick_points(t.plays) <= 152,
        t.settled().points_ac >= t.points_ac,
        t.settled().points_bd >= t.points_bd,
{
    let n = t.settled();
    lemma_winning_position(t.plays);
    let w = winning_position(t.plays);
    assert(t.plays[w] == turn_info(
        t.plays[w].card,
        ((t.lead + w) % 4) as usize,
        t.trump,
        t.bottom->Some_0,
    ));
    lemma_trick_points_bounds(t.plays);
    lemma_value_sum_bounds(t.hands[0], t.trump);
    lemma_value_sum_bounds(t.hands[1], t.trump);
    lemma_value_sum_bounds(t.hands[2], t.trump);
    lemma_value_sum_bounds(t.hands[3], t.trump);
    lemma_has_played(t, 0);
    assert(t.has_played(0));
    assert(t.hands[0].len() + t.tricks_done() + 1 == 9);
    assert(n.plays.len() == 0);
    assert(trick_points(n.plays) == 0);
    assert forall|s: int| 0 <= s < 4 implies (#[trigger] n.hands[s]).len() + n.tricks_done() + (
    if n.has_played(s) {
        1int
    } else {
        0int
    }) == 9 by {
        lemma_has_played(t, s);
        assert(t.has_played(s));
        assert(!n.has_played(s));
        assert(t.hands[s].len() + t.tricks_done() + (if t.has_played(s) {
            1int
        } else {
            0int
        }) == 9);
    }
    assert(n.no_card_twice()) by {
        lemma_empty_table(n.plays);
        assert forall|c: Card| #[trigger] n.cards_in_play().count(c) <= 1 by {
            broadcast use vstd::multiset::group_multiset_axioms;

            assert(n.cards_in_play().count(c) <= t.cards_in_play().count(c));
        }
    }
}

/// Every answer of the active seat, accepted or refused, keeps the invariant
/// of the round, and the score of a partnership never goes down.
pub proof fn lemma_next_wf(v: RoundView, choice: int)
    requires
        v.wf(),
    ensures
        v.next(choice).wf(),
        v.next(choice).points_ac >= v.points_ac,
        v.next(choice).points_bd >= v.points_bd,
        v.next(choice).trump == v.trump,
{
    if v.verdict(choice) is Ok {
        lemma_with_play_consistent(v, choice);
        if v.plays.len() == 3 {
            lemma_settled_wf(v.with_play(choice));
        }
    }
}

/// In a round no two plays of a trick tie: the winning play is strictly
/// stronger than every other play on the table.
pub proof fn lemma_trick_has_one_winner(v: RoundView)
    requires
        v.consistent(),
        v.plays.len() > 0,
    ensures
        0 <= winning_position(v.plays) < v.plays.len(),
        forall|k: int|
            0 <= k < v.plays.len() && k != winning_position(v.plays) ==> (
            #[trigger] v.plays[k]).power < v.plays[winning_position(v.plays)].power,
{
    lemma_winning_position(v.plays);
    let w = winning_position(v.plays);
    let led = v.bottom->Some_0;
    let table = cards_of(v.plays);
    assert(v.plays[0] == turn_info(v.plays[0].card, ((v.lead + 0) % 4) as usize, v.trump, led));
    assert(v.plays[w] == turn_info(v.plays[w].card, ((v.lead + w) % 4) as usize, v.trump, led));
    assert(v.plays[0].power >= 1);
    assert forall|k: int| 0 <= k < v.plays.len() && k != w implies (#[trigger] v.plays[k]).power
        < v.plays[w].power by {
        assert(v.plays[k] == turn_info(
            v.plays[k].card,
            ((v.lead + k) % 4) as usize,
            v.trump,
            led,
        ));
        if v.plays[k].power == v.plays[w].power {
            crate::card::lemma_power_tells_cards_apart(
                v.plays[k].card,
                v.plays[w].card,
                v.trump,
                led,
            );
            // The same card would lie on the table twice.
            broadcast use vstd::multiset::group_multiset_axioms;

            let c = v.plays[k].card;
            let (lo, hi) = if k < w {
                (k, w)
            } else {
                (w, k)
            };
            assert(table[lo] == c && table[hi] == c);
            let front = table.subrange(0, hi);
            let back = table.subrange(hi, table.len() as int);
            assert(table =~= front + back);
            lemma_multiset_commutative(front, back);
            assert(front[lo] == c && back[0] == c);
            vstd::seq_lib::to_multiset_contains(front, c);
            vstd::seq_lib::to_multiset_contains(back, c);
            assert(table.to_multiset().count(c) >= 2);
            assert(v.cards_in_play().count(c) <= 1);
            assert(false);
        }
    }
}

/// When the round is over every hand is empty, nothing lies on the table,
/// and the two totals together are the 152 points of the deck plus 5 for the
/// last trick, plus 100 if one partnership took every trick. Written with
/// the last-trick bonus counted once more on the left: the totals and 5 make
/// 162, or 262 after a sweep. Both partnerships never sweep.
pub proof fn lemma_round_total(v: RoundView)
    requires
        v.wf(),
        v.finished(),
    ensures
        v.points_ac + v.points_bd == 157 + (if v.swept() {
            100int
        } else {
            0int
        }),
        v.points_ac + v.points_bd + 5 == 162 + (if v.swept() {
            100int
        } else {
            0int
        }),
        !(v.tricks_ac == 9 && v.tricks_bd == 9),
        v.swept() ==> (v.tricks_ac == 0 || v.tricks_bd == 0),
        v.plays.len() == 0,
        forall|s: int| 0 <= s < 4 ==> (#[trigger] v.hands[s]).len() == 0,
{
    assert forall|s: int| 0 <= s < 4 implies (#[trigger] v.hands[s]).len() == 0 && !v.has_played(
        s,
    ) by {
        assert(v.hands[s].len() + v.tricks_done() + (if v.has_played(s) {
            1int
        } else {
            0int
        }) == 9);
    }
    if v.plays.len() > 0 {
        lemma_has_played(v, v.lead);
        assert(false);
    }
    assert(v.hands[0].len() == 0 && v.hands[1].len() == 0 && v.hands[2].len() == 0
        && v.hands[3].len() == 0);
    assert(v.points_in_play() == 0);
}

/// At the start of a trick the four hands have the same length; so when the
/// hand of the first seat is empty then, all four are, and the round is over.
pub proof fn lemma_hands_empty_together(v: RoundView)
    requires
        v.wf(),
        !v.has_played(0),
        v.hands[0].len() == 0,
    ensures
        forall|s: int| 0 <= s < 4 ==> (#[trigger] v.hands[s]).len() == 0,
        v.finished(),
        v.plays.len() == 0,
{
    assert(v.hands[0].len() + v.tricks_done() + (if v.has_played(0) {
        1int
    } else {
        0int
    }) == 9);
    lemma_round_total(v);
}

/// A round in progress. Seats 0 and 2 play together (`ac`), and so do seats
/// 1 and 3 (`bd`).
pub struct Round {
    pub players: [Player; 4],
    pub trump: Suit,
    /// The seat that leads the trick in progress.
    pub lead: usize,
    /// The plays of the trick in progress.
    pub plays: Vec<TurnInfo>,
    /// The led suit of the trick in progress, once its first card lies.
    pub bottom: Option<Suit>,
    pub points_ac: u32,
    pub points_bd: u32,
    pub tricks_ac: u8,
    pub tricks_bd: u8,
}

impl View for Round {
    type V = RoundView;

    open spec fn view(&self) -> RoundView {
        RoundView {
            hands: Seq::new(4, |s: int| self.players@[s].hand@),
            trump: self.trump,
            lead: self.lead as int,
            plays: self.plays@,
            bottom: self.bottom,
            points_ac: self.points_ac as int,
            points_bd: self.points_bd as int,
            tricks_ac: self.tricks_ac as int,
            tricks_bd: self.tricks_bd as int,
        }
    }
}

/// The round right after the deal of `deck`: the four dealt hands, seat 0 to
/// lead, nothing on the table and nothing scored.
pub open spec fn is_fresh_deal(v: RoundView, deck: Seq<Card>, trump: Suit) -> bool {
    &&& v.hands.len() == 4
    &&& forall|s: int| 0 <= s < 4 ==> is_dealt_hand(#[trigger] v.hands[s], s, deck)
    &&& v.trump == trump
    &&& v.lead == 0
    &&& v.plays == Seq::<TurnInfo>::empty()
    &&& v.bottom is None
    &&& v.points_ac == 0
    &&& v.points_bd == 0
    &&& v.tricks_ac == 0
    &&& v.tricks_bd == 0
}

/// The deal of a full deck starts a round that is in order.
pub proof fn lemma_fresh_deal_wf(v: RoundView, deck: Seq<Card>, trump: Suit)
    requires
        is_deck(deck),
        is_fresh_deal(v, deck, trump),
    ensures
        v.wf(),
{
    lemma_deck_value(deck, trump);
    let d0 = dealt_to(0, deck);
    let d1 = dealt_to(1, deck);
    let d2 = dealt_to(2, deck);
    let d3 = dealt_to(3, deck);
    assert(is_dealt_hand(v.hands[0], 0, deck));
    assert(is_dealt_hand(v.hands[1], 1, deck));
    assert(is_dealt_hand(v.hands[2], 2, deck));
    assert(is_dealt_hand(v.hands[3], 3, deck));
    lemma_value_sum_permutation(v.hands[0], d0, trump);
    lemma_value_sum_permutation(v.hands[1], d1, trump);
    lemma_value_sum_permutation(v.hands[2], d2, trump);
    lemma_value_sum_permutation(v.hands[3], d3, trump);
    assert(deck =~= ((d0 + d1) + d2) + d3);
    lemma_value_sum_concat(d0, d1, trump);
    lemma_value_sum_concat(d0 + d1, d2, trump);
    lemma_value_sum_concat((d0 + d1) + d2, d3, trump);
    assert(trick_points(v.plays) == 0);
    assert forall|s: int| 0 <= s < 4 implies (#[trigger] v.hands[s]).len() + v.tricks_done() + (
    if v.has_played(s) {
        1int
    } else {
        0int
    }) == 9 by {
        assert(is_dealt_hand(v.hands[s], s, deck));
        assert(!v.has_played(s));
    }
    assert(v.no_card_twice()) by {
        broadcast use vstd::multiset::group_multiset_axioms;

        lemma_multiset_commutative(d0, d1);
        lemma_multiset_commutative(d0 + d1, d2);
        lemma_multiset_commutative((d0 + d1) + d2, d3);
        lemma_empty_table(v.plays);
        assert(v.cards_in_play() =~= deck.to_multiset());
        crate::deck::lemma_full_deck_has_each_card_once();
    }
}

impl Round {
    /// Deals `deck` and starts a round under `trump`, seat 0 to lead. A deck
    /// that is not the 36 cards, each once, starts no round.
    pub fn new(deck: [Card; 36], names: [String; 4], trump: Suit) -> (started: Option<Round>)
        ensures
            started is Some <==> is_deck(deck@),
            started is Some ==> {
                &&& started->Some_0@.wf()
                &&& is_fresh_deal(started->Some_0@, deck@, trump)
                &&& forall|s: int|
                    0 <= s < 4 ==> (#[trigger] started->Some_0.players@[s]).name == names@[s]
            },
    {
        let mut cards: Vec<Card> = Vec::new();
        let mut i: usize = 0;
        while i < 36
            invariant
                i <= 36,
                cards@.len() == i,
                forall|j: int| 0 <= j < i ==> cards@[j] == deck@[j],
            decreases 36 - i,
        {
            cards.push(deck[i]);
            i += 1;
        }
        proof {
            assert(cards@ =~= deck@);
        }
        if !crate::deck::is_full_deck(&cards) {
            return None;
        }
        let players = distribute_and_create_players(deck, names);
        let round = Round {
            players,
            trump,
            lead: 0,
            plays: Vec::new(),
            bottom: None,
            points_ac: 0,
            points_bd: 0,
            tricks_ac: 0,
            tricks_bd: 0,
        };
        proof {
            assert forall|s: int| 0 <= s < 4 implies is_dealt_hand(
                #[trigger] round@.hands[s],
                s,
                deck@,
            ) by {
                assert(is_dealt_hand(round.players@[s].hand@, s, deck@));
            }
            lemma_fresh_deal_wf(round@, deck@, trump);
        }
        Some(round)
    }

    /// Shuffles a full deck, deals it and starts a round under `trump`. The
    /// order of the cards is random; the round that starts is in order
    /// whatever the shuffle gave.
    pub fn deal(names: [String; 4], trump: Suit) -> (round: Round)
        ensures
            round@.wf(),
            exists|deck: Seq<Card>| is_deck(deck) && is_fresh_deal(round@, deck, trump),
            forall|s: int| 0 <= s < 4 ==> (#[trigger] round.players@[s]).name == names@[s],
    {
        let cards = crate::deck::shuffled_deck();
        proof {
            lemma_deck_value(cards@, trump);
        }
        let deck = deck_array(&cards);
        let players = distribute_and_create_players(deck, names);
        let round = Round {
            players,
            trump,
            lead: 0,
            plays: Vec::new(),
            bottom: None,
            points_ac: 0,
            points_bd: 0,
            tricks_ac: 0,
            tricks_bd: 0,
        };
        proof {
            assert forall|s: int| 0 <= s < 4 implies is_dealt_hand(
                #[trigger] round@.hands[s],
                s,
                deck@,
            ) by {
                assert(is_dealt_hand(round.players@[s].hand@, s, deck@));
            }
            lemma_fresh_deal_wf(round@, deck@, trump);
            assert(is_deck(deck@) && is_fresh_deal(round@, deck@, trump));
        }
        round
    }

    /// The seat whose turn it is.
    pub fn active_seat(&self) -> (seat: usize)
        requires
            self@.wf(),
        ensures
            seat == self@.active_seat(),
            seat < 4,
    {
        (self.lead + self.plays.len()) % 4
    }

    /// Whether the nine tricks have been decided.
    pub fn is_finished(&self) -> (done: bool)
        requires
            self@.wf(),
        ensures
            done == self@.finished(),
            done == (self.players@[0].hand@.len() == 0 && self.plays@.len() == 0),
    {
        proof {
            let v = self@;
            assert(v.hands[0].len() + v.tricks_done() + (if v.has_played(0) {
                1int
            } else {
                0int
            }) == 9);
            if v.finished() {
                lemma_round_total(v);
            }
            if v.plays.len() == 0 {
                assert(!v.has_played(0));
            }
        }
        self.players[0].hand.len() == 0 && self.plays.len() == 0
    }

    /// The points of the two partnerships so far: seats 0 and 2 first, then
    /// seats 1 and 3. Once the round is over these are the final totals.
    pub fn scores(&self) -> (totals: (u32, u32))
        requires
            self@.wf(),
        ensures
            totals.0 == self@.points_ac,
            totals.1 == self@.points_bd,
            self@.finished() ==> totals.0 + totals.1 == 157 + (if self@.swept() {
                100int
            } else {
                0int
            }),
    {
        proof {
            if self@.finished() {
                lemma_round_total(self@);
            }
        }
        (self.points_ac, self.points_bd)
    }

    /// Recomputes what the active seat may play, for showing it before the
    /// seat is asked. Nothing that the rules see changes.
    pub fn update_playable_cards(&mut self)
        requires
            old(self)@.wf(),
        ensures
            final(self)@ == old(self)@,
            final(self).players@[old(self)@.active_seat()].playable_cards@ == legal_plays(
                old(self)@.hands[old(self)@.active_seat()],
                cards_of(old(self)@.plays),
                old(self)@.trump,
                old(self)@.bottom,
            ),
            forall|s: int|
                0 <= s < 4 && s != old(self)@.active_seat() ==> final(self).players@[s] == old(
                    self,
                ).players@[s],
            forall|s: int|
                0 <= s < 4 ==> (#[trigger] final(self).players@[s]).name == old(
                    self,
                ).players@[s].name,
    {
        let seat = self.active_seat();
        let table = played_cards(&self.plays);
        self.players[seat].update_playable_cards(&table, self.trump, self.bottom);
        proof {
            assert(self@.hands =~= old(self)@.hands);
        }
    }

    /// The active seat answers with position `choice` of its hand, counted
    /// from 1. A legal card goes to the table; the fourth card of a trick
    /// decides it, and the ninth trick ends the round with its bonuses. Any
    /// other answer is refused and the round stays as it was: the same seat
    /// is to be asked again.
    pub fn play(&mut self, choice: usize) -> (r: Result<Step, PlayError>)
        requires
            old(self)@.wf(),
        ensures
            final(self)@.wf(),
            final(self)@ == old(self)@.next(choice as int),
            r == old(self)@.step(choice as int),
            r is Err ==> final(self)@ == old(self)@,
            final(self)@.points_ac >= old(self)@.points_ac,
            final(self)@.points_bd >= old(self)@.points_bd,
            forall|s: int|
                0 <= s < 4 ==> (#[trigger] final(self).players@[s]).name == old(
                    self,
                ).players@[s].name,
    {
        let ghost before = self@;
        proof {
            lemma_next_wf(before, choice as int);
        }
        let seat = self.active_seat();
        let table = played_cards(&self.plays);
        let mut bottom = self.bottom;
        let card = match self.players[seat].play_turn(choice, &table, self.trump, &mut bottom) {
            Err(e) => {
                proof {
                    assert(self@.hands =~= before.hands);
                }
                return Err(e);
            },
            Ok(card) => card,
        };
        self.bottom = bottom;
        let led = match bottom {
            Some(b) => b,
            None => card.suit,
        };
        self.plays.push(TurnInfo::new(card, seat, self.trump, led));
        proof {
            lemma_with_play_consistent(before, choice as int);
            assert(self@.hands =~= before.with_play(choice as int).hands);
            assert(self@ == before.with_play(choice as int));
        }
        if self.plays.len() < 4 {
            return Ok(Step::Played { seat, card });
        }
        let ghost table_full = self@;
        proof {
            lemma_settled_wf(table_full);
            lemma_value_sum_bounds(table_full.hands[0], self.trump);
            lemma_value_sum_bounds(table_full.hands[1], self.trump);
            lemma_value_sum_bounds(table_full.hands[2], self.trump);
            lemma_value_sum_bounds(table_full.hands[3], self.trump);
        }
        let (winner, points) = evaluate_trick(&self.plays);
        let last = self.tricks_ac + self.tricks_bd == 8;
        self.lead = winner;
        if winner % 2 == 0 {
            self.points_ac += points;
            self.tricks_ac += 1;
            if last {
                self.points_ac += 5;
                if self.tricks_ac == 9 {
                    self.points_ac += 100;
                }
            }
        } else {
            self.points_bd += points;
            self.tricks_bd += 1;
            if last {
                self.points_bd += 5;
                if self.tricks_bd == 9 {
                    self.points_bd += 100;
                }
            }
        }
        self.plays = Vec::new();
        self.bottom = None;
        proof {
            assert(self@.hands =~= table_full.settled().hands);
            assert(self@ == table_full.settled());
        }
        if last {
            Ok(Step::RoundOver { card, winner, points })
        } else {
            Ok(Step::TrickWon { card, winner, points })
        }
    }

    /// The active seat answers with a card, named by value. A card that the
    /// seat does not hold is refused; a card that it holds is played as by
    /// `play`, from the first position of the hand that holds it.
    pub fn play_card(&mut self, card: &Card) -> (r: Result<Step, PlayError>)
        requires
            old(self)@.wf(),
        ensures
            final(self)@.wf(),
            !old(self)@.hands[old(self)@.active_seat()].contains(*card) ==> {
                &&& r == Err::<Step, PlayError>(PlayError::CardNotInHand)
                &&& final(self)@ == old(self)@
            },
            old(self)@.hands[old(self)@.active_seat()].contains(*card) ==> {
                let choice = first_position(old(self)@.hands[old(self)@.active_seat()], *card) + 1;
                &&& r == old(self)@.step(choice)
                &&& final(self)@ == old(self)@.next(choice)
                &&& r != Err::<Step, PlayError>(PlayError::IndexOutOfBounds)
                &&& r != Err::<Step, PlayError>(PlayError::CardNotInHand)
            },
            final(self)@.points_ac >= old(self)@.points_ac,
            final(self)@.points_bd >= old(self)@.points_bd,
            forall|s: int|
                0 <= s < 4 ==> (#[trigger] final(self).players@[s]).name == old(
                    self,
                ).players@[s].name,
    {
        let seat = self.active_seat();
        match self.players[seat].position_of(card) {
            None => Err(PlayError::CardNotInHand),
            Some(i) => self.play(i + 1),
        }
    }
}

} // verus!
