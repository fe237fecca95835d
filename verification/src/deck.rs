//! The deck of 36 cards: what a full deck is, how much it is worth, how it is
//! shuffled, and how a hand is put in display order.

use crate::card::{card_value, display_index, Card, Number, Suit};
use rand::seq::SliceRandom;
use vstd::prelude::*;
use vstd::relations::{sorted_by, total_ordering};
use vstd::seq_lib::{
    lemma_sorted_unique, to_multiset_build, to_multiset_contains, to_multiset_insert,
    to_multiset_len, to_multiset_remove,
};

verus! {

/// The suit at position `q` of the display order.
pub open spec fn suit_at(q: int) -> Suit {
    if q == 0 {
        Suit::Clubs
    } else if q == 1 {
        Suit::Diamonds
    } else if q == 2 {
        Suit::Hearts
    } else {
        Suit::Spades
    }
}

/// The rank at position `r` of the plain ranking, counted from 0.
pub open spec fn number_at(r: int) -> Number {
    if r == 0 {
        Number::Six
    } else if r == 1 {
        Number::Seven
    } else if r == 2 {
        Number::Eight
    } else if r == 3 {
        Number::Nine
    } else if r == 4 {
        Number::Ten
    } else if r == 5 {
        Number::Jack
    } else if r == 6 {
        Number::Queen
    } else if r == 7 {
        Number::King
    } else {
        Number::Ace
    }
}

/// The card at position `k` of the display order.
pub open spec fn card_at(k: int) -> Card {
    Card { suit: suit_at(k / 9), number: number_at(k % 9) }
}

/// The 36 cards in display order.
pub open spec fn full_deck() -> Seq<Card> {
    Seq::new(36, |k: int| card_at(k))
}

/// Whether `cards` holds each of the 36 cards exactly once, in any order.
pub open spec fn is_deck(cards: Seq<Card>) -> bool {
    cards.to_multiset() == full_deck().to_multiset()
}

/// The points of all of `cards` together.
pub open spec fn value_sum(cards: Seq<Card>, trump: Suit) -> int
    decreases cards.len(),
{
    if cards.len() == 0 {
        0
    } else {
        value_sum(cards.drop_last(), trump) + card_value(cards.last(), trump)
    }
}

/// Whether `cards` stands in display order.
pub open spec fn display_sorted(cards: Seq<Card>) -> bool {
    forall|i: int, j: int|
        0 <= i < j < cards.len() ==> display_index(#[trigger] cards[i]) <= display_index(
            #[trigger] cards[j],
        )
}

/// `card_at` undoes `display_index`, and the other way round.
pub proof fn lemma_display_index_numbers_the_cards()
    ensures
        forall|c: Card| 0 <= #[trigger] display_index(c) < 36 && card_at(display_index(c)) == c,
        forall|k: int| 0 <= k < 36 ==> display_index(#[trigger] card_at(k)) == k,
{
    assert forall|c: Card| 0 <= #[trigger] display_index(c) < 36 && card_at(display_index(c))
        == c by {
        let q = crate::card::suit_index(c.suit);
        let r = crate::card::rank_of(c.number) - 1;
        assert((q * 9 + r) / 9 == q && (q * 9 + r) % 9 == r) by (nonlinear_arith)
            requires
                0 <= q < 4,
                0 <= r < 9,
        ;
    }
    assert forall|k: int| 0 <= k < 36 implies display_index(#[trigger] card_at(k)) == k by {
        assert(0 <= k / 9 < 4 && 0 <= k % 9 < 9 && (k / 9) * 9 + k % 9 == k) by (nonlinear_arith)
            requires
                0 <= k < 36,
        ;
    }
}

/// A sum of values is not negative, and no card is worth more than 20.
pub proof fn lemma_value_sum_bounds(cards: Seq<Card>, trump: Suit)
    ensures
        0 <= value_sum(cards, trump) <= 20 * cards.len(),
    decreases cards.len(),
{
    if cards.len() > 0 {
        lemma_value_sum_bounds(cards.drop_last(), trump);
    }
}

/// Taking one card out lowers the sum by that card's value.
pub proof fn lemma_value_sum_remove(cards: Seq<Card>, i: int, trump: Suit)
    requires
        0 <= i < cards.len(),
    ensures
        value_sum(cards, trump) == value_sum(cards.remove(i), trump) + card_value(cards[i], trump),
    decreases cards.len(),
{
    if i == cards.len() - 1 {
        assert(cards.remove(i) =~= cards.drop_last());
    } else {
        lemma_value_sum_remove(cards.drop_last(), i, trump);
        assert(cards.remove(i).drop_last() =~= cards.drop_last().remove(i));
        assert(cards.remove(i).last() == cards.last());
    }
}

/// The sum over two piles laid end to end is the sum of their sums.
pub proof fn lemma_value_sum_concat(a: Seq<Card>, b: Seq<Card>, trump: Suit)
    ensures
        value_sum(a + b, trump) == value_sum(a, trump) + value_sum(b, trump),
    decreases b.len(),
{
    if b.len() == 0 {
        assert(a + b =~= a);
    } else {
        lemma_value_sum_concat(a, b.drop_last(), trump);
        assert((a + b).drop_last() =~= a + b.drop_last());
    }
}

/// The order of the cards does not matter to their sum.
pub proof fn lemma_value_sum_permutation(a: Seq<Card>, b: Seq<Card>, trump: Suit)
    requires
        a.to_multiset() == b.to_multiset(),
    ensures
        value_sum(a, trump) == value_sum(b, trump),
    decreases a.len(),
{
    to_multiset_len(a);
    to_multiset_len(b);
    if a.len() > 0 {
        let x = a.last();
        let n = a.len() - 1;
        assert(a.contains(x)) by {
            assert(a[n] == x);
        }
        to_multiset_contains(a, x);
        to_multiset_contains(b, x);
        let j = choose|j: int| 0 <= j < b.len() && b[j] == x;
        to_multiset_remove(a, n);
        to_multiset_remove(b, j);
        assert(a.remove(n) =~= a.drop_last());
        lemma_value_sum_permutation(a.drop_last(), b.remove(j), trump);
        lemma_value_sum_remove(b, j, trump);
    }
}

/// The points of the first `n` cards of the display order.
pub open spec fn prefix_value(n: nat, trump: Suit) -> int
    decreases n,
{
    if n == 0 {
        0
    } else {
        prefix_value((n - 1) as nat, trump) + card_value(card_at(n - 1), trump)
    }
}

/// The sum over the first `n` cards of the full deck is `prefix_value`.
proof fn lemma_prefix_value(n: nat, trump: Suit)
    requires
        n <= 36,
    ensures
        value_sum(full_deck().take(n as int), trump) == prefix_value(n, trump),
    decreases n,
{
    if n > 0 {
        lemma_prefix_value((n - 1) as nat, trump);
        assert(full_deck().take(n as int).drop_last() =~= full_deck().take(n - 1));
    }
}

/// The card of suit number `q` and rank number `r` stands at `9 * q + r`.
proof fn lemma_card_at(q: int, r: int)
    requires
        0 <= q,
        0 <= r < 9,
    ensures
        card_at(9 * q + r) == (Card { suit: suit_at(q), number: number_at(r) }),
{
    assert((9 * q + r) / 9 == q && (9 * q + r) % 9 == r) by (nonlinear_arith)
        requires
            0 <= q,
            0 <= r < 9,
    ;
}

/// The nine cards of one suit are worth 62 points in trump and 30 otherwise.
proof fn lemma_suit_value(q: nat, trump: Suit)
    requires
        q < 4,
    ensures
        prefix_value(9 * q + 9, trump) == prefix_value(9 * q, trump) + (if suit_at(q as int)
            == trump {
            62int
        } else {
            30int
        }),
{
    reveal_with_fuel(prefix_value, 10);
    lemma_card_at(q as int, 0);
    lemma_card_at(q as int, 1);
    lemma_card_at(q as int, 2);
    lemma_card_at(q as int, 3);
    lemma_card_at(q as int, 4);
    lemma_card_at(q as int, 5);
    lemma_card_at(q as int, 6);
    lemma_card_at(q as int, 7);
    lemma_card_at(q as int, 8);
}

/// The 36 cards are worth 152 points together, whatever the trump suit.
pub proof fn lemma_full_deck_value(trump: Suit)
    ensures
        value_sum(full_deck(), trump) == 152,
{
    lemma_prefix_value(36, trump);
    assert(full_deck().take(36) =~= full_deck());
    lemma_suit_value(0, trump);
    lemma_suit_value(1, trump);
    lemma_suit_value(2, trump);
    lemma_suit_value(3, trump);
    assert(prefix_value(0, trump) == 0);
}

/// A deck is worth 152 points in whatever order it lies.
pub proof fn lemma_deck_value(cards: Seq<Card>, trump: Suit)
    requires
        is_deck(cards),
    ensures
        value_sum(cards, trump) == 152,
        cards.len() == 36,
{
    lemma_full_deck_value(trump);
    lemma_value_sum_permutation(cards, full_deck(), trump);
    to_multiset_len(cards);
    to_multiset_len(full_deck());
}

/// The full deck holds no card twice, and neither does any deck.
pub proof fn lemma_full_deck_has_each_card_once()
    ensures
        full_deck().no_duplicates(),
        forall|c: Card| #[trigger] full_deck().to_multiset().count(c) == 1,
        forall|cards: Seq<Card>| #[trigger] is_deck(cards) ==> cards.no_duplicates(),
{
    lemma_display_index_numbers_the_cards();
    assert forall|i: int, j: int|
        0 <= i < full_deck().len() && 0 <= j < full_deck().len() && i != j implies full_deck()[i]
        != full_deck()[j] by {
        assert(display_index(card_at(i)) == i);
        assert(display_index(card_at(j)) == j);
    }
    full_deck().lemma_multiset_has_no_duplicates();
    assert forall|c: Card| #[trigger] full_deck().to_multiset().count(c) == 1 by {
        let k = display_index(c);
        assert(full_deck()[k] == c);
        assert(full_deck().contains(c));
        to_multiset_contains(full_deck(), c);
    }
    assert forall|cards: Seq<Card>| #[trigger] is_deck(cards) implies cards.no_duplicates() by {
        cards.lemma_multiset_has_no_duplicates_conv();
    }
}

/// "Comes no later in display order than", as a relation on cards.
pub open spec fn display_leq() -> spec_fn(Card, Card) -> bool {
    |a: Card, b: Card| display_index(a) <= display_index(b)
}

/// The display order is a total order on the 36 cards, and the full deck
/// stands in it.
pub proof fn lemma_display_order()
    ensures
        total_ordering(display_leq()),
        sorted_by(full_deck(), display_leq()),
        display_sorted(full_deck()),
        forall|cards: Seq<Card>| #[trigger]
            display_sorted(cards) <==> sorted_by(cards, display_leq()),
{
    lemma_display_index_numbers_the_cards();
    let leq = display_leq();
    assert forall|x: Card, y: Card| #[trigger] leq(x, y) && #[trigger] leq(y, x) implies x
        == y by {
        assert(card_at(display_index(x)) == x);
        assert(card_at(display_index(y)) == y);
    }
    assert forall|i: int, j: int| 0 <= i < j < full_deck().len() implies #[trigger] leq(
        full_deck()[i],
        full_deck()[j],
    ) by {
        assert(display_index(card_at(i)) == i);
        assert(display_index(card_at(j)) == j);
    }
    assert forall|cards: Seq<Card>| #[trigger]
        display_sorted(cards) <==> sorted_by(cards, display_leq()) by {
        if display_sorted(cards) {
            assert forall|i: int, j: int| 0 <= i < j < cards.len() implies #[trigger] leq(
                cards[i],
                cards[j],
            ) by {}
        }
        if sorted_by(cards, leq) {
            assert forall|i: int, j: int| 0 <= i < j < cards.len() implies display_index(
                #[trigger] cards[i],
            ) <= display_index(#[trigger] cards[j]) by {
                assert(leq(cards[i], cards[j]));
            }
        }
    }
}

/// The card at position `k` of the display order.
pub fn card_from_index(k: u8) -> (c: Card)
    requires
        k < 36,
    ensures
        c == card_at(k as int),
        display_index(c) == k,
{
    let q: u8 = k / 9;
    let r: u8 = k % 9;
    let suit = if q == 0 {
        Suit::Clubs
    } else if q == 1 {
        Suit::Diamonds
    } else if q == 2 {
        Suit::Hearts
    } else {
        Suit::Spades
    };
    let number = if r == 0 {
        Number::Six
    } else if r == 1 {
        Number::Seven
    } else if r == 2 {
        Number::Eight
    } else if r == 3 {
        Number::Nine
    } else if r == 4 {
        Number::Ten
    } else if r == 5 {
        Number::Jack
    } else if r == 6 {
        Number::Queen
    } else if r == 7 {
        Number::King
    } else {
        Number::Ace
    };
    proof {
        lemma_display_index_numbers_the_cards();
    }
    Card { suit, number }
}

/// The 36 cards in display order: the clubs from Six to Ace, then the
/// diamonds, the hearts and the spades.
pub fn all_cards() -> (deck: Vec<Card>)
    ensures
        deck@ == full_deck(),
        is_deck(deck@),
{
    let mut deck: Vec<Card> = Vec::new();
    let mut k: u8 = 0;
    while k < 36
        invariant
            k <= 36,
            deck@.len() == k,
            forall|j: int| 0 <= j < k ==> deck@[j] == card_at(j),
        decreases 36 - k,
    {
        deck.push(card_from_index(k));
        k += 1;
    }
    proof {
        assert(deck@ =~= full_deck());
    }
    deck
}

/// Shuffles `cards` in place with `rand`'s `SliceRandom::shuffle`, drawing
/// from the generator of the current thread (`rand::thread_rng`). The shuffle
/// only swaps positions of the slice, so the contract says that the cards are
/// the same ones as before, each as often as before; it says nothing of their
/// new order, which is random.
#[verifier::external_body]
fn shuffle_in_place(cards: &mut Vec<Card>)
    ensures
        final(cards)@.to_multiset() == old(cards)@.to_multiset(),
{
    cards.shuffle(&mut rand::thread_rng());
}

/// Puts `cards` in a random order. Whatever the order, the cards are the same
/// as before, so a deck stays a deck and keeps its worth.
pub fn shuffle(cards: &mut Vec<Card>)
    ensures
        final(cards)@.to_multiset() == old(cards)@.to_multiset(),
        final(cards)@.len() == old(cards)@.len(),
        is_deck(old(cards)@) ==> is_deck(final(cards)@),
        forall|trump: Suit| #[trigger]
            value_sum(final(cards)@, trump) == value_sum(old(cards)@, trump),
{
    shuffle_in_place(cards);
    proof {
        to_multiset_len(cards@);
        to_multiset_len(old(cards)@);
        assert forall|trump: Suit| #[trigger]
            value_sum(cards@, trump) == value_sum(old(cards)@, trump) by {
            lemma_value_sum_permutation(cards@, old(cards)@, trump);
        }
    }
}

/// A full deck in a random order.
pub fn shuffled_deck() -> (deck: Vec<Card>)
    ensures
        is_deck(deck@),
{
    let mut deck = all_cards();
    shuffle(&mut deck);
    deck
}

/// Puts `cards` in display order: by suit, then by rank.
pub fn sort_cards(cards: &mut Vec<Card>)
    ensures
        display_sorted(final(cards)@),
        final(cards)@.to_multiset() == old(cards)@.to_multiset(),
        final(cards)@.len() == old(cards)@.len(),
{
    let mut sorted: Vec<Card> = Vec::new();
    let mut i: usize = 0;
    proof {
        assert(cards@.take(0) =~= sorted@);
    }
    while i < cards.len()
        invariant
            i <= cards.len(),
            cards == old(cards),
            display_sorted(sorted@),
            sorted@.to_multiset() == cards@.take(i as int).to_multiset(),
        decreases cards.len() - i,
    {
        let c = cards[i];
        let key = c.sort_key();
        let mut p: usize = 0;
        while p < sorted.len() && sorted[p].sort_key() <= key
            invariant
                p <= sorted.len(),
                key == display_index(c),
                forall|j: int| 0 <= j < p ==> display_index(#[trigger] sorted@[j]) <= key,
            decreases sorted.len() - p,
        {
            p += 1;
        }
        let ghost before = sorted@;
        sorted.insert(p, c);
        proof {
            to_multiset_insert(before, p as int, c);
            to_multiset_build(cards@.take(i as int), c);
            assert(cards@.take(i + 1) =~= cards@.take(i as int).push(c));
            assert forall|a: int, b: int| 0 <= a < b < sorted@.len() implies display_index(
                #[trigger] sorted@[a],
            ) <= display_index(#[trigger] sorted@[b]) by {
                if a < p && b > p {
                    assert(sorted@[a] == before[a]);
                    assert(sorted@[b] == before[b - 1]);
                } else if a < p && b == p {
                    assert(sorted@[a] == before[a]);
                } else if a < p {
                    assert(sorted@[a] == before[a]);
                    assert(sorted@[b] == before[b]);
                } else if a == p {
                    assert(sorted@[b] == before[b - 1]);
                    assert(display_index(before[p as int]) > key);
                    if b - 1 > p {
                        assert(display_index(before[p as int]) <= display_index(before[b - 1]));
                    }
                } else {
                    assert(sorted@[a] == before[a - 1]);
                    assert(sorted@[b] == before[b - 1]);
                }
            }
        }
        i += 1;
    }
    proof {
        assert(cards@.take(cards.len() as int) =~= cards@);
        to_multiset_len(sorted@);
        to_multiset_len(cards@);
    }
    *cards = sorted;
}

/// Whether `cards` is a full deck: each of the 36 cards once, in any order.
pub fn is_full_deck(cards: &Vec<Card>) -> (full: bool)
    ensures
        full == is_deck(cards@),
{
    proof {
        to_multiset_len(cards@);
        to_multiset_len(full_deck());
    }
    if cards.len() != 36 {
        return false;
    }
    let mut ordered: Vec<Card> = crate::rules::copy_cards(cards);
    sort_cards(&mut ordered);
    let reference = all_cards();
    proof {
        lemma_display_order();
        if is_deck(cards@) {
            lemma_sorted_unique(ordered@, full_deck(), display_leq());
        }
    }
    let mut k: usize = 0;
    while k < 36
        invariant
            k <= 36,
            ordered@.len() == 36,
            reference@ == full_deck(),
            ordered@.to_multiset() == cards@.to_multiset(),
            is_deck(cards@) ==> ordered@ == full_deck(),
            forall|j: int| 0 <= j < k ==> ordered@[j] == reference@[j],
        decreases 36 - k,
    {
        if ordered[k] != reference[k] {
            return false;
        }
        k += 1;
    }
    proof {
        assert(ordered@ =~= full_deck());
    }
    true
}

} // verus!
