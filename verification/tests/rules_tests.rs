use jass::card::{Card, Number, Suit};
use jass::player::Player;
use jass::rules::{contains_card, copy_cards, has_suit, highest_trump_power, playable_from};

fn rc(suit: Suit, number: Number) -> Card {
    Card { suit, number }
}

#[test]
fn leader_may_play_anything() {
    let hand = vec![
        rc(Suit::Clubs, Number::Six),
        rc(Suit::Hearts, Number::Ace),
        rc(Suit::Spades, Number::Jack),
    ];
    assert_eq!(playable_from(&hand, &Vec::new(), Suit::Spades, None), hand);
    let lone = vec![rc(Suit::Spades, Number::Jack)];
    assert_eq!(playable_from(&lone, &Vec::new(), Suit::Spades, None), lone);
    let none: Vec<Card> = Vec::new();
    assert_eq!(playable_from(&none, &Vec::new(), Suit::Spades, None), none);
}

#[test]
fn trump_led_forces_trump() {
    let trump = Suit::Spades;
    let table = vec![rc(Suit::Spades, Number::Jack)];
    let hand = vec![
        rc(Suit::Clubs, Number::Six),
        rc(Suit::Hearts, Number::Ace),
        rc(Suit::Spades, Number::Six),
        rc(Suit::Spades, Number::Ace),
    ];
    assert_eq!(
        playable_from(&hand, &table, trump, Some(trump)),
        vec![rc(Suit::Spades, Number::Six), rc(Suit::Spades, Number::Ace)]
    );
    let void = vec![rc(Suit::Clubs, Number::Six), rc(Suit::Hearts, Number::Ace)];
    assert_eq!(playable_from(&void, &table, trump, Some(trump)), void);
}

#[test]
fn bour_led_scenario() {
    // Seat 0 leads the trump Jack: the led suit becomes the trump suit.
    let trump = Suit::Spades;
    let mut leader = Player::new(
        vec![rc(Suit::Hearts, Number::Six), rc(Suit::Spades, Number::Jack)],
        "north".to_string(),
    );
    let mut bottom: Option<Suit> = None;
    let led = leader.play_turn(2, &Vec::new(), trump, &mut bottom);
    assert_eq!(led, Ok(rc(Suit::Spades, Number::Jack)));
    assert_eq!(bottom, Some(Suit::Spades));
    let table = vec![rc(Suit::Spades, Number::Jack)];
    // A seat that holds a spade must play a spade.
    let follower = vec![
        rc(Suit::Diamonds, Number::Ace),
        rc(Suit::Spades, Number::Seven),
        rc(Suit::Spades, Number::Nine),
    ];
    assert_eq!(
        playable_from(&follower, &table, trump, bottom),
        vec![rc(Suit::Spades, Number::Seven), rc(Suit::Spades, Number::Nine)]
    );
    // A seat whose only trump is the Jack keeps its whole hand.
    let keeper = vec![
        rc(Suit::Clubs, Number::King),
        rc(Suit::Hearts, Number::Eight),
        rc(Suit::Spades, Number::Jack),
    ];
    assert_eq!(playable_from(&keeper, &Vec::new(), trump, Some(trump)), keeper);
}

#[test]
fn lone_bour_is_widened_to_the_whole_hand() {
    let trump = Suit::Hearts;
    let hand = vec![
        rc(Suit::Clubs, Number::Six),
        rc(Suit::Diamonds, Number::Ten),
        rc(Suit::Hearts, Number::Jack),
    ];
    let table = vec![rc(Suit::Hearts, Number::Six)];
    assert_eq!(playable_from(&hand, &table, trump, Some(trump)), hand);
    // With a second trump in the hand the constraint stands.
    let two = vec![
        rc(Suit::Clubs, Number::Six),
        rc(Suit::Hearts, Number::Seven),
        rc(Suit::Hearts, Number::Jack),
    ];
    assert_eq!(
        playable_from(&two, &table, trump, Some(trump)),
        vec![rc(Suit::Hearts, Number::Seven), rc(Suit::Hearts, Number::Jack)]
    );
    // A lone trump that is not the Jack is forced.
    let nine = vec![rc(Suit::Clubs, Number::Six), rc(Suit::Hearts, Number::Nine)];
    assert_eq!(
        playable_from(&nine, &table, trump, Some(trump)),
        vec![rc(Suit::Hearts, Number::Nine)]
    );
}

#[test]
fn trump_jack_on_the_table_leaves_only_the_led_suit() {
    let trump = Suit::Diamonds;
    let led = Suit::Spades;
    let table = vec![rc(Suit::Spades, Number::Ten), rc(Suit::Diamonds, Number::Jack)];
    assert_eq!(highest_trump_power(&table, trump, led), 20);
    let hand = vec![
        rc(Suit::Clubs, Number::Ace),
        rc(Suit::Diamonds, Number::Nine),
        rc(Suit::Diamonds, Number::Ace),
        rc(Suit::Spades, Number::Six),
        rc(Suit::Spades, Number::King),
    ];
    assert_eq!(
        playable_from(&hand, &table, trump, Some(led)),
        vec![rc(Suit::Spades, Number::Six), rc(Suit::Spades, Number::King)]
    );
}

#[test]
fn following_suit_allows_an_over_trump() {
    let trump = Suit::Diamonds;
    let led = Suit::Spades;
    let table = vec![rc(Suit::Spades, Number::Ten), rc(Suit::Diamonds, Number::Queen)];
    assert_eq!(highest_trump_power(&table, trump, led), 16);
    let hand = vec![
        rc(Suit::Clubs, Number::Ace),
        rc(Suit::Diamonds, Number::Ten),
        rc(Suit::Diamonds, Number::King),
        rc(Suit::Diamonds, Number::Nine),
        rc(Suit::Spades, Number::Six),
    ];
    assert_eq!(
        playable_from(&hand, &table, trump, Some(led)),
        vec![
            rc(Suit::Diamonds, Number::King),
            rc(Suit::Diamonds, Number::Nine),
            rc(Suit::Spades, Number::Six),
        ]
    );
}

#[test]
fn void_in_led_suit_allows_discards_and_over_trumps() {
    let trump = Suit::Diamonds;
    let led = Suit::Spades;
    let table = vec![rc(Suit::Spades, Number::Ten), rc(Suit::Diamonds, Number::Queen)];
    let hand = vec![
        rc(Suit::Clubs, Number::Ace),
        rc(Suit::Diamonds, Number::Ten),
        rc(Suit::Diamonds, Number::King),
        rc(Suit::Hearts, Number::Six),
    ];
    assert_eq!(
        playable_from(&hand, &table, trump, Some(led)),
        vec![
            rc(Suit::Clubs, Number::Ace),
            rc(Suit::Diamonds, Number::King),
            rc(Suit::Hearts, Number::Six),
        ]
    );
    // No trump on the table: every trump beats the threshold of 0.
    let quiet = vec![rc(Suit::Spades, Number::Ten)];
    assert_eq!(highest_trump_power(&quiet, trump, led), 0);
    assert_eq!(playable_from(&hand, &quiet, trump, Some(led)), hand);
}

#[test]
fn legal_set_is_not_empty_for_ordinary_hands() {
    let suits = [Suit::Clubs, Suit::Diamonds, Suit::Hearts, Suit::Spades];
    let hand = vec![
        rc(Suit::Clubs, Number::Ace),
        rc(Suit::Diamonds, Number::Ten),
        rc(Suit::Hearts, Number::Six),
    ];
    let table = vec![rc(Suit::Spades, Number::Ten), rc(Suit::Diamonds, Number::Jack)];
    for &trump in suits.iter() {
        assert!(!playable_from(&hand, &Vec::new(), trump, None).is_empty());
        for &led in suits.iter() {
            assert!(!playable_from(&hand, &table, trump, Some(led)).is_empty());
        }
    }
}

#[test]
fn hand_of_low_trumps_under_a_higher_trump_has_no_play() {
    let trump = Suit::Diamonds;
    let led = Suit::Spades;
    let table = vec![rc(Suit::Spades, Number::Ace), rc(Suit::Diamonds, Number::Nine)];
    let hand = vec![rc(Suit::Diamonds, Number::Six), rc(Suit::Diamonds, Number::Ace)];
    assert!(playable_from(&hand, &table, trump, Some(led)).is_empty());
    // One plain card is enough to have a play again.
    let mixed = vec![rc(Suit::Clubs, Number::Six), rc(Suit::Diamonds, Number::Six)];
    assert_eq!(
        playable_from(&mixed, &table, trump, Some(led)),
        vec![rc(Suit::Clubs, Number::Six)]
    );
}

#[test]
fn highest_trump_power_is_the_maximum_over_the_trumps_played() {
    let trump = Suit::Clubs;
    let led = Suit::Hearts;
    assert_eq!(highest_trump_power(&Vec::new(), trump, led), 0);
    let table = vec![
        rc(Suit::Hearts, Number::Ace),
        rc(Suit::Clubs, Number::Nine),
        rc(Suit::Clubs, Number::Ace),
    ];
    assert_eq!(highest_trump_power(&table, trump, led), 19);
    let rising = vec![
        rc(Suit::Clubs, Number::Six),
        rc(Suit::Hearts, Number::Ace),
        rc(Suit::Clubs, Number::Ten),
    ];
    assert_eq!(highest_trump_power(&rising, trump, led), 14);
}

#[test]
fn has_suit_and_contains_card_search_by_value() {
    let hand = vec![rc(Suit::Clubs, Number::Ace), rc(Suit::Hearts, Number::Six)];
    assert!(has_suit(&hand, Suit::Clubs));
    assert!(has_suit(&hand, Suit::Hearts));
    assert!(!has_suit(&hand, Suit::Spades));
    assert!(!has_suit(&Vec::new(), Suit::Clubs));
    assert!(contains_card(&hand, &rc(Suit::Hearts, Number::Six)));
    assert!(!contains_card(&hand, &rc(Suit::Hearts, Number::Seven)));
    assert!(!contains_card(&hand, &rc(Suit::Clubs, Number::Six)));
    assert_eq!(copy_cards(&hand), hand);
}
