use jass::card::{Card, Number, Suit};
use jass::deck::{all_cards, card_from_index};
use jass::player::PlayError;
use jass::round::{deck_array, distribute_and_create_players, Round, Step};
use jass::trick::{evaluate_trick, played_cards, TurnInfo};

fn tc(suit: Suit, number: Number) -> Card {
    Card { suit, number }
}

fn names() -> [String; 4] {
    [
        "Alice".to_string(),
        "Bob".to_string(),
        "Charlie".to_string(),
        "Darlene".to_string(),
    ]
}

/// Seat s gets the cards whose position in display order is s modulo 4.
fn interleaved_deck() -> [Card; 36] {
    let mut cards: Vec<Card> = Vec::new();
    for s in 0..4u8 {
        for j in 0..9u8 {
            cards.push(card_from_index(4 * j + s));
        }
    }
    deck_array(&cards)
}

/// Plays the lowest position that is accepted, or the highest.
fn play_one(round: &mut Round, lowest: bool) -> Option<Step> {
    let seat = round.active_seat();
    let n = round.players[seat].hand.len();
    for k in 0..n {
        let choice = if lowest { k + 1 } else { n - k };
        if let Ok(step) = round.play(choice) {
            return Some(step);
        }
    }
    None
}

/// Plays a whole round and returns the winner and points of each trick.
fn play_out(round: &mut Round, lowest: bool) -> Vec<(usize, u32)> {
    let mut tricks: Vec<(usize, u32)> = Vec::new();
    while !round.is_finished() {
        match play_one(round, lowest) {
            Some(Step::Played { .. }) => {}
            Some(Step::TrickWon { winner, points, .. }) => tricks.push((winner, points)),
            Some(Step::RoundOver { winner, points, .. }) => tricks.push((winner, points)),
            None => panic!("no card was accepted"),
        }
    }
    tricks
}

#[test]
fn turn_info_records_power_and_value() {
    let info = TurnInfo::new(tc(Suit::Spades, Number::Nine), 2, Suit::Spades, Suit::Hearts);
    assert_eq!(info.card, tc(Suit::Spades, Number::Nine));
    assert_eq!(info.index, 2);
    assert_eq!(info.power, 19);
    assert_eq!(info.value, 14);
    let plain = TurnInfo::new(tc(Suit::Hearts, Number::Jack), 0, Suit::Spades, Suit::Hearts);
    assert_eq!((plain.power, plain.value), (6, 2));
    let off = TurnInfo::new(tc(Suit::Clubs, Number::Ace), 1, Suit::Spades, Suit::Hearts);
    assert_eq!((off.power, off.value), (0, 11));
}

#[test]
fn evaluate_trick_picks_the_strongest_play() {
    let trump = Suit::Spades;
    let led = Suit::Hearts;
    let plays = vec![
        TurnInfo::new(tc(Suit::Hearts, Number::Ace), 2, trump, led),
        TurnInfo::new(tc(Suit::Spades, Number::Six), 3, trump, led),
        TurnInfo::new(tc(Suit::Clubs, Number::Ace), 0, trump, led),
        TurnInfo::new(tc(Suit::Hearts, Number::Ten), 1, trump, led),
    ];
    assert_eq!(evaluate_trick(&plays), (3, 32));
    assert_eq!(
        played_cards(&plays),
        vec![
            tc(Suit::Hearts, Number::Ace),
            tc(Suit::Spades, Number::Six),
            tc(Suit::Clubs, Number::Ace),
            tc(Suit::Hearts, Number::Ten),
        ]
    );
    let no_trump = vec![
        TurnInfo::new(tc(Suit::Hearts, Number::Ten), 1, trump, led),
        TurnInfo::new(tc(Suit::Hearts, Number::King), 2, trump, led),
        TurnInfo::new(tc(Suit::Clubs, Number::Ace), 3, trump, led),
        TurnInfo::new(tc(Suit::Diamonds, Number::Ace), 0, trump, led),
    ];
    assert_eq!(evaluate_trick(&no_trump), (2, 36));
    let bour = vec![
        TurnInfo::new(tc(Suit::Spades, Number::Nine), 0, trump, trump),
        TurnInfo::new(tc(Suit::Spades, Number::Ace), 1, trump, trump),
        TurnInfo::new(tc(Suit::Spades, Number::Jack), 2, trump, trump),
        TurnInfo::new(tc(Suit::Spades, Number::Ten), 3, trump, trump),
    ];
    assert_eq!(evaluate_trick(&bour), (2, 55));
    let single = vec![TurnInfo::new(tc(Suit::Hearts, Number::Six), 3, trump, led)];
    assert_eq!(evaluate_trick(&single), (3, 0));
}

#[test]
fn equal_powers_go_to_the_later_play() {
    let plays = vec![
        TurnInfo {
            card: tc(Suit::Hearts, Number::Six),
            power: 7,
            value: 1,
            index: 0,
        },
        TurnInfo {
            card: tc(Suit::Hearts, Number::Seven),
            power: 7,
            value: 2,
            index: 1,
        },
        TurnInfo {
            card: tc(Suit::Hearts, Number::Eight),
            power: 3,
            value: 4,
            index: 2,
        },
    ];
    assert_eq!(evaluate_trick(&plays), (1, 7));
}

#[test]
fn deal_gives_nine_sorted_cards_to_each_seat() {
    let players = distribute_and_create_players(interleaved_deck(), names());
    let expected_names = names();
    for s in 0..4 {
        assert_eq!(players[s].name, expected_names[s]);
        assert!(players[s].playable_cards.is_empty());
        let keys: Vec<u8> = players[s].hand.iter().map(|c| c.sort_key()).collect();
        let expected: Vec<u8> = (0..9u8).map(|j| 4 * j + s as u8).collect();
        assert_eq!(keys, expected);
    }
    let mut reversed = all_cards();
    reversed.reverse();
    let players = distribute_and_create_players(deck_array(&reversed), names());
    for s in 0..4 {
        let keys: Vec<u8> = players[s].hand.iter().map(|c| c.sort_key()).collect();
        let first = 27 - 9 * s as u8;
        let expected: Vec<u8> = (first..first + 9).collect();
        assert_eq!(keys, expected);
    }
}

#[test]
fn round_needs_a_full_deck() {
    let mut cards = all_cards();
    cards[0] = cards[1];
    assert!(Round::new(deck_array(&cards), names(), Suit::Spades).is_none());
    let round = Round::new(deck_array(&all_cards()), names(), Suit::Spades).unwrap();
    assert_eq!(round.active_seat(), 0);
    assert!(!round.is_finished());
    assert_eq!(round.scores(), (0, 0));
    assert_eq!(round.lead, 0);
    assert_eq!(round.bottom, None);
    assert!(round.plays.is_empty());
    assert_eq!(round.players[3].hand[5], tc(Suit::Spades, Number::Jack));
}

#[test]
fn refused_play_leaves_the_round_as_it_was() {
    let trump = Suit::Hearts;
    let mut round = Round::new(interleaved_deck(), names(), trump).unwrap();
    assert_eq!(round.play(0), Err(PlayError::IndexOutOfBounds));
    assert_eq!(round.play(10), Err(PlayError::IndexOutOfBounds));
    assert_eq!(round.active_seat(), 0);
    // Seat 0 leads its first card, the Six of Clubs.
    assert_eq!(
        round.play(1),
        Ok(Step::Played {
            seat: 0,
            card: tc(Suit::Clubs, Number::Six)
        })
    );
    assert_eq!(round.bottom, Some(Suit::Clubs));
    assert_eq!(round.active_seat(), 1);
    // Seat 1 holds clubs, so its Queen of Spades may not be played.
    let hand = round.players[1].hand.clone();
    assert_eq!(hand[8], tc(Suit::Spades, Number::Queen));
    assert_eq!(round.play(9), Err(PlayError::IllegalPlay));
    assert_eq!(round.players[1].hand, hand);
    assert_eq!(round.active_seat(), 1);
    assert_eq!(round.plays.len(), 1);
    assert_eq!(round.bottom, Some(Suit::Clubs));
    assert_eq!(round.scores(), (0, 0));
    // Its hearts are trumps and may be played over the plain lead.
    round.update_playable_cards();
    let playable = round.players[1].playable_cards.clone();
    assert_eq!(
        playable,
        vec![
            tc(Suit::Clubs, Number::Seven),
            tc(Suit::Clubs, Number::Jack),
            tc(Suit::Hearts, Number::Nine),
            tc(Suit::Hearts, Number::King),
        ]
    );
    assert_eq!(round.players[1].hand, hand);
}

#[test]
fn one_seat_holding_all_trumps_sweeps() {
    let deck = deck_array(&all_cards());
    let mut round = Round::new(deck, names(), Suit::Spades).unwrap();
    let tricks = play_out(&mut round, true);
    assert_eq!(
        tricks,
        vec![
            (3, 0),
            (3, 0),
            (3, 0),
            (3, 14),
            (3, 40),
            (3, 26),
            (3, 12),
            (3, 16),
            (3, 44)
        ]
    );
    assert_eq!(round.scores(), (0, 257));
    assert_eq!((round.tricks_ac, round.tricks_bd), (0, 9));
    let mut round = Round::new(deck, names(), Suit::Hearts).unwrap();
    play_out(&mut round, true);
    assert_eq!(round.scores(), (257, 0));
    assert_eq!((round.tricks_ac, round.tricks_bd), (9, 0));
}

#[test]
fn full_round_scores_157_between_the_partnerships() {
    let mut round = Round::new(interleaved_deck(), names(), Suit::Spades).unwrap();
    let tricks = play_out(&mut round, true);
    assert_eq!(
        tricks,
        vec![
            (3, 0),
            (3, 19),
            (0, 0),
            (0, 26),
            (1, 15),
            (3, 12),
            (2, 14),
            (3, 28),
            (0, 38)
        ]
    );
    assert_eq!(round.scores(), (83, 74));
    assert_eq!((round.tricks_ac, round.tricks_bd), (4, 5));
    assert_eq!(round.lead, 0);
    assert_eq!(round.scores().0 + round.scores().1 + 5, 162);

    let mut round = Round::new(interleaved_deck(), names(), Suit::Diamonds).unwrap();
    let tricks = play_out(&mut round, false);
    assert_eq!(
        tricks,
        vec![
            (3, 20),
            (3, 10),
            (3, 18),
            (3, 12),
            (1, 15),
            (2, 47),
            (3, 11),
            (3, 19),
            (3, 0)
        ]
    );
    assert_eq!(round.scores(), (47, 110));
    assert_eq!((round.tricks_ac, round.tricks_bd), (1, 8));

    let mut round = Round::new(interleaved_deck(), names(), Suit::Clubs).unwrap();
    play_out(&mut round, true);
    assert_eq!(round.scores(), (29, 128));
    let mut round = Round::new(interleaved_deck(), names(), Suit::Hearts).unwrap();
    play_out(&mut round, false);
    assert_eq!(round.scores(), (18, 139));
}

#[test]
fn last_card_ends_the_round_and_nothing_more_is_accepted() {
    let mut round = Round::new(interleaved_deck(), names(), Suit::Spades).unwrap();
    let mut last = None;
    while !round.is_finished() {
        last = play_one(&mut round, true);
        assert!(last.is_some());
    }
    assert_eq!(
        last,
        Some(Step::RoundOver {
            card: tc(Suit::Spades, Number::King),
            winner: 0,
            points: 38
        })
    );
    assert_eq!(round.play(1), Err(PlayError::IndexOutOfBounds));
    assert_eq!(round.play(0), Err(PlayError::IndexOutOfBounds));
    assert_eq!(round.scores(), (83, 74));
    assert!(round.is_finished());
}

#[test]
fn hands_shrink_together_and_empty_together() {
    let mut round = Round::new(interleaved_deck(), names(), Suit::Diamonds).unwrap();
    let mut decided = 0;
    let mut before = round.scores();
    while !round.is_finished() {
        let step = play_one(&mut round, true);
        let now = round.scores();
        assert!(now.0 >= before.0 && now.1 >= before.1);
        before = now;
        match step {
            Some(Step::Played { .. }) => {
                assert!(!round.plays.is_empty());
            }
            Some(_) => {
                decided += 1;
                assert!(round.plays.is_empty());
                assert_eq!(round.bottom, None);
                for s in 0..4 {
                    assert_eq!(round.players[s].hand.len(), 9 - decided);
                }
                if round.players[0].hand.is_empty() {
                    assert!(round.players.iter().all(|p| p.hand.is_empty()));
                    assert!(round.is_finished());
                }
            }
            None => panic!("no card was accepted"),
        }
    }
    assert_eq!(decided, 9);
    assert_eq!(round.scores(), (83, 74));
}

#[test]
fn shuffled_round_keeps_the_total() {
    for _ in 0..25 {
        let mut round = Round::deal(names(), Suit::Hearts);
        let mut all: Vec<Card> = Vec::new();
        for s in 0..4 {
            assert_eq!(round.players[s].hand.len(), 9);
            all.extend(round.players[s].hand.iter().copied());
        }
        assert!(jass::deck::is_full_deck(&all));
        let mut stuck = false;
        while !round.is_finished() && !stuck {
            if play_one(&mut round, true).is_none() {
                round.update_playable_cards();
                let seat = round.active_seat();
                assert!(round.players[seat].playable_cards.is_empty());
                stuck = true;
            }
        }
        let (ac, bd) = round.scores();
        if stuck {
            assert!(ac + bd <= 152);
        } else if round.tricks_ac == 9 || round.tricks_bd == 9 {
            assert_eq!(ac + bd, 257);
        } else {
            assert_eq!(ac + bd, 157);
        }
    }
}

#[test]
fn play_card_names_the_card_by_value() {
    let trump = Suit::Hearts;
    let mut round = Round::new(interleaved_deck(), names(), trump).unwrap();
    // Seat 0 does not hold the Seven of Clubs.
    assert_eq!(
        round.play_card(&tc(Suit::Clubs, Number::Seven)),
        Err(PlayError::CardNotInHand)
    );
    assert_eq!(round.active_seat(), 0);
    assert_eq!(round.players[0].hand.len(), 9);
    assert_eq!(
        round.play_card(&tc(Suit::Clubs, Number::Ten)),
        Ok(Step::Played {
            seat: 0,
            card: tc(Suit::Clubs, Number::Ten)
        })
    );
    assert_eq!(round.players[0].hand.len(), 8);
    assert_eq!(round.bottom, Some(Suit::Clubs));
    // Seat 1 holds clubs: its Six of Diamonds is in the hand but not legal.
    assert_eq!(
        round.play_card(&tc(Suit::Diamonds, Number::Six)),
        Err(PlayError::IllegalPlay)
    );
    assert_eq!(round.players[1].hand.len(), 9);
    assert_eq!(
        round.play_card(&tc(Suit::Clubs, Number::Jack)),
        Ok(Step::Played {
            seat: 1,
            card: tc(Suit::Clubs, Number::Jack)
        })
    );
    // Seat 2 holds the Eight and the Queen of Clubs.
    assert_eq!(
        round.play_card(&tc(Suit::Clubs, Number::Queen)),
        Ok(Step::Played {
            seat: 2,
            card: tc(Suit::Clubs, Number::Queen)
        })
    );
    // Seat 3 takes the trick with the trump Jack: 10 + 2 + 3 + 20 points.
    assert_eq!(
        round.play_card(&tc(Suit::Hearts, Number::Jack)),
        Ok(Step::TrickWon {
            card: tc(Suit::Hearts, Number::Jack),
            winner: 3,
            points: 35
        })
    );
    assert_eq!(round.scores(), (0, 35));
    assert_eq!(round.active_seat(), 3);
    assert_eq!(round.lead, 3);
    assert_eq!((round.tricks_ac, round.tricks_bd), (0, 1));
}
