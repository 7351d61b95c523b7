use chkobba::capture::{find_combination_match, process_turn, TurnOutcome};
use chkobba::card::{format_cards, new_deck, Card, Rank, Suit};
use chkobba::game::{draw_cards, GameEntity};

fn card(suit: Suit, rank: Rank) -> Card {
    Card { suit, rank }
}

#[test]
fn rank_values_and_labels() {
    assert_eq!(Rank::Ace.value(), 1);
    assert_eq!(Rank::Seven.value(), 7);
    assert_eq!(Rank::Queen.value(), 8);
    assert_eq!(Rank::Jack.value(), 9);
    assert_eq!(Rank::King.value(), 10);
    assert_eq!(Rank::Ace.card_value(), "A");
    assert_eq!(Rank::Five.card_value(), "5");
    assert_eq!(Rank::Queen.card_value(), "Q");
    assert_eq!(Rank::Jack.card_value(), "J");
    assert_eq!(Rank::King.card_value(), "K");
}

#[test]
fn suit_symbols() {
    assert_eq!(Suit::Hearts.symbol(), "♥");
    assert_eq!(Suit::Spades.symbol(), "♠");
    assert_eq!(Suit::Diamonds.symbol(), "♦");
    assert_eq!(Suit::Clubs.symbol(), "♣");
}

// colored's colour switch is global to the process: every check that depends
// on it runs here, one after another, so no other test thread flips it midway.
#[test]
fn format_card_and_format_cards_follow_the_colour_switch() {
    colored::control::set_override(true);
    assert_eq!(
        card(Suit::Diamonds, Rank::Seven).format_card(),
        "\u{1b}[1;47;31m 7♦ \u{1b}[0m"
    );
    assert_eq!(
        card(Suit::Hearts, Rank::Ace).format_card(),
        "\u{1b}[1;41;37m A♥ \u{1b}[0m"
    );
    assert_eq!(
        card(Suit::Clubs, Rank::King).format_card(),
        "\u{1b}[1;40;37m K♣ \u{1b}[0m"
    );
    assert_eq!(
        card(Suit::Spades, Rank::Queen).format_card(),
        "\u{1b}[1;47;30m Q♠ \u{1b}[0m"
    );

    colored::control::set_override(false);
    assert_eq!(card(Suit::Diamonds, Rank::Seven).format_card(), " 7♦ ");
    assert_eq!(card(Suit::Clubs, Rank::Jack).format_card(), " J♣ ");
    let cards = vec![card(Suit::Hearts, Rank::Two), card(Suit::Spades, Rank::Three)];
    assert_eq!(format_cards(&cards), " 2♥   3♠ ");
    assert_eq!(format_cards(&[]), "");
    assert_eq!(format_cards(&[card(Suit::Clubs, Rank::Six)]), " 6♣ ");
}

#[test]
fn new_deck_holds_forty_distinct_cards_in_order() {
    let deck = new_deck();
    assert_eq!(deck.len(), 40);
    assert_eq!(deck[0], card(Suit::Hearts, Rank::Ace));
    assert_eq!(deck[9], card(Suit::Hearts, Rank::King));
    assert_eq!(deck[10], card(Suit::Spades, Rank::Ace));
    assert_eq!(deck[26], card(Suit::Diamonds, Rank::Seven));
    assert_eq!(deck[39], card(Suit::Clubs, Rank::King));
    for i in 0..40 {
        for j in (i + 1)..40 {
            assert_ne!(deck[i], deck[j]);
        }
    }
}

#[test]
fn draw_cards_takes_from_the_top() {
    let mut deck = vec![
        card(Suit::Hearts, Rank::Ace),
        card(Suit::Hearts, Rank::Two),
        card(Suit::Hearts, Rank::Three),
    ];
    let drawn = draw_cards(&mut deck, 2);
    assert_eq!(drawn, vec![card(Suit::Hearts, Rank::Three), card(Suit::Hearts, Rank::Two)]);
    assert_eq!(deck, vec![card(Suit::Hearts, Rank::Ace)]);
}

#[test]
fn draw_cards_stops_when_the_deck_runs_out() {
    let mut deck = vec![card(Suit::Clubs, Rank::Four)];
    let drawn = draw_cards(&mut deck, 3);
    assert_eq!(drawn, vec![card(Suit::Clubs, Rank::Four)]);
    assert!(deck.is_empty());
    let drawn = draw_cards(&mut deck, 2);
    assert!(drawn.is_empty());
}

#[test]
fn combination_match_takes_the_first_in_index_order() {
    // values 2, 3, 4, 1, 5
    let table = vec![
        card(Suit::Hearts, Rank::Two),
        card(Suit::Spades, Rank::Three),
        card(Suit::Clubs, Rank::Four),
        card(Suit::Hearts, Rank::Ace),
        card(Suit::Diamonds, Rank::Five),
    ];
    // 5 = 2+3 (0,1) comes before 4+1 (2,3)
    assert_eq!(find_combination_match(5, &table, 2), Some(([0, 1, 0], 2)));
    assert_eq!(find_combination_match(5, &table, 1), Some(([4, 0, 0], 1)));
    // 6 = 2+3+1 (0,1,3) comes before 2+4? no: 2+4 is a pair; triples: (0,1,3)
    assert_eq!(find_combination_match(6, &table, 3), Some(([0, 1, 3], 3)));
    assert_eq!(find_combination_match(6, &table, 2), Some(([0, 2, 0], 2)));
    assert_eq!(find_combination_match(10, &table, 1), None);
    assert_eq!(find_combination_match(30, &table, 3), None);
}

#[test]
fn combination_match_on_an_empty_table() {
    assert_eq!(find_combination_match(7, &[], 1), None);
    assert_eq!(find_combination_match(7, &[], 3), None);
}

#[test]
fn direct_match_is_captured() {
    let mut table = vec![card(Suit::Spades, Rank::Five), card(Suit::Hearts, Rank::Seven)];
    let mut won = Vec::new();
    let out = process_turn(card(Suit::Clubs, Rank::Seven), &mut table, &mut won);
    assert_eq!(out, TurnOutcome::Direct(card(Suit::Hearts, Rank::Seven)));
    assert_eq!(table, vec![card(Suit::Spades, Rank::Five)]);
    assert_eq!(won, vec![card(Suit::Hearts, Rank::Seven), card(Suit::Clubs, Rank::Seven)]);
}

#[test]
fn direct_match_is_preferred_to_a_pair() {
    let mut table = vec![
        card(Suit::Spades, Rank::Two),
        card(Suit::Spades, Rank::Three),
        card(Suit::Hearts, Rank::Five),
    ];
    let mut won = Vec::new();
    let out = process_turn(card(Suit::Clubs, Rank::Five), &mut table, &mut won);
    assert_eq!(out, TurnOutcome::Direct(card(Suit::Hearts, Rank::Five)));
    assert_eq!(table.len(), 2);
}

#[test]
fn pair_is_captured_in_table_order() {
    let mut table = vec![
        card(Suit::Spades, Rank::Four),
        card(Suit::Hearts, Rank::King),
        card(Suit::Clubs, Rank::Three),
    ];
    let mut won = vec![card(Suit::Diamonds, Rank::Ace)];
    let out = process_turn(card(Suit::Hearts, Rank::Seven), &mut table, &mut won);
    assert_eq!(out, TurnOutcome::Pair(card(Suit::Spades, Rank::Four), card(Suit::Clubs, Rank::Three)));
    assert_eq!(table, vec![card(Suit::Hearts, Rank::King)]);
    assert_eq!(
        won,
        vec![
            card(Suit::Diamonds, Rank::Ace),
            card(Suit::Spades, Rank::Four),
            card(Suit::Clubs, Rank::Three),
            card(Suit::Hearts, Rank::Seven),
        ]
    );
}

#[test]
fn triple_capture_puts_the_dropped_card_first() {
    let mut table = vec![
        card(Suit::Spades, Rank::Two),
        card(Suit::Hearts, Rank::Ace),
        card(Suit::Clubs, Rank::Four),
    ];
    let mut won = Vec::new();
    let out = process_turn(card(Suit::Diamonds, Rank::Seven), &mut table, &mut won);
    assert_eq!(
        out,
        TurnOutcome::Triple(
            card(Suit::Spades, Rank::Two),
            card(Suit::Hearts, Rank::Ace),
            card(Suit::Clubs, Rank::Four)
        )
    );
    assert!(table.is_empty());
    assert_eq!(
        won,
        vec![
            card(Suit::Diamonds, Rank::Seven),
            card(Suit::Spades, Rank::Two),
            card(Suit::Hearts, Rank::Ace),
            card(Suit::Clubs, Rank::Four),
        ]
    );
}

#[test]
fn no_match_leaves_the_card_on_the_table() {
    let mut table = vec![card(Suit::Spades, Rank::King), card(Suit::Hearts, Rank::Jack)];
    let mut won = vec![card(Suit::Clubs, Rank::Two)];
    let out = process_turn(card(Suit::Diamonds, Rank::Ace), &mut table, &mut won);
    assert_eq!(out, TurnOutcome::NoMatch);
    assert_eq!(
        table,
        vec![card(Suit::Spades, Rank::King), card(Suit::Hearts, Rank::Jack), card(Suit::Diamonds, Rank::Ace)]
    );
    assert_eq!(won, vec![card(Suit::Clubs, Rank::Two)]);
}

#[test]
fn a_turn_on_an_empty_table_drops_the_card() {
    let mut table = Vec::new();
    let mut won = Vec::new();
    let out = process_turn(card(Suit::Hearts, Rank::Six), &mut table, &mut won);
    assert_eq!(out, TurnOutcome::NoMatch);
    assert_eq!(table, vec![card(Suit::Hearts, Rank::Six)]);
    assert!(won.is_empty());
}

#[test]
fn a_turn_keeps_every_card() {
    let mut table = vec![
        card(Suit::Spades, Rank::Two),
        card(Suit::Hearts, Rank::Three),
        card(Suit::Clubs, Rank::King),
    ];
    let mut won = vec![card(Suit::Diamonds, Rank::Queen)];
    let dropped = card(Suit::Clubs, Rank::Five);
    let mut before: Vec<Card> = table.iter().chain(won.iter()).cloned().collect();
    before.push(dropped);
    let _ = process_turn(dropped, &mut table, &mut won);
    let after: Vec<Card> = table.iter().chain(won.iter()).cloned().collect();
    assert_eq!(after.len(), before.len());
    for c in &before {
        assert_eq!(
            before.iter().filter(|x| *x == c).count(),
            after.iter().filter(|x| *x == c).count()
        );
    }
}

#[test]
fn other_side_follows_each_side() {
    assert_eq!(GameEntity::Player.other(), GameEntity::Cpu);
    assert_eq!(GameEntity::Cpu.other(), GameEntity::Player);
    assert_eq!(GameEntity::Player.other().other(), GameEntity::Player);
}

#[test]
fn a_pair_is_preferred_to_a_triple() {
    // values 1, 2, 3, 4: 7 = 3+4 (pair) and 7 = 1+2+4 (triple)
    let mut table = vec![
        card(Suit::Hearts, Rank::Ace),
        card(Suit::Hearts, Rank::Two),
        card(Suit::Hearts, Rank::Three),
        card(Suit::Hearts, Rank::Four),
    ];
    let mut won = Vec::new();
    let out = process_turn(card(Suit::Spades, Rank::Seven), &mut table, &mut won);
    assert_eq!(out, TurnOutcome::Pair(card(Suit::Hearts, Rank::Three), card(Suit::Hearts, Rank::Four)));
    assert_eq!(table, vec![card(Suit::Hearts, Rank::Ace), card(Suit::Hearts, Rank::Two)]);
}

#[test]
fn captured_cards_add_up_to_the_dropped_card() {
    let mut table = vec![
        card(Suit::Clubs, Rank::King),
        card(Suit::Hearts, Rank::Two),
        card(Suit::Clubs, Rank::Queen),
        card(Suit::Spades, Rank::Four),
        card(Suit::Spades, Rank::Three),
    ];
    let mut won = Vec::new();
    let dropped = card(Suit::Diamonds, Rank::Jack);
    match process_turn(dropped, &mut table, &mut won) {
        TurnOutcome::Triple(a, b, c) => {
            assert_eq!(a.rank.value() + b.rank.value() + c.rank.value(), dropped.rank.value());
        }
        TurnOutcome::Pair(a, b) => {
            assert_eq!(a.rank.value() + b.rank.value(), dropped.rank.value());
        }
        other => panic!("unexpected outcome {:?}", other),
    }
}
