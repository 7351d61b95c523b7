use chkobba::audio::{is_muted, toggle_mute, MuteSwitch};
use chkobba::capture::TurnOutcome;
use chkobba::card::{new_deck, Card, Rank, Suit};
use chkobba::cpu::evaluate_blind_cut_card;
use chkobba::game::{dealer_from_coin, pick_initial_dealer, GameEntity, MatchState, Phase, Sweep};
use chkobba::input::{
    card_choice_from_parsed, interpret_card_choice, interpret_yes_no, menu_step, yes_no_from_word,
    ChoiceError, MenuAction, MenuKey,
};

fn card(suit: Suit, rank: Rank) -> Card {
    Card { suit, rank }
}

fn all_cards(m: &MatchState) -> Vec<Card> {
    let mut v = Vec::new();
    v.extend(m.deck.iter().cloned());
    v.extend(m.table.iter().cloned());
    v.extend(m.player_hand.iter().cloned());
    v.extend(m.cpu_hand.iter().cloned());
    v.extend(m.player_won.iter().cloned());
    v.extend(m.cpu_won.iter().cloned());
    v
}

fn is_full_deck(cards: &[Card]) -> bool {
    let deck = new_deck();
    cards.len() == 40 && deck.iter().all(|c| cards.iter().filter(|x| *x == c).count() == 1)
}

fn small_deck() -> Vec<Card> {
    vec![
        card(Suit::Hearts, Rank::Ace),
        card(Suit::Hearts, Rank::Two),
        card(Suit::Hearts, Rank::Three),
        card(Suit::Hearts, Rank::Four),
        card(Suit::Hearts, Rank::Five),
        card(Suit::Hearts, Rank::Six),
        card(Suit::Hearts, Rank::Seven),
        card(Suit::Diamonds, Rank::Seven),
        card(Suit::Spades, Rank::Three),
        card(Suit::Spades, Rank::Four),
        card(Suit::Spades, Rank::Seven),
    ]
}

#[test]
fn refused_cut_card_goes_on_the_table_with_three_more() {
    let mut m = MatchState::with_deck(GameEntity::Player, small_deck());
    assert_eq!(m.cut_chooser(), GameEntity::Cpu);
    assert_eq!(m.cut_card(), Some(card(Suit::Spades, Rank::Seven)));
    let cut = m.apply_cut(false);
    assert_eq!(cut, card(Suit::Spades, Rank::Seven));
    assert_eq!(
        m.table,
        vec![
            card(Suit::Spades, Rank::Seven),
            card(Suit::Spades, Rank::Four),
            card(Suit::Spades, Rank::Three),
            card(Suit::Diamonds, Rank::Seven),
        ]
    );
    assert!(m.player_hand.is_empty() && m.cpu_hand.is_empty());
    assert_eq!(m.deck.len(), 7);
}

#[test]
fn kept_cut_card_goes_to_the_side_that_does_not_deal() {
    let mut m = MatchState::with_deck(GameEntity::Cpu, small_deck());
    assert_eq!(m.cut_chooser(), GameEntity::Player);
    m.apply_cut(true);
    assert_eq!(m.player_hand, vec![card(Suit::Spades, Rank::Seven)]);
    assert_eq!(m.table.len(), 4);
    m.deal_hands();
    assert_eq!(m.player_hand.len(), 3);
    assert_eq!(m.cpu_hand.len(), 3);
    assert_eq!(m.round_number, 1);
    assert_eq!(m.current_turn, GameEntity::Player);
    assert_eq!(m.deck.len(), 1);
}

#[test]
fn a_short_round_plays_out_turn_by_turn() {
    let mut m = MatchState::with_deck(GameEntity::Player, small_deck());
    m.apply_cut(false);
    m.deal_hands();
    assert_eq!(m.player_hand, vec![card(Suit::Hearts, Rank::Seven), card(Suit::Hearts, Rank::Six), card(Suit::Hearts, Rank::Five)]);
    assert_eq!(m.cpu_hand, vec![card(Suit::Hearts, Rank::Four), card(Suit::Hearts, Rank::Three), card(Suit::Hearts, Rank::Two)]);
    assert_eq!(m.current_turn, GameEntity::Cpu);

    // every CPU option scores 0: the last card (2 of hearts) is dropped
    let idx = m.cpu_move();
    assert_eq!(idx, 2);
    let rep = m.play_turn(idx).unwrap();
    assert_eq!(rep.who, GameEntity::Cpu);
    assert_eq!(rep.outcome, TurnOutcome::NoMatch);
    assert_eq!(m.table.len(), 5);
    assert_eq!(m.current_turn, GameEntity::Player);

    let rep = m.play_turn(0).unwrap();
    assert_eq!(rep.card, card(Suit::Hearts, Rank::Seven));
    assert_eq!(rep.outcome, TurnOutcome::Direct(card(Suit::Spades, Rank::Seven)));
    assert!(!rep.chkobba);
    assert_eq!(rep.won_count, 2);
    assert_eq!(m.last_capture, Some(GameEntity::Player));
    assert_eq!(m.player_won, vec![card(Suit::Spades, Rank::Seven), card(Suit::Hearts, Rank::Seven)]);
    assert_eq!(m.current_turn, GameEntity::Cpu);
    assert_eq!(all_cards(&m).len(), 11);
}

#[test]
fn a_side_with_no_cards_passes() {
    let mut m = MatchState::with_deck(GameEntity::Cpu, vec![]);
    assert_eq!(m.current_turn, GameEntity::Player);
    assert_eq!(m.play_turn(0), None);
    assert_eq!(m.current_turn, GameEntity::Cpu);
    assert_eq!(m.play_turn(0), None);
    assert_eq!(m.current_turn, GameEntity::Player);
    assert!(m.round_over());
    assert!(m.deck_exhausted());
}

#[test]
fn clearing_the_table_is_a_chkobba() {
    let mut m = MatchState::with_deck(GameEntity::Cpu, vec![]);
    m.table = vec![card(Suit::Clubs, Rank::Two), card(Suit::Clubs, Rank::Three)];
    m.player_hand = vec![card(Suit::Hearts, Rank::Five)];
    let rep = m.play_turn(0).unwrap();
    assert_eq!(rep.outcome, TurnOutcome::Pair(card(Suit::Clubs, Rank::Two), card(Suit::Clubs, Rank::Three)));
    assert!(rep.chkobba);
    assert_eq!(m.player_chkobbas, 1);
    assert!(m.table.is_empty());
}

#[test]
fn auto_play_only_with_one_card_and_an_empty_table() {
    let mut m = MatchState::with_deck(GameEntity::Cpu, vec![]);
    m.player_hand = vec![card(Suit::Clubs, Rank::Two)];
    assert_eq!(m.auto_play_index(), Some(0));
    m.table = vec![card(Suit::Clubs, Rank::King)];
    assert_eq!(m.auto_play_index(), None);
    m.table.clear();
    m.player_hand.push(card(Suit::Clubs, Rank::Three));
    assert_eq!(m.auto_play_index(), None);
}

#[test]
fn final_sweep_goes_to_the_last_capturer() {
    let mut m = MatchState::with_deck(GameEntity::Cpu, vec![]);
    m.table = vec![card(Suit::Clubs, Rank::Two)];
    assert_eq!(m.final_sweep(), Sweep::Discarded);
    assert_eq!(m.table.len(), 1);
    m.last_capture = Some(GameEntity::Cpu);
    assert_eq!(m.final_sweep(), Sweep::To(GameEntity::Cpu));
    assert_eq!(m.cpu_won, vec![card(Suit::Clubs, Rank::Two)]);
    assert!(m.table.is_empty());
    assert_eq!(m.final_sweep(), Sweep::NothingLeft);
}

#[test]
fn a_full_match_accounts_for_every_card() {
    for dealer in [GameEntity::Player, GameEntity::Cpu] {
        let mut m = MatchState::new(dealer);
        assert!(is_full_deck(&m.deck));
        let cut = m.cut_card().unwrap();
        let keep = evaluate_blind_cut_card(&cut);
        m.apply_cut(keep);
        loop {
            m.deal_hands();
            while !m.round_over() {
                let idx = match m.current_turn {
                    GameEntity::Player => m.auto_play_index().unwrap_or(0),
                    GameEntity::Cpu => m.cpu_move(),
                };
                m.play_turn(idx);
                assert!(is_full_deck(&all_cards(&m)));
            }
            if m.deck_exhausted() {
                break;
            }
        }
        assert_eq!(m.round_number, 6);
        let sweep = m.final_sweep();
        assert!(is_full_deck(&all_cards(&m)));
        if let Sweep::To(_) = sweep {
            assert_eq!(m.player_won.len() + m.cpu_won.len(), 40);
        }
        let b = m.scoreboard();
        assert!(b.player_points + b.cpu_points <= m.player_chkobbas + m.cpu_chkobbas + 4);
    }
}

#[test]
fn new_matches_are_shuffled() {
    let ordered = new_deck();
    let mut differs = false;
    for _ in 0..5 {
        let m = MatchState::new(GameEntity::Player);
        if m.deck != ordered {
            differs = true;
        }
    }
    assert!(differs);
}

#[test]
fn dealer_is_drawn_from_a_coin() {
    assert_eq!(dealer_from_coin(true), GameEntity::Player);
    assert_eq!(dealer_from_coin(false), GameEntity::Cpu);
    let (d, draw) = pick_initial_dealer();
    assert_eq!((draw.numerator(), draw.denominator()), (1, 2));
    assert_eq!(d, dealer_from_coin(draw.heads()));
}

#[test]
fn typed_card_numbers() {
    assert_eq!(interpret_card_choice("2\n", 3), Ok(1));
    assert_eq!(interpret_card_choice("  1  ", 3), Ok(0));
    assert_eq!(interpret_card_choice("3", 3), Ok(2));
    assert_eq!(interpret_card_choice("0", 3), Err(ChoiceError::OutOfRange));
    assert_eq!(interpret_card_choice("4", 3), Err(ChoiceError::OutOfRange));
    assert_eq!(interpret_card_choice("abc", 3), Err(ChoiceError::NotANumber));
    assert_eq!(interpret_card_choice("", 3), Err(ChoiceError::NotANumber));
    assert_eq!(interpret_card_choice("-1", 3), Err(ChoiceError::NotANumber));
    assert_eq!(card_choice_from_parsed(Some(1), 1), Ok(0));
    assert_eq!(card_choice_from_parsed(None, 1), Err(ChoiceError::NotANumber));
    assert_eq!(card_choice_from_parsed(Some(2), 1), Err(ChoiceError::OutOfRange));
}

#[test]
fn typed_yes_no_answers() {
    assert_eq!(interpret_yes_no("y\n"), Some(true));
    assert_eq!(interpret_yes_no("  Y "), Some(true));
    assert_eq!(interpret_yes_no("N"), Some(false));
    assert_eq!(interpret_yes_no("yes"), None);
    assert_eq!(interpret_yes_no(""), None);
    assert_eq!(yes_no_from_word("y"), Some(true));
    assert_eq!(yes_no_from_word("n"), Some(false));
    assert_eq!(yes_no_from_word("Y"), None);
}

#[test]
fn menu_moves_wrap_around() {
    assert_eq!(menu_step(0, 3, MenuKey::Left), MenuAction::Select(2));
    assert_eq!(menu_step(0, 3, MenuKey::Up), MenuAction::Select(2));
    assert_eq!(menu_step(1, 3, MenuKey::Left), MenuAction::Select(0));
    assert_eq!(menu_step(2, 3, MenuKey::Right), MenuAction::Select(0));
    assert_eq!(menu_step(2, 3, MenuKey::Down), MenuAction::Select(0));
    assert_eq!(menu_step(0, 3, MenuKey::Right), MenuAction::Select(1));
    assert_eq!(menu_step(0, 1, MenuKey::Right), MenuAction::Select(0));
    assert_eq!(menu_step(1, 3, MenuKey::Enter), MenuAction::Confirm(1));
    assert_eq!(menu_step(1, 3, MenuKey::Mute), MenuAction::ToggleMute);
    assert_eq!(menu_step(1, 3, MenuKey::Escape), MenuAction::Quit);
    assert_eq!(menu_step(1, 3, MenuKey::Other), MenuAction::Ignore);
}

#[test]
fn mute_switch_toggles() {
    let mut s = MuteSwitch::new();
    assert!(!is_muted(&s));
    assert!(toggle_mute(&mut s));
    assert!(is_muted(&s));
    assert!(!toggle_mute(&mut s));
    assert!(!is_muted(&s));
}

#[test]
fn moving_right_then_left_returns_to_the_same_card() {
    for hand_len in 1..5usize {
        for selected in 0..hand_len {
            if let MenuAction::Select(j) = menu_step(selected, hand_len, MenuKey::Right) {
                assert_eq!(menu_step(j, hand_len, MenuKey::Left), MenuAction::Select(selected));
            }
            if let MenuAction::Select(j) = menu_step(selected, hand_len, MenuKey::Left) {
                assert_eq!(menu_step(j, hand_len, MenuKey::Right), MenuAction::Select(selected));
            }
        }
    }
}

#[test]
fn toggling_twice_restores_the_switch() {
    let mut s = MuteSwitch::new();
    toggle_mute(&mut s);
    toggle_mute(&mut s);
    assert_eq!(s, MuteSwitch::new());
}

#[test]
fn phases_follow_cut_deal_turns_and_finish() {
    let mut m = MatchState::with_deck(GameEntity::Player, small_deck());
    assert_eq!(m.next_phase(), Phase::Cut);
    m.apply_cut(false);
    assert_eq!(m.next_phase(), Phase::Deal);
    m.deal_hands();
    assert_eq!(m.next_phase(), Phase::Turn);
    let mut turns = 0;
    while m.next_phase() == Phase::Turn {
        let index = if m.current_turn == GameEntity::Cpu { m.cpu_move() } else { 0 };
        m.play_turn(index);
        turns += 1;
    }
    assert_eq!(turns, 6);
    assert_eq!(m.deck.len(), 1);
    assert_eq!(m.next_phase(), Phase::Deal);
    m.deal_hands();
    assert_eq!(m.player_hand.len(), 1);
    assert_eq!(m.cpu_hand.len(), 0);
    assert_eq!(m.next_phase(), Phase::Turn);
    m.play_turn(0);
    m.play_turn(0);
    assert_eq!(m.next_phase(), Phase::Finished);
}

#[test]
fn nothing_to_cut_is_a_finished_match() {
    let m = MatchState::with_deck(GameEntity::Cpu, vec![]);
    assert_eq!(m.next_phase(), Phase::Finished);
}

#[test]
fn a_full_match_driven_by_phases_ends_with_every_card_won_or_on_the_table() {
    let mut m = MatchState::with_deck(GameEntity::Cpu, new_deck());
    let mut steps = 0;
    loop {
        match m.next_phase() {
            Phase::Cut => {
                m.apply_cut(true);
            }
            Phase::Deal => m.deal_hands(),
            Phase::Turn => {
                let index = match m.current_turn {
                    GameEntity::Cpu => m.cpu_move(),
                    GameEntity::Player => 0,
                };
                m.play_turn(index);
            }
            Phase::Finished => break,
        }
        steps += 1;
        assert!(steps < 200);
    }
    assert_eq!(m.round_number, 6);
    assert!(m.deck.is_empty() && m.player_hand.is_empty() && m.cpu_hand.is_empty());
    m.final_sweep();
    assert!(m.table.is_empty() || m.last_capture.is_none());
    assert!(is_full_deck(&all_cards(&m)));
}

#[test]
fn an_odd_number_of_toggles_flips_the_switch() {
    let mut s = MuteSwitch::new();
    for n in 1..=7 {
        let now = toggle_mute(&mut s);
        assert_eq!(now, n % 2 == 1);
        assert_eq!(is_muted(&s), n % 2 == 1);
    }
}

#[test]
fn typed_numbers_accept_a_plus_sign_and_unicode_spaces() {
    assert_eq!(interpret_card_choice("+2", 3), Ok(1));
    assert_eq!(interpret_card_choice("\u{3000}3\t", 3), Ok(2));
    assert_eq!(interpret_card_choice("++2", 3), Err(ChoiceError::NotANumber));
    assert_eq!(interpret_card_choice("1 2", 3), Err(ChoiceError::NotANumber));
    assert_eq!(interpret_card_choice("99999999999999999999999", 3), Err(ChoiceError::NotANumber));
}
