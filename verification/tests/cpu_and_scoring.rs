use chkobba::capture::{process_turn, TurnOutcome};
use chkobba::card::{Card, Rank, Suit};
use chkobba::cpu::{choose_best_move, evaluate_blind_cut_card, find_all_options_for_card, CaptureOption};
use chkobba::game::GameEntity;
use chkobba::scoring::{calculate_pile_stats, leader, score_match, PileStats};
use chkobba::stats::GameStats;

fn card(suit: Suit, rank: Rank) -> Card {
    Card { suit, rank }
}

#[test]
fn options_are_only_direct_when_a_direct_match_exists() {
    let table = vec![
        card(Suit::Hearts, Rank::Five),
        card(Suit::Spades, Rank::Two),
        card(Suit::Spades, Rank::Three),
        card(Suit::Clubs, Rank::Five),
    ];
    let options = find_all_options_for_card(&card(Suit::Diamonds, Rank::Five), &table);
    assert_eq!(options, vec![CaptureOption::Direct(0), CaptureOption::Direct(3)]);
}

#[test]
fn options_list_pairs_then_triplets() {
    // values 1, 2, 4, 3
    let table = vec![
        card(Suit::Hearts, Rank::Ace),
        card(Suit::Spades, Rank::Two),
        card(Suit::Spades, Rank::Four),
        card(Suit::Clubs, Rank::Three),
    ];
    let options = find_all_options_for_card(&card(Suit::Diamonds, Rank::Seven), &table);
    assert_eq!(options, vec![CaptureOption::Pair(2, 3), CaptureOption::Triplet(0, 1, 2)]);
}

#[test]
fn options_are_empty_without_a_capture() {
    let table = vec![card(Suit::Hearts, Rank::King), card(Suit::Spades, Rank::Queen)];
    assert!(find_all_options_for_card(&card(Suit::Diamonds, Rank::Two), &table).is_empty());
    assert!(find_all_options_for_card(&card(Suit::Diamonds, Rank::Two), &[]).is_empty());
}

#[test]
fn cpu_goes_for_the_seven_of_diamonds() {
    let hand = vec![card(Suit::Spades, Rank::King), card(Suit::Diamonds, Rank::Seven)];
    let table = vec![card(Suit::Hearts, Rank::Seven)];
    assert_eq!(choose_best_move(&hand, &table), 1);
}

#[test]
fn cpu_prefers_a_sweeping_pair_to_a_plain_drop() {
    let hand = vec![card(Suit::Clubs, Rank::Five), card(Suit::Clubs, Rank::King)];
    let table = vec![card(Suit::Spades, Rank::Two), card(Suit::Spades, Rank::Three)];
    assert_eq!(choose_best_move(&hand, &table), 0);
}

#[test]
fn cpu_takes_the_last_of_equal_moves() {
    let hand = vec![card(Suit::Spades, Rank::Two), card(Suit::Spades, Rank::Three)];
    let table = vec![card(Suit::Clubs, Rank::King)];
    assert_eq!(choose_best_move(&hand, &table), 1);
}

#[test]
fn cpu_avoids_leaving_an_easy_table() {
    let table = vec![card(Suit::Hearts, Rank::Two)];
    let hand = vec![card(Suit::Spades, Rank::Ace), card(Suit::Spades, Rank::King)];
    assert_eq!(choose_best_move(&hand, &table), 1);
    let hand = vec![card(Suit::Spades, Rank::King), card(Suit::Spades, Rank::Ace)];
    assert_eq!(choose_best_move(&hand, &table), 0);
}

#[test]
fn cpu_with_an_empty_hand_answers_zero() {
    let table = vec![card(Suit::Hearts, Rank::Two)];
    assert_eq!(choose_best_move(&[], &table), 0);
}

#[test]
fn blind_cut_keeps_sevens_sixes_aces_and_low_diamonds() {
    assert!(evaluate_blind_cut_card(&card(Suit::Diamonds, Rank::Seven)));
    assert!(evaluate_blind_cut_card(&card(Suit::Spades, Rank::Seven)));
    assert!(evaluate_blind_cut_card(&card(Suit::Hearts, Rank::Six)));
    assert!(evaluate_blind_cut_card(&card(Suit::Clubs, Rank::Ace)));
    assert!(evaluate_blind_cut_card(&card(Suit::Diamonds, Rank::Five)));
    assert!(evaluate_blind_cut_card(&card(Suit::Diamonds, Rank::Two)));
    assert!(!evaluate_blind_cut_card(&card(Suit::Diamonds, Rank::Queen)));
    assert!(!evaluate_blind_cut_card(&card(Suit::Hearts, Rank::Queen)));
    assert!(!evaluate_blind_cut_card(&card(Suit::Spades, Rank::Four)));
    assert!(!evaluate_blind_cut_card(&card(Suit::Clubs, Rank::King)));
}

#[test]
fn pile_stats_count_the_scoring_cards() {
    let pile = vec![
        card(Suit::Diamonds, Rank::Seven),
        card(Suit::Diamonds, Rank::Two),
        card(Suit::Spades, Rank::Seven),
        card(Suit::Hearts, Rank::Six),
        card(Suit::Clubs, Rank::King),
    ];
    let stats = calculate_pile_stats(&pile);
    assert_eq!(
        stats,
        PileStats { total_cards: 5, diamond_count: 2, has_haya: true, sevens_count: 2, sixes_count: 1 }
    );
    let empty = calculate_pile_stats(&[]);
    assert_eq!(
        empty,
        PileStats { total_cards: 0, diamond_count: 0, has_haya: false, sevens_count: 0, sixes_count: 0 }
    );
}

fn stats(total: usize, diamonds: usize, haya: bool, sevens: usize, sixes: usize) -> PileStats {
    PileStats { total_cards: total, diamond_count: diamonds, has_haya: haya, sevens_count: sevens, sixes_count: sixes }
}

#[test]
fn scoreboard_awards_each_category() {
    let player = stats(22, 6, true, 3, 1);
    let cpu = stats(18, 4, false, 1, 3);
    let b = score_match(&player, &cpu, 1, 2);
    assert_eq!(b.karta, Some(GameEntity::Player));
    assert_eq!(b.dinari, Some(GameEntity::Player));
    assert_eq!(b.haya, Some(GameEntity::Player));
    assert_eq!(b.barmila, Some(GameEntity::Player));
    assert!(!b.barmila_by_sixes);
    assert_eq!(b.player_points, 5);
    assert_eq!(b.cpu_points, 2);
    assert_eq!(b.winner, Some(GameEntity::Player));
}

#[test]
fn scoreboard_breaks_barmila_ties_by_sixes_and_counts_draws() {
    let player = stats(20, 5, false, 2, 1);
    let cpu = stats(20, 5, true, 2, 3);
    let b = score_match(&player, &cpu, 1, 0);
    assert_eq!(b.karta, None);
    assert_eq!(b.dinari, None);
    assert_eq!(b.haya, Some(GameEntity::Cpu));
    assert_eq!(b.barmila, Some(GameEntity::Cpu));
    assert!(b.barmila_by_sixes);
    assert_eq!(b.player_points, 1);
    assert_eq!(b.cpu_points, 2);
    assert_eq!(b.winner, Some(GameEntity::Cpu));

    let even = stats(20, 5, false, 2, 2);
    let b = score_match(&even, &even, 3, 3);
    assert_eq!(b.barmila, None);
    assert!(!b.barmila_by_sixes);
    assert_eq!(b.player_points, 3);
    assert_eq!(b.cpu_points, 3);
    assert_eq!(b.winner, None);
}

#[test]
fn leader_names_the_larger_count() {
    assert_eq!(leader(3, 1), Some(GameEntity::Player));
    assert_eq!(leader(1, 3), Some(GameEntity::Cpu));
    assert_eq!(leader(2, 2), None);
}

#[test]
fn game_stats_record_results() {
    let mut s = GameStats::new();
    assert_eq!(s.total_games, 0);
    assert_eq!((s.player_wins, s.cpu_wins), (0, 0));
    assert_eq!(s.streak_holder, None);
    s.record_match(Some(GameEntity::Player), 1, 0);
    s.record_match(Some(GameEntity::Cpu), 0, 2);
    s.record_match(None, 0, 0);
    s.record_match(Some(GameEntity::Player), 3, 1);
    assert_eq!((s.total_games, s.player_wins, s.cpu_wins), (4, 2, 1));
    assert_eq!((s.player_chkobbas, s.cpu_chkobbas), (4, 3));
}

#[test]
fn game_stats_track_win_streaks() {
    let mut s = GameStats::new();
    s.record_match(Some(GameEntity::Player), 0, 0);
    s.record_match(Some(GameEntity::Player), 0, 0);
    s.record_match(Some(GameEntity::Player), 0, 0);
    assert_eq!((s.streak_holder, s.streak_length), (Some(GameEntity::Player), 3));
    assert_eq!(s.player_best_streak, 3);
    s.record_match(Some(GameEntity::Cpu), 0, 0);
    assert_eq!((s.streak_holder, s.streak_length), (Some(GameEntity::Cpu), 1));
    assert_eq!((s.player_best_streak, s.cpu_best_streak), (3, 1));
    s.record_match(Some(GameEntity::Cpu), 0, 0);
    s.record_match(None, 0, 0);
    assert_eq!((s.streak_holder, s.streak_length), (None, 0));
    assert_eq!((s.player_best_streak, s.cpu_best_streak), (3, 2));
    s.record_match(Some(GameEntity::Player), 0, 0);
    assert_eq!((s.streak_holder, s.streak_length, s.player_best_streak), (Some(GameEntity::Player), 1, 3));
    assert_eq!(s, GameStats {
        total_games: 7,
        player_wins: 4,
        cpu_wins: 2,
        streak_holder: Some(GameEntity::Player),
        streak_length: 1,
        player_best_streak: 3,
        cpu_best_streak: 2,
        player_chkobbas: 0,
        cpu_chkobbas: 0,
    });
}

#[test]
fn first_cpu_option_is_what_the_turn_captures() {
    let table = vec![
        card(Suit::Hearts, Rank::Ace),
        card(Suit::Spades, Rank::Four),
        card(Suit::Clubs, Rank::Two),
        card(Suit::Diamonds, Rank::Three),
    ];
    let dropped = card(Suit::Hearts, Rank::Five);
    let options = find_all_options_for_card(&dropped, &table);
    assert_eq!(options[0], CaptureOption::Pair(0, 1));
    let mut t = table.clone();
    let mut won = Vec::new();
    let out = process_turn(dropped, &mut t, &mut won);
    assert_eq!(out, TurnOutcome::Pair(table[0], table[1]));

    let dropped = card(Suit::Clubs, Rank::Three);
    let options = find_all_options_for_card(&dropped, &table);
    assert_eq!(options, vec![CaptureOption::Direct(3)]);
    let mut t = table.clone();
    let out = process_turn(dropped, &mut t, &mut won);
    assert_eq!(out, TurnOutcome::Direct(table[3]));

    let dropped = card(Suit::Clubs, Rank::King);
    assert!(find_all_options_for_card(&dropped, &table).is_empty());
    let mut t = table.clone();
    assert_eq!(process_turn(dropped, &mut t, &mut won), TurnOutcome::NoMatch);
}

#[test]
fn pile_stats_add_up_and_ignore_order() {
    let a = vec![card(Suit::Diamonds, Rank::Seven), card(Suit::Hearts, Rank::Six), card(Suit::Clubs, Rank::Two)];
    let b = vec![card(Suit::Diamonds, Rank::Six), card(Suit::Spades, Rank::Seven)];
    let mut ab = a.clone();
    ab.extend(b.iter().cloned());
    let sa = calculate_pile_stats(&a);
    let sb = calculate_pile_stats(&b);
    let sab = calculate_pile_stats(&ab);
    assert_eq!(sab.total_cards, sa.total_cards + sb.total_cards);
    assert_eq!(sab.diamond_count, sa.diamond_count + sb.diamond_count);
    assert_eq!(sab.sevens_count, sa.sevens_count + sb.sevens_count);
    assert_eq!(sab.sixes_count, sa.sixes_count + sb.sixes_count);
    assert_eq!(sab.has_haya, sa.has_haya || sb.has_haya);
    let mut reversed = ab.clone();
    reversed.reverse();
    assert_eq!(calculate_pile_stats(&reversed), sab);
}

#[test]
fn options_depend_only_on_ranks_not_suits() {
    let table = vec![card(Suit::Hearts, Rank::Two), card(Suit::Spades, Rank::Three), card(Suit::Clubs, Rank::Ace)];
    let other = vec![card(Suit::Diamonds, Rank::Two), card(Suit::Clubs, Rank::Three), card(Suit::Hearts, Rank::Ace)];
    let a = find_all_options_for_card(&card(Suit::Clubs, Rank::Six), &table);
    let b = find_all_options_for_card(&card(Suit::Diamonds, Rank::Six), &other);
    assert_eq!(a, b);
    assert_eq!(a, vec![CaptureOption::Triplet(0, 1, 2)]);
}
