//! The end-of-match scoreboard: Karta (most cards), Dinari (most diamonds),
//! Sab'a l-hayya (the seven of diamonds), Barmila (most sevens, ties broken by
//! sixes), plus one point per Chkobba made during the match.

use vstd::prelude::*;
use crate::card::{Card, Rank, Suit};
use crate::game::GameEntity;

verus! {

/// The number of cards in `cards` that satisfy `p`.
pub open spec fn count_where(cards: Seq<Card>, p: spec_fn(Card) -> bool) -> nat
    decreases cards.len(),
{
    if cards.len() == 0 {
        0
    } else {
        count_where(cards.drop_last(), p) + if p(cards.last()) { 1nat } else { 0nat }
    }
}

/// The number of cards of suit `s` in `cards`.
pub open spec fn count_suit(cards: Seq<Card>, s: Suit) -> nat {
    count_where(cards, |c: Card| c.suit == s)
}

/// The number of cards of rank `r` in `cards`.
pub open spec fn count_rank(cards: Seq<Card>, r: Rank) -> nat {
    count_where(cards, |c: Card| c.rank == r)
}

proof fn lemma_count_concat(a: Seq<Card>, b: Seq<Card>, p: spec_fn(Card) -> bool)
    ensures
        count_where(a + b, p) == count_where(a, p) + count_where(b, p),
    decreases b.len(),
{
    if b.len() == 0 {
        assert(a + b =~= a);
    } else {
        lemma_count_concat(a, b.drop_last(), p);
        assert((a + b).drop_last() =~= a + b.drop_last());
        assert((a + b).last() == b.last());
    }
}

proof fn lemma_count_at_most_len(a: Seq<Card>, p: spec_fn(Card) -> bool)
    ensures
        count_where(a, p) <= a.len(),
    decreases a.len(),
{
    if a.len() > 0 {
        lemma_count_at_most_len(a.drop_last(), p);
    }
}

proof fn lemma_count_of_member(a: Seq<Card>, p: spec_fn(Card) -> bool, x: Card)
    requires
        a.contains(x),
        p(x),
    ensures
        count_where(a, p) >= 1,
    decreases a.len(),
{
    if a.last() != x {
        let i = choose|i: int| 0 <= i < a.len() && a[i] == x;
        assert(a.drop_last()[i] == x);
        lemma_count_of_member(a.drop_last(), p, x);
    }
}

proof fn lemma_count_same_cards(a: Seq<Card>, b: Seq<Card>, p: spec_fn(Card) -> bool)
    requires
        a.to_multiset() == b.to_multiset(),
    ensures
        count_where(a, p) == count_where(b, p),
    decreases a.len(),
{
    broadcast use vstd::seq_lib::group_to_multiset_ensures;
    broadcast use vstd::multiset::group_multiset_axioms;

    if a.len() == 0 {
        assert(a.to_multiset().len() == a.len());
        assert(b.to_multiset().len() == b.len());
    } else {
        let x = a.last();
        let a0 = a.drop_last();
        assert(a =~= a0.push(x));
        assert(a.to_multiset().count(x) > 0);
        assert(b.contains(x));
        let i = choose|i: int| 0 <= i < b.len() && b[i] == x;
        let b0 = b.remove(i);
        assert(b0.to_multiset() =~= a0.to_multiset());
        lemma_count_same_cards(a0, b0, p);
        let left = b.take(i);
        let right = b.skip(i + 1);
        assert(b =~= left + seq![x] + right);
        assert(b0 =~= left + right);
        lemma_count_concat(left, seq![x], p);
        lemma_count_concat(left + seq![x], right, p);
        lemma_count_concat(left, right, p);
        assert(seq![x].drop_last() =~= Seq::<Card>::empty());
        assert(count_where(Seq::<Card>::empty(), p) == 0);
        assert(seq![x].last() == x);
        assert(count_where(seq![x], p) == if p(x) { 1nat } else { 0nat });
    }
}

/// No count of a suit or of a rank exceeds the number of cards counted.
pub proof fn counts_at_most_pile_size(a: Seq<Card>, s: Suit, r: Rank)
    ensures
        count_suit(a, s) <= a.len(),
        count_rank(a, r) <= a.len(),
{
    lemma_count_at_most_len(a, |c: Card| c.suit == s);
    lemma_count_at_most_len(a, |c: Card| c.rank == r);
}

/// The seven of diamonds.
pub open spec fn haya() -> Card {
    Card { suit: Suit::Diamonds, rank: Rank::Seven }
}

/// What the scoreboard counts in a pile of won cards.
#[derive(Clone, Copy, PartialEq, Eq, Debug, Structural)]
pub struct PileStats {
    pub total_cards: usize,
    pub diamond_count: usize,
    pub has_haya: bool,
    pub sevens_count: usize,
    pub sixes_count: usize,
}

/// The statistics of a pile: its size, its diamonds, whether it holds the
/// seven of diamonds, its sevens and its sixes.
pub open spec fn stats_of(cards: Seq<Card>) -> PileStats {
    PileStats {
        total_cards: cards.len() as usize,
        diamond_count: count_suit(cards, Suit::Diamonds) as usize,
        has_haya: cards.contains(haya()),
        sevens_count: count_rank(cards, Rank::Seven) as usize,
        sixes_count: count_rank(cards, Rank::Six) as usize,
    }
}

/// Counts what the scoreboard needs in a pile of won cards.
pub fn calculate_pile_stats(won_cards: &[Card]) -> (stats: PileStats)
    ensures
        stats == stats_of(won_cards@),
        stats.total_cards == won_cards@.len(),
        stats.diamond_count == count_suit(won_cards@, Suit::Diamonds),
        stats.sevens_count == count_rank(won_cards@, Rank::Seven),
        stats.sixes_count == count_rank(won_cards@, Rank::Six),
        stats.has_haya == won_cards@.contains(haya()),
{
    let ghost s = won_cards@;
    let mut diamond_count: usize = 0;
    let mut has_haya = false;
    let mut sevens_count: usize = 0;
    let mut sixes_count: usize = 0;
    let mut i: usize = 0;
    while i < won_cards.len()
        invariant
            s == won_cards@,
            i <= s.len(),
            diamond_count == count_suit(s.take(i as int), Suit::Diamonds),
            sevens_count == count_rank(s.take(i as int), Rank::Seven),
            sixes_count == count_rank(s.take(i as int), Rank::Six),
            diamond_count <= i && sevens_count <= i && sixes_count <= i,
            has_haya == s.take(i as int).contains(haya()),
        decreases s.len() - i,
    {
        let ghost prefix = s.take(i as int);
        assert(s.take(i + 1).drop_last() =~= prefix);
        assert(s.take(i + 1) =~= prefix.push(s[i as int]));
        let card = &won_cards[i];
        if card.suit == Suit::Diamonds {
            diamond_count = diamond_count + 1;
        }
        if card.suit == Suit::Diamonds && card.rank == Rank::Seven {
            has_haya = true;
        }
        if card.rank == Rank::Seven {
            sevens_count = sevens_count + 1;
        }
        if card.rank == Rank::Six {
            sixes_count = sixes_count + 1;
        }
        proof {
            let next = s.take(i + 1);
            assert(next.contains(haya()) == (prefix.contains(haya()) || s[i as int] == haya())) by {
                if prefix.contains(haya()) {
                    let j = choose|j: int| 0 <= j < prefix.len() && prefix[j] == haya();
                    assert(next[j] == haya());
                }
                if next.contains(haya()) && s[i as int] != haya() {
                    let j = choose|j: int| 0 <= j < next.len() && next[j] == haya();
                    assert(prefix[j] == haya());
                }
                if s[i as int] == haya() {
                    assert(next[i as int] == haya());
                }
            }
        }
        i = i + 1;
    }
    assert(s.take(i as int) =~= s);
    PileStats { total_cards: won_cards.len(), diamond_count, has_haya, sevens_count, sixes_count }
}

/// The side with the larger count, if the counts differ.
pub open spec fn larger(player: int, cpu: int) -> Option<GameEntity> {
    if player > cpu {
        Some(GameEntity::Player)
    } else if cpu > player {
        Some(GameEntity::Cpu)
    } else {
        None
    }
}

/// The side that holds the seven of diamonds (the player is asked first).
pub open spec fn haya_holder(player: PileStats, cpu: PileStats) -> Option<GameEntity> {
    if player.has_haya {
        Some(GameEntity::Player)
    } else if cpu.has_haya {
        Some(GameEntity::Cpu)
    } else {
        None
    }
}

/// The side with more sevens; on equal sevens, the side with more sixes.
pub open spec fn barmila_winner(player: PileStats, cpu: PileStats) -> Option<GameEntity> {
    if player.sevens_count != cpu.sevens_count {
        larger(player.sevens_count as int, cpu.sevens_count as int)
    } else {
        larger(player.sixes_count as int, cpu.sixes_count as int)
    }
}

/// One point when the category went to side `e`.
pub open spec fn point_for(award: Option<GameEntity>, e: GameEntity) -> int {
    if award == Some(e) {
        1
    } else {
        0
    }
}

/// The final scoreboard of a match: the winner of each category (`None` on a
/// tie), whether Barmila was decided by sixes, each side's points and the
/// winner of the match (`None` on a draw).
#[derive(Clone, Copy, PartialEq, Eq, Debug, Structural)]
pub struct Scoreboard {
    pub karta: Option<GameEntity>,
    pub dinari: Option<GameEntity>,
    pub haya: Option<GameEntity>,
    pub barmila: Option<GameEntity>,
    pub barmila_by_sixes: bool,
    pub player_points: usize,
    pub cpu_points: usize,
    pub winner: Option<GameEntity>,
}

/// The scoreboard of a match: Karta to the side with more cards, Dinari to
/// the side with more diamonds, Sab'a l-hayya to the holder of the seven of
/// diamonds, Barmila to the side with more sevens (on a tie, more sixes);
/// each side scores its Chkobbas plus one point per category won, and the
/// side with more points wins the match.
pub open spec fn scoreboard_for(player: PileStats, cpu: PileStats, player_chkobbas: int, cpu_chkobbas: int) -> Scoreboard {
    let karta = larger(player.total_cards as int, cpu.total_cards as int);
    let dinari = larger(player.diamond_count as int, cpu.diamond_count as int);
    let haya = haya_holder(player, cpu);
    let barmila = barmila_winner(player, cpu);
    let pp = player_chkobbas + point_for(karta, GameEntity::Player) + point_for(dinari, GameEntity::Player)
        + point_for(haya, GameEntity::Player) + point_for(barmila, GameEntity::Player);
    let cp = cpu_chkobbas + point_for(karta, GameEntity::Cpu) + point_for(dinari, GameEntity::Cpu)
        + point_for(haya, GameEntity::Cpu) + point_for(barmila, GameEntity::Cpu);
    Scoreboard {
        karta,
        dinari,
        haya,
        barmila,
        barmila_by_sixes: player.sevens_count == cpu.sevens_count && player.sixes_count != cpu.sixes_count,
        player_points: pp as usize,
        cpu_points: cp as usize,
        winner: larger(pp, cp),
    }
}

/// Returns the side with the larger count, if the counts differ.
pub fn leader(player: usize, cpu: usize) -> (r: Option<GameEntity>)
    ensures
        r == larger(player as int, cpu as int),
{
    if player > cpu {
        Some(GameEntity::Player)
    } else if cpu > player {
        Some(GameEntity::Cpu)
    } else {
        None
    }
}

fn award_point(points: usize, award: Option<GameEntity>, e: GameEntity) -> (r: usize)
    requires
        points < usize::MAX,
    ensures
        r == points + point_for(award, e),
{
    match award {
        Some(w) => if w == e { points + 1 } else { points },
        None => points,
    }
}

/// Scores a finished match from both won piles and the Chkobbas made.
pub fn score_match(player: &PileStats, cpu: &PileStats, player_chkobbas: usize, cpu_chkobbas: usize) -> (b: Scoreboard)
    requires
        player_chkobbas <= usize::MAX - 4,
        cpu_chkobbas <= usize::MAX - 4,
    ensures
        b == scoreboard_for(*player, *cpu, player_chkobbas as int, cpu_chkobbas as int),
{
    let karta = leader(player.total_cards, cpu.total_cards);
    let dinari = leader(player.diamond_count, cpu.diamond_count);
    let haya = if player.has_haya {
        Some(GameEntity::Player)
    } else if cpu.has_haya {
        Some(GameEntity::Cpu)
    } else {
        None
    };
    let barmila_by_sixes = player.sevens_count == cpu.sevens_count && player.sixes_count != cpu.sixes_count;
    let barmila = if player.sevens_count != cpu.sevens_count {
        leader(player.sevens_count, cpu.sevens_count)
    } else {
        leader(player.sixes_count, cpu.sixes_count)
    };
    let mut player_points = player_chkobbas;
    let mut cpu_points = cpu_chkobbas;
    player_points = award_point(player_points, karta, GameEntity::Player);
    cpu_points = award_point(cpu_points, karta, GameEntity::Cpu);
    player_points = award_point(player_points, dinari, GameEntity::Player);
    cpu_points = award_point(cpu_points, dinari, GameEntity::Cpu);
    player_points = award_point(player_points, haya, GameEntity::Player);
    cpu_points = award_point(cpu_points, haya, GameEntity::Cpu);
    player_points = award_point(player_points, barmila, GameEntity::Player);
    cpu_points = award_point(cpu_points, barmila, GameEntity::Cpu);
    let winner = leader(player_points, cpu_points);
    Scoreboard { karta, dinari, haya, barmila, barmila_by_sixes, player_points, cpu_points, winner }
}

/// Each category gives its point to at most one side: besides their
/// Chkobbas, the two sides receive at most four points together.
pub proof fn categories_award_one_point(player: PileStats, cpu: PileStats, player_chkobbas: int, cpu_chkobbas: int)
    requires
        0 <= player_chkobbas <= usize::MAX - 4,
        0 <= cpu_chkobbas <= usize::MAX - 4,
    ensures
        ({
            let b = scoreboard_for(player, cpu, player_chkobbas, cpu_chkobbas);
            &&& player_chkobbas <= b.player_points <= player_chkobbas + 4
            &&& cpu_chkobbas <= b.cpu_points <= cpu_chkobbas + 4
            &&& b.player_points + b.cpu_points <= player_chkobbas + cpu_chkobbas + 4
        }),
{
}


/// The statistics of two piles put together are the sums of their counts,
/// and the seven of diamonds is in the whole exactly when it is in a part.
pub proof fn pile_stats_add_up(a: Seq<Card>, b: Seq<Card>)
    requires
        (a + b).len() <= usize::MAX,
    ensures
        stats_of(a + b).total_cards == stats_of(a).total_cards + stats_of(b).total_cards,
        stats_of(a + b).diamond_count == stats_of(a).diamond_count + stats_of(b).diamond_count,
        stats_of(a + b).sevens_count == stats_of(a).sevens_count + stats_of(b).sevens_count,
        stats_of(a + b).sixes_count == stats_of(a).sixes_count + stats_of(b).sixes_count,
        stats_of(a + b).has_haya == (stats_of(a).has_haya || stats_of(b).has_haya),
{
    broadcast use vstd::seq_lib::lemma_seq_concat_contains_all_elements;

    lemma_count_concat(a, b, |c: Card| c.suit == Suit::Diamonds);
    lemma_count_concat(a, b, |c: Card| c.rank == Rank::Seven);
    lemma_count_concat(a, b, |c: Card| c.rank == Rank::Six);
    lemma_count_at_most_len(a + b, |c: Card| c.suit == Suit::Diamonds);
    lemma_count_at_most_len(a + b, |c: Card| c.rank == Rank::Seven);
    lemma_count_at_most_len(a + b, |c: Card| c.rank == Rank::Six);
}

/// The statistics of a pile do not depend on the order of its cards.
pub proof fn pile_stats_ignore_order(a: Seq<Card>, b: Seq<Card>)
    requires
        a.to_multiset() == b.to_multiset(),
    ensures
        stats_of(a) == stats_of(b),
{
    broadcast use vstd::seq_lib::group_to_multiset_ensures;

    lemma_count_same_cards(a, b, |c: Card| c.suit == Suit::Diamonds);
    lemma_count_same_cards(a, b, |c: Card| c.rank == Rank::Seven);
    lemma_count_same_cards(a, b, |c: Card| c.rank == Rank::Six);
    assert(a.len() == b.len()) by {
        assert(a.to_multiset().len() == a.len());
        assert(b.to_multiset().len() == b.len());
    }
    assert(a.contains(haya()) == b.contains(haya())) by {
        assert(a.contains(haya()) <==> a.to_multiset().count(haya()) > 0);
        assert(b.contains(haya()) <==> b.to_multiset().count(haya()) > 0);
    }
}

/// No count exceeds the pile's size, and a pile holding the seven of diamonds
/// holds at least one diamond and one seven.
pub proof fn pile_stats_bounds(a: Seq<Card>)
    requires
        a.len() <= usize::MAX,
    ensures
        stats_of(a).diamond_count <= stats_of(a).total_cards,
        stats_of(a).sevens_count <= stats_of(a).total_cards,
        stats_of(a).sixes_count <= stats_of(a).total_cards,
        stats_of(a).has_haya ==> stats_of(a).diamond_count >= 1 && stats_of(a).sevens_count >= 1,
{
    lemma_count_at_most_len(a, |c: Card| c.suit == Suit::Diamonds);
    lemma_count_at_most_len(a, |c: Card| c.rank == Rank::Seven);
    lemma_count_at_most_len(a, |c: Card| c.rank == Rank::Six);
    if a.contains(haya()) {
        lemma_count_of_member(a, |c: Card| c.suit == Suit::Diamonds, haya());
        lemma_count_of_member(a, |c: Card| c.rank == Rank::Seven, haya());
    }
}

/// The other side of an award, `None` staying `None`.
pub open spec fn swap_side(a: Option<GameEntity>) -> Option<GameEntity> {
    match a {
        Some(GameEntity::Player) => Some(GameEntity::Cpu),
        Some(GameEntity::Cpu) => Some(GameEntity::Player),
        None => None,
    }
}

/// Karta goes to the side with strictly more won cards, whichever it is, and
/// counts as a point for it; equal piles give it to no one.
pub proof fn karta_to_more_cards(player: PileStats, cpu: PileStats, player_chkobbas: int, cpu_chkobbas: int)
    requires
        0 <= player_chkobbas <= usize::MAX - 4,
        0 <= cpu_chkobbas <= usize::MAX - 4,
    ensures
        ({
            let b = scoreboard_for(player, cpu, player_chkobbas, cpu_chkobbas);
            &&& player.total_cards > cpu.total_cards ==> b.karta == Some(GameEntity::Player) && b.player_points
                >= player_chkobbas + 1
            &&& cpu.total_cards > player.total_cards ==> b.karta == Some(GameEntity::Cpu) && b.cpu_points
                >= cpu_chkobbas + 1
            &&& player.total_cards == cpu.total_cards ==> b.karta is None
        }),
{
}

/// Barmila goes to the side with strictly more sevens, whichever it is; the
/// sixes decide only when the sevens are equal, and equal sevens and sixes
/// give it to no one.
pub proof fn barmila_to_more_sevens(player: PileStats, cpu: PileStats, player_chkobbas: int, cpu_chkobbas: int)
    requires
        0 <= player_chkobbas <= usize::MAX - 4,
        0 <= cpu_chkobbas <= usize::MAX - 4,
    ensures
        ({
            let b = scoreboard_for(player, cpu, player_chkobbas, cpu_chkobbas);
            &&& player.sevens_count > cpu.sevens_count ==> b.barmila == Some(GameEntity::Player) && !b.barmila_by_sixes
            &&& cpu.sevens_count > player.sevens_count ==> b.barmila == Some(GameEntity::Cpu) && !b.barmila_by_sixes
            &&& player.sevens_count == cpu.sevens_count && player.sixes_count > cpu.sixes_count ==> b.barmila
                == Some(GameEntity::Player) && b.barmila_by_sixes
            &&& player.sevens_count == cpu.sevens_count && cpu.sixes_count > player.sixes_count ==> b.barmila
                == Some(GameEntity::Cpu) && b.barmila_by_sixes
            &&& player.sevens_count == cpu.sevens_count && player.sixes_count == cpu.sixes_count ==> b.barmila is None
            &&& b.barmila == Some(GameEntity::Player) ==> b.player_points >= player_chkobbas + 1
            &&& b.barmila == Some(GameEntity::Cpu) ==> b.cpu_points >= cpu_chkobbas + 1
        }),
{
}

/// The scoring favours neither side: exchanging the two piles and the two
/// Chkobba counts exchanges every award, the points and the winner (as long
/// as both piles do not both claim the seven of diamonds, which one deck
/// cannot give).
pub proof fn scoring_is_symmetric(player: PileStats, cpu: PileStats, player_chkobbas: int, cpu_chkobbas: int)
    requires
        0 <= player_chkobbas <= usize::MAX - 4,
        0 <= cpu_chkobbas <= usize::MAX - 4,
        !(player.has_haya && cpu.has_haya),
    ensures
        ({
            let b = scoreboard_for(player, cpu, player_chkobbas, cpu_chkobbas);
            let m = scoreboard_for(cpu, player, cpu_chkobbas, player_chkobbas);
            &&& m.karta == swap_side(b.karta)
            &&& m.dinari == swap_side(b.dinari)
            &&& m.haya == swap_side(b.haya)
            &&& m.barmila == swap_side(b.barmila)
            &&& m.barmila_by_sixes == b.barmila_by_sixes
            &&& m.player_points == b.cpu_points
            &&& m.cpu_points == b.player_points
            &&& m.winner == swap_side(b.winner)
        }),
{
}

/// Dinari goes to the side with strictly more diamonds, Sab'a l-hayya to the
/// side holding the seven of diamonds, and the match to the side with
/// strictly more points; each award counts as a point for its side.
pub proof fn other_awards_go_to_their_side(player: PileStats, cpu: PileStats, player_chkobbas: int, cpu_chkobbas: int)
    requires
        0 <= player_chkobbas <= usize::MAX - 4,
        0 <= cpu_chkobbas <= usize::MAX - 4,
    ensures
        ({
            let b = scoreboard_for(player, cpu, player_chkobbas, cpu_chkobbas);
            &&& player.diamond_count > cpu.diamond_count ==> b.dinari == Some(GameEntity::Player)
                && b.player_points >= player_chkobbas + 1
            &&& cpu.diamond_count > player.diamond_count ==> b.dinari == Some(GameEntity::Cpu)
                && b.cpu_points >= cpu_chkobbas + 1
            &&& player.diamond_count == cpu.diamond_count ==> b.dinari is None
            &&& player.has_haya ==> b.haya == Some(GameEntity::Player) && b.player_points >= player_chkobbas + 1
            &&& !player.has_haya && cpu.has_haya ==> b.haya == Some(GameEntity::Cpu) && b.cpu_points >= cpu_chkobbas
                + 1
            &&& !player.has_haya && !cpu.has_haya ==> b.haya is None
            &&& b.player_points > b.cpu_points ==> b.winner == Some(GameEntity::Player)
            &&& b.cpu_points > b.player_points ==> b.winner == Some(GameEntity::Cpu)
            &&& b.player_points == b.cpu_points ==> b.winner is None
        }),
{
}

} // verus!
