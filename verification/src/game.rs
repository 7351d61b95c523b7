//! The course of a match: who deals, how cards are drawn and dealt, whose
//! turn it is, and where every card of the deck is at each moment.

use vstd::prelude::*;
use crate::coin::{CoinDraw, coin_flip};
use rand::seq::SliceRandom;
use vstd::multiset::Multiset;
use crate::card::{Card, deck_order, new_deck};
use crate::capture::{TurnOutcome, process_turn, turn_effect, pile_cards};
use crate::cpu::{choose_best_move, hand_candidates, is_last_best};
use crate::scoring::{Scoreboard, calculate_pile_stats, score_match, scoreboard_for, stats_of};

verus! {

/// One of the two sides of the game.
#[derive(Clone, Copy, PartialEq, Eq, Debug, Structural)]
pub enum GameEntity {
    Player,
    Cpu,
}

/// The other side.
pub open spec fn opponent(e: GameEntity) -> GameEntity {
    match e {
        GameEntity::Player => GameEntity::Cpu,
        GameEntity::Cpu => GameEntity::Player,
    }
}

impl GameEntity {
    /// The other side: the next dealer after a match, the next to play after a turn.
    pub fn other(&self) -> (o: GameEntity)
        ensures
            o == opponent(*self),
    {
        match self {
            GameEntity::Player => GameEntity::Cpu,
            GameEntity::Cpu => GameEntity::Player,
        }
    }
}

/// The dealer alternates: passing the deal twice gives it back.
pub proof fn deal_alternates(e: GameEntity)
    ensures
        opponent(e) != e,
        opponent(opponent(e)) == e,
{
}

/// The cards that `draw_cards` takes from a deck `d` when asked for `n`:
/// the last `min(n, d.len())` cards, the top (last) one first.
pub open spec fn drawn_cards(d: Seq<Card>, n: int) -> Seq<Card> {
    let k = if n < d.len() { n } else { d.len() as int };
    d.subrange(d.len() - k, d.len() as int).reverse()
}

/// The deck left after drawing `n` cards from `d`.
pub open spec fn deck_after_draw(d: Seq<Card>, n: int) -> Seq<Card> {
    let k = if n < d.len() { n } else { d.len() as int };
    d.take(d.len() - k)
}

/// Draws up to `num_card` cards from the top (end) of the deck, one at a time;
/// fewer when the deck runs out.
pub fn draw_cards(deck: &mut Vec<Card>, num_card: usize) -> (drawn: Vec<Card>)
    ensures
        drawn@ == drawn_cards(old(deck)@, num_card as int),
        final(deck)@ == deck_after_draw(old(deck)@, num_card as int),
        drawn@.to_multiset().add(final(deck)@.to_multiset()) == old(deck)@.to_multiset(),
{
    let ghost d = deck@;
    let mut disposal_cards: Vec<Card> = Vec::new();
    let mut i: usize = 0;
    proof {
        broadcast use vstd::seq_lib::group_to_multiset_ensures;
        broadcast use vstd::multiset::group_multiset_axioms;

        assert(disposal_cards@.to_multiset() =~= Multiset::empty());
        assert(disposal_cards@.to_multiset().add(deck@.to_multiset()) =~= d.to_multiset());
        assert(deck@ =~= deck_after_draw(d, 0));
        assert(disposal_cards@ =~= drawn_cards(d, 0));
    }
    while i < num_card
        invariant
            i <= num_card,
            deck@ == deck_after_draw(d, i as int),
            disposal_cards@ == drawn_cards(d, i as int),
            disposal_cards@.to_multiset().add(deck@.to_multiset()) == d.to_multiset(),
        decreases num_card - i,
    {
        let ghost before_deck = deck@;
        let ghost before_drawn = disposal_cards@;
        if let Some(card) = deck.pop() {
            disposal_cards.push(card);
            proof {
                broadcast use vstd::seq_lib::group_to_multiset_ensures;
                broadcast use vstd::multiset::group_multiset_axioms;

                assert(before_deck =~= deck@.push(card));
                assert(disposal_cards@.to_multiset().add(deck@.to_multiset()) =~= before_drawn.to_multiset().add(
                    before_deck.to_multiset(),
                ));
            }
        }
        i = i + 1;
        assert(deck@ =~= deck_after_draw(d, i as int));
        assert(disposal_cards@ =~= drawn_cards(d, i as int));
    }
    disposal_cards
}

/// rand's thread-local random number generator, carried through opaquely.
#[verifier::external_type_specification]
#[verifier::external_body]
pub struct ExThreadRng(rand::rngs::ThreadRng);

/// A handle on rand's thread-local generator, through `rand::rng`.
/// Nothing is stated of it: its state is the machine's.
#[verifier::external_body]
fn thread_rng() -> rand::rngs::ThreadRng {
    rand::rng()
}

/// The dealer that a coin designates: heads for the player.
pub open spec fn dealer_from_coin_spec(heads: bool) -> GameEntity {
    if heads {
        GameEntity::Player
    } else {
        GameEntity::Cpu
    }
}

/// The dealer that a coin flip designates: heads for the player.
pub fn dealer_from_coin(heads: bool) -> (d: GameEntity)
    ensures
        d == dealer_from_coin_spec(heads),
{
    if heads {
        GameEntity::Player
    } else {
        GameEntity::Cpu
    }
}

/// Picks the first dealer of a session at random, with even odds: a coin
/// that comes up heads one time in two, heads for the player. Returns the
/// dealer together with the draw that designated it.
pub fn pick_initial_dealer() -> (r: (GameEntity, CoinDraw))
    ensures
        r.1.odds_numerator() == 1,
        r.1.odds_denominator() == 2,
        r.0 == dealer_from_coin_spec(r.1.came_up_heads()),
{
    let mut rng = thread_rng();
    let draw = coin_flip(&mut rng, 1, 2);
    (dealer_from_coin(draw.heads()), draw)
}

/// Shuffles the cards in place, through rand's `SliceRandom::shuffle`. Its
/// documentation promises a permutation (picked uniformly): the same cards,
/// each as often as before. Which permutation is random and not stated.
#[verifier::external_body]
fn shuffle_cards(cards: &mut Vec<Card>, rng: &mut rand::rngs::ThreadRng)
    ensures
        final(cards)@.len() == old(cards)@.len(),
        final(cards)@.to_multiset() == old(cards)@.to_multiset(),
{
    cards.shuffle(rng);
}


/// What a turn did: who played, which card, what it captured, whether the
/// capture cleared the table (a Chkobba), and how many cards the player's
/// won pile holds afterwards.
#[derive(Clone, Copy, PartialEq, Eq, Debug, Structural)]
pub struct TurnReport {
    pub who: GameEntity,
    pub card: Card,
    pub outcome: TurnOutcome,
    pub chkobba: bool,
    pub won_count: usize,
}

/// What became of the cards left on the table once the deck is exhausted.
#[derive(Clone, Copy, PartialEq, Eq, Debug, Structural)]
pub enum Sweep {
    /// The table was already empty.
    NothingLeft,
    /// The last side to capture took them.
    To(GameEntity),
    /// Nobody captured anything during the match: they count for no one.
    Discarded,
}

/// The state of one match.
pub struct MatchState {
    pub deck: Vec<Card>,
    pub table: Vec<Card>,
    pub player_hand: Vec<Card>,
    pub cpu_hand: Vec<Card>,
    pub player_won: Vec<Card>,
    pub cpu_won: Vec<Card>,
    pub last_capture: Option<GameEntity>,
    pub player_chkobbas: usize,
    pub cpu_chkobbas: usize,
    pub round_number: usize,
    pub dealer: GameEntity,
    pub current_turn: GameEntity,
}

impl MatchState {
    /// Every card of the match, wherever it is: deck, table, hands, won piles.
    pub open spec fn cards_in_play(&self) -> Multiset<Card> {
        self.deck@.to_multiset().add(self.table@.to_multiset()).add(self.player_hand@.to_multiset()).add(
            self.cpu_hand@.to_multiset(),
        ).add(self.player_won@.to_multiset()).add(self.cpu_won@.to_multiset())
    }

    /// Each Chkobba came with a capture of at least two cards into the pile of
    /// the side that made it.
    pub open spec fn wf(&self) -> bool {
        &&& 2 * self.player_chkobbas <= self.player_won@.len()
        &&& 2 * self.cpu_chkobbas <= self.cpu_won@.len()
    }

    /// The hand of side `e`.
    pub open spec fn hand_of(&self, e: GameEntity) -> Seq<Card> {
        match e {
            GameEntity::Player => self.player_hand@,
            GameEntity::Cpu => self.cpu_hand@,
        }
    }

    /// The won pile of side `e`.
    pub open spec fn won_of(&self, e: GameEntity) -> Seq<Card> {
        match e {
            GameEntity::Player => self.player_won@,
            GameEntity::Cpu => self.cpu_won@,
        }
    }

    /// The Chkobbas made by side `e`.
    pub open spec fn chkobbas_of(&self, e: GameEntity) -> int {
        match e {
            GameEntity::Player => self.player_chkobbas as int,
            GameEntity::Cpu => self.cpu_chkobbas as int,
        }
    }

    /// A match about to start with the given deck, top card last.
    pub fn with_deck(dealer: GameEntity, deck: Vec<Card>) -> (m: MatchState)
        ensures
            m.deck@ == deck@,
            m.table@.len() == 0,
            m.player_hand@.len() == 0,
            m.cpu_hand@.len() == 0,
            m.player_won@.len() == 0,
            m.cpu_won@.len() == 0,
            m.last_capture is None,
            m.player_chkobbas == 0,
            m.cpu_chkobbas == 0,
            m.round_number == 0,
            m.dealer == dealer,
            m.current_turn == opponent(dealer),
            m.cards_in_play() == deck@.to_multiset(),
            m.wf(),
    {
        let m = MatchState {
            deck,
            table: Vec::new(),
            player_hand: Vec::new(),
            cpu_hand: Vec::new(),
            player_won: Vec::new(),
            cpu_won: Vec::new(),
            last_capture: None,
            player_chkobbas: 0,
            cpu_chkobbas: 0,
            round_number: 0,
            dealer,
            current_turn: dealer.other(),
        };
        proof {
            broadcast use vstd::seq_lib::group_to_multiset_ensures;
            broadcast use vstd::multiset::group_multiset_axioms;

            assert(m.cards_in_play() =~= m.deck@.to_multiset());
        }
        m
    }

    /// A match about to start with the full deck, shuffled.
    pub fn new(dealer: GameEntity) -> (m: MatchState)
        ensures
            m.deck@.to_multiset() == deck_order().to_multiset(),
            m.deck@.len() == 40,
            m.table@.len() == 0,
            m.player_hand@.len() == 0,
            m.cpu_hand@.len() == 0,
            m.player_won@.len() == 0,
            m.cpu_won@.len() == 0,
            m.last_capture is None,
            m.player_chkobbas == 0,
            m.cpu_chkobbas == 0,
            m.round_number == 0,
            m.dealer == dealer,
            m.current_turn == opponent(dealer),
            m.cards_in_play() == deck_order().to_multiset(),
            m.wf(),
    {
        let mut rng = thread_rng();
        let mut deck = new_deck();
        shuffle_cards(&mut deck, &mut rng);
        MatchState::with_deck(dealer, deck)
    }

    /// The side that decides what becomes of the cut card: the one who does not deal.
    pub fn cut_chooser(&self) -> (e: GameEntity)
        ensures
            e == opponent(self.dealer),
    {
        self.dealer.other()
    }

    /// The card that will be cut: the top of the deck.
    pub fn cut_card(&self) -> (c: Option<Card>)
        ensures
            self.deck@.len() == 0 ==> c is None,
            self.deck@.len() > 0 ==> c == Some(self.deck@.last()),
    {
        if self.deck.len() == 0 {
            None
        } else {
            Some(self.deck[self.deck.len() - 1])
        }
    }

    /// Opens the match: the cut card is drawn; if it is kept it goes into the
    /// hand of the side that does not deal and four cards are laid on the
    /// table, otherwise it is laid face up on the table with three more.
    pub fn apply_cut(&mut self, keep: bool) -> (card: Card)
        requires
            old(self).deck@.len() > 0,
            old(self).table@.len() == 0,
        ensures
            ({
                let d = old(self).deck@.drop_last();
                let chooser = opponent(old(self).dealer);
                &&& card == old(self).deck@.last()
                &&& keep ==> {
                    &&& final(self).hand_of(chooser) == old(self).hand_of(chooser).push(card)
                    &&& final(self).hand_of(opponent(chooser)) == old(self).hand_of(opponent(chooser))
                    &&& final(self).table@ == drawn_cards(d, 4)
                    &&& final(self).deck@ == deck_after_draw(d, 4)
                }
                &&& !keep ==> {
                    &&& final(self).player_hand@ == old(self).player_hand@
                    &&& final(self).cpu_hand@ == old(self).cpu_hand@
                    &&& final(self).table@ == seq![card] + drawn_cards(d, 3)
                    &&& final(self).deck@ == deck_after_draw(d, 3)
                }
            }),
            final(self).player_won@ == old(self).player_won@,
            final(self).cpu_won@ == old(self).cpu_won@,
            final(self).last_capture == old(self).last_capture,
            final(self).player_chkobbas == old(self).player_chkobbas,
            final(self).cpu_chkobbas == old(self).cpu_chkobbas,
            final(self).round_number == old(self).round_number,
            final(self).dealer == old(self).dealer,
            final(self).current_turn == old(self).current_turn,
            final(self).cards_in_play() == old(self).cards_in_play(),
            old(self).round_number == 0 ==> final(self).phase() == Phase::Deal,
    {
        let ghost d0 = self.deck@;
        let ghost before = *self;
        let mut drawn_list = draw_cards(&mut self.deck, 1);
        let first_card = drawn_list.remove(0);
        let ghost d = self.deck@;
        proof {
            assert(d =~= d0.drop_last());
            assert(first_card == d0.last());
        }
        if keep {
            if self.dealer == GameEntity::Cpu {
                self.player_hand.push(first_card);
            } else {
                self.cpu_hand.push(first_card);
            }
            let mut laid = draw_cards(&mut self.deck, 4);
            self.table.append(&mut laid);
            proof {
                broadcast use vstd::seq_lib::group_to_multiset_ensures;
                broadcast use vstd::multiset::group_multiset_axioms;

                assert(self.table@ =~= drawn_cards(d, 4));
                assert(d0 =~= d.push(first_card));
                assert(self.cards_in_play() =~= before.cards_in_play());
            }
        } else {
            self.table.push(first_card);
            let mut laid = draw_cards(&mut self.deck, 3);
            self.table.append(&mut laid);
            proof {
                broadcast use vstd::seq_lib::group_to_multiset_ensures;
                broadcast use vstd::multiset::group_multiset_axioms;

                assert(self.table@ =~= seq![first_card] + drawn_cards(d, 3));
                assert(d0 =~= d.push(first_card));
                vstd::seq_lib::lemma_multiset_commutative(seq![first_card], drawn_cards(d, 3));
                assert(seq![first_card] =~= Seq::<Card>::empty().push(first_card));
                assert(self.cards_in_play() =~= before.cards_in_play());
            }
        }
        first_card
    }

    /// Deals a round: each side, the player first, draws three cards into an
    /// empty hand or two into a hand that already holds the kept cut card.
    /// The round count goes up and the side that does not deal plays first.
    pub fn deal_hands(&mut self)
        requires
            old(self).round_number < usize::MAX,
        ensures
            ({
                let d = old(self).deck@;
                let pn = if old(self).player_hand@.len() == 0 { 3int } else { 2int };
                let cn = if old(self).cpu_hand@.len() == 0 { 3int } else { 2int };
                let d1 = deck_after_draw(d, pn);
                &&& final(self).player_hand@ == old(self).player_hand@ + drawn_cards(d, pn)
                &&& final(self).cpu_hand@ == old(self).cpu_hand@ + drawn_cards(d1, cn)
                &&& final(self).deck@ == deck_after_draw(d1, cn)
            }),
            final(self).table@ == old(self).table@,
            final(self).player_won@ == old(self).player_won@,
            final(self).cpu_won@ == old(self).cpu_won@,
            final(self).last_capture == old(self).last_capture,
            final(self).player_chkobbas == old(self).player_chkobbas,
            final(self).cpu_chkobbas == old(self).cpu_chkobbas,
            final(self).round_number == old(self).round_number + 1,
            final(self).dealer == old(self).dealer,
            final(self).current_turn == opponent(old(self).dealer),
            final(self).cards_in_play() == old(self).cards_in_play(),
            old(self).deck@.len() > 0 ==> final(self).phase() == Phase::Turn,
    {
        let ghost before = *self;
        let ghost d = self.deck@;
        let player_count: usize = if self.player_hand.len() == 0 { 3 } else { 2 };
        let mut extra = draw_cards(&mut self.deck, player_count);
        let ghost drawn_p = extra@;
        let ghost d1 = self.deck@;
        self.player_hand.append(&mut extra);
        let cpu_count: usize = if self.cpu_hand.len() == 0 { 3 } else { 2 };
        let mut extra = draw_cards(&mut self.deck, cpu_count);
        let ghost drawn_c = extra@;
        self.cpu_hand.append(&mut extra);
        self.round_number = self.round_number + 1;
        self.current_turn = self.dealer.other();
        proof {
            broadcast use vstd::seq_lib::group_to_multiset_ensures;
            broadcast use vstd::multiset::group_multiset_axioms;

            vstd::seq_lib::lemma_multiset_commutative(before.player_hand@, drawn_p);
            vstd::seq_lib::lemma_multiset_commutative(before.cpu_hand@, drawn_c);
            assert(self.cards_in_play() =~= before.cards_in_play());
        }
    }

    /// The card the player must play without choosing: the last card of the
    /// hand when the table is empty.
    pub fn auto_play_index(&self) -> (r: Option<usize>)
        ensures
            r == (if self.player_hand@.len() == 1 && self.table@.len() == 0 { Some(0usize) } else { None }),
    {
        if self.player_hand.len() == 1 && self.table.len() == 0 {
            Some(0)
        } else {
            None
        }
    }

    /// The position in its hand of the card the CPU plays (see
    /// `choose_best_move`): among the candidate moves of its hand on the
    /// current table, the last one with the highest score.
    pub fn cpu_move(&self) -> (r: usize)
        ensures
            ({
                let c = hand_candidates(self.cpu_hand@, self.table@, self.cpu_hand@.len() as int);
                &&& c.len() == 0 ==> r == 0
                &&& c.len() > 0 ==> exists|p: int| is_last_best(c, p) && r == c[p].0
            }),
            self.cpu_hand@.len() > 0 ==> r < self.cpu_hand@.len(),
            self.cpu_hand@.len() == 0 ==> r == 0,
    {
        choose_best_move(self.cpu_hand.as_slice(), self.table.as_slice())
    }

    /// Both hands are empty: the round is over.
    pub fn round_over(&self) -> (r: bool)
        ensures
            r == (self.player_hand@.len() == 0 && self.cpu_hand@.len() == 0),
    {
        self.player_hand.len() == 0 && self.cpu_hand.len() == 0
    }

    /// The deck is empty: the match ends with this round.
    pub fn deck_exhausted(&self) -> (r: bool)
        ensures
            r == (self.deck@.len() == 0),
    {
        self.deck.len() == 0
    }
}

/// What a match does next.
#[derive(Clone, Copy, PartialEq, Eq, Debug, Structural)]
pub enum Phase {
    /// Before the first round: the cut card is drawn (`apply_cut`).
    Cut,
    /// Hands are dealt for a new round (`deal_hands`).
    Deal,
    /// A round is under way: the side whose turn it is plays (`play_turn`).
    Turn,
    /// The last round is over and the deck is empty: the leftover table
    /// cards are swept (`final_sweep`) and the match is scored.
    Finished,
}

impl MatchState {
    /// Nothing has been drawn yet in the opening round: no card on the
    /// table and none in either hand.
    pub open spec fn before_cut(&self) -> bool {
        &&& self.round_number == 0
        &&& self.table@.len() == 0
        &&& self.player_hand@.len() == 0
        &&& self.cpu_hand@.len() == 0
    }

    /// The phase of the match. Before the first round the cut comes first
    /// (or, with nothing left to cut, the match is over), then the first
    /// hands are dealt. In a later round the sides take turns while either
    /// holds a card; once both hands are empty, a new round is dealt while
    /// the deck holds cards, and the match is finished when it does not.
    pub open spec fn phase(&self) -> Phase {
        if self.round_number == 0 {
            if !self.before_cut() {
                Phase::Deal
            } else if self.deck@.len() > 0 {
                Phase::Cut
            } else {
                Phase::Finished
            }
        } else if self.player_hand@.len() > 0 || self.cpu_hand@.len() > 0 {
            Phase::Turn
        } else if self.deck@.len() > 0 {
            Phase::Deal
        } else {
            Phase::Finished
        }
    }

    /// The phase of the match (see `phase`).
    pub fn next_phase(&self) -> (p: Phase)
        ensures
            p == self.phase(),
    {
        if self.round_number == 0 {
            if self.table.len() > 0 || self.player_hand.len() > 0 || self.cpu_hand.len() > 0 {
                Phase::Deal
            } else if self.deck.len() > 0 {
                Phase::Cut
            } else {
                Phase::Finished
            }
        } else if self.player_hand.len() > 0 || self.cpu_hand.len() > 0 {
            Phase::Turn
        } else if self.deck.len() > 0 {
            Phase::Deal
        } else {
            Phase::Finished
        }
    }
}

/// When a match is finished, every one of its cards lies on the table or in
/// a won pile: the deck and both hands are empty. In particular a match
/// started from the full deck ends with all forty cards on the table or won.
pub proof fn finished_match_holds_every_card(m: &MatchState)
    requires
        m.phase() == Phase::Finished,
    ensures
        m.deck@.len() == 0,
        m.player_hand@.len() == 0,
        m.cpu_hand@.len() == 0,
        m.cards_in_play() == m.table@.to_multiset().add(m.player_won@.to_multiset()).add(m.cpu_won@.to_multiset()),
{
    broadcast use vstd::seq_lib::group_to_multiset_ensures;
    broadcast use vstd::multiset::group_multiset_axioms;

    assert(m.deck@.to_multiset() =~= Multiset::empty());
    assert(m.player_hand@.to_multiset() =~= Multiset::empty());
    assert(m.cpu_hand@.to_multiset() =~= Multiset::empty());
    assert(m.cards_in_play() =~= m.table@.to_multiset().add(m.player_won@.to_multiset()).add(m.cpu_won@.to_multiset()));
}


/// The fields of a match that a turn leaves alone.
pub open spec fn same_between_turns(a: &MatchState, b: &MatchState) -> bool {
    &&& b.deck@ == a.deck@
    &&& b.round_number == a.round_number
    &&& b.dealer == a.dealer
}

impl MatchState {
    /// Plays the turn of the side whose turn it is: it drops the card at
    /// `hand_index` of its hand, which captures or stays on the table (see
    /// `turn_effect`); a capture makes it the last side to capture, and a
    /// capture that clears the table is a Chkobba. A side with an empty hand
    /// passes. Either way the turn goes to the other side.
    pub fn play_turn(&mut self, hand_index: usize) -> (r: Option<TurnReport>)
        requires
            old(self).chkobbas_of(old(self).current_turn) < usize::MAX,
            old(self).hand_of(old(self).current_turn).len() > 0 ==> hand_index < old(self).hand_of(
                old(self).current_turn,
            ).len(),
        ensures
            ({
                let e = old(self).current_turn;
                let o = opponent(e);
                &&& final(self).current_turn == o
                &&& same_between_turns(&*old(self), &*final(self))
                &&& final(self).hand_of(o) == old(self).hand_of(o)
                &&& final(self).won_of(o) == old(self).won_of(o)
                &&& final(self).chkobbas_of(o) == old(self).chkobbas_of(o)
                &&& old(self).hand_of(e).len() == 0 ==> {
                    &&& r is None
                    &&& final(self).hand_of(e) == old(self).hand_of(e)
                    &&& final(self).won_of(e) == old(self).won_of(e)
                    &&& final(self).table@ == old(self).table@
                    &&& final(self).last_capture == old(self).last_capture
                    &&& final(self).chkobbas_of(e) == old(self).chkobbas_of(e)
                }
                &&& old(self).hand_of(e).len() > 0 ==> {
                    &&& r matches Some(rep)
                    &&& rep.who == e
                    &&& rep.card == old(self).hand_of(e)[hand_index as int]
                    &&& final(self).hand_of(e) == old(self).hand_of(e).remove(hand_index as int)
                    &&& turn_effect(old(self).table@, old(self).won_of(e), rep.card, final(self).table@, final(self).won_of(e), rep.outcome)
                    &&& rep.chkobba == (rep.outcome != TurnOutcome::NoMatch && final(self).table@.len() == 0)
                    &&& rep.won_count == final(self).won_of(e).len()
                    &&& final(self).last_capture == if rep.outcome != TurnOutcome::NoMatch { Some(e) } else { old(self).last_capture }
                    &&& final(self).chkobbas_of(e) == old(self).chkobbas_of(e) + if rep.chkobba { 1int } else { 0int }
                }
            }),
            final(self).cards_in_play() == old(self).cards_in_play(),
            old(self).wf() ==> final(self).wf(),
    {
        let ghost before = *self;
        match self.current_turn {
            GameEntity::Player => {
                if self.player_hand.len() == 0 {
                    self.current_turn = GameEntity::Cpu;
                    return None;
                }
                let dropped_card = self.player_hand.remove(hand_index);
                let outcome = process_turn(dropped_card, &mut self.table, &mut self.player_won);
                proof {
                    lemma_turn_conserves(before.table@, before.player_won@, before.player_hand@, hand_index as int, self.table@, self.player_won@, self.player_hand@, outcome);
                    lemma_regroup(
                        before.deck@.to_multiset(),
                        before.table@.to_multiset(),
                        before.player_hand@.to_multiset(),
                        before.cpu_hand@.to_multiset(),
                        before.player_won@.to_multiset(),
                        before.cpu_won@.to_multiset(),
                        self.table@.to_multiset(),
                        self.player_hand@.to_multiset(),
                        self.cpu_hand@.to_multiset(),
                        self.player_won@.to_multiset(),
                        self.cpu_won@.to_multiset(),
                    );
                }
                let won_count = self.player_won.len();
                let mut chkobba = false;
                if outcome != TurnOutcome::NoMatch {
                    self.last_capture = Some(GameEntity::Player);
                    if self.table.len() == 0 {
                        chkobba = true;
                        self.player_chkobbas = self.player_chkobbas + 1;
                    }
                }
                self.current_turn = GameEntity::Cpu;
                Some(TurnReport { who: GameEntity::Player, card: dropped_card, outcome, chkobba, won_count })
            },
            GameEntity::Cpu => {
                if self.cpu_hand.len() == 0 {
                    self.current_turn = GameEntity::Player;
                    return None;
                }
                let dropped_card = self.cpu_hand.remove(hand_index);
                let outcome = process_turn(dropped_card, &mut self.table, &mut self.cpu_won);
                proof {
                    lemma_turn_conserves(before.table@, before.cpu_won@, before.cpu_hand@, hand_index as int, self.table@, self.cpu_won@, self.cpu_hand@, outcome);
                    lemma_regroup(
                        before.deck@.to_multiset(),
                        before.table@.to_multiset(),
                        before.player_hand@.to_multiset(),
                        before.cpu_hand@.to_multiset(),
                        before.player_won@.to_multiset(),
                        before.cpu_won@.to_multiset(),
                        self.table@.to_multiset(),
                        self.player_hand@.to_multiset(),
                        self.cpu_hand@.to_multiset(),
                        self.player_won@.to_multiset(),
                        self.cpu_won@.to_multiset(),
                    );
                }
                let won_count = self.cpu_won.len();
                let mut chkobba = false;
                if outcome != TurnOutcome::NoMatch {
                    self.last_capture = Some(GameEntity::Cpu);
                    if self.table.len() == 0 {
                        chkobba = true;
                        self.cpu_chkobbas = self.cpu_chkobbas + 1;
                    }
                }
                self.current_turn = GameEntity::Player;
                Some(TurnReport { who: GameEntity::Cpu, card: dropped_card, outcome, chkobba, won_count })
            },
        }
    }
}

impl MatchState {
    /// Once the deck is exhausted, the cards left on the table go to the last
    /// side that captured; when nobody captured they are left out of the count.
    pub fn final_sweep(&mut self) -> (r: Sweep)
        ensures
            old(self).table@.len() == 0 ==> r == Sweep::NothingLeft,
            old(self).table@.len() > 0 && old(self).last_capture is None ==> r == Sweep::Discarded,
            old(self).table@.len() > 0 ==> (old(self).last_capture matches Some(e) ==> {
                &&& r == Sweep::To(e)
                &&& final(self).won_of(e) == old(self).won_of(e) + old(self).table@
                &&& final(self).won_of(opponent(e)) == old(self).won_of(opponent(e))
                &&& final(self).table@.len() == 0
            }),
            !(r is To) ==> final(self).table@ == old(self).table@ && final(self).player_won@ == old(self).player_won@
                && final(self).cpu_won@ == old(self).cpu_won@,
            final(self).deck@ == old(self).deck@,
            final(self).player_hand@ == old(self).player_hand@,
            final(self).cpu_hand@ == old(self).cpu_hand@,
            final(self).last_capture == old(self).last_capture,
            final(self).player_chkobbas == old(self).player_chkobbas,
            final(self).cpu_chkobbas == old(self).cpu_chkobbas,
            final(self).round_number == old(self).round_number,
            final(self).dealer == old(self).dealer,
            final(self).current_turn == old(self).current_turn,
            final(self).cards_in_play() == old(self).cards_in_play(),
            old(self).wf() ==> final(self).wf(),
    {
        if self.table.len() == 0 {
            return Sweep::NothingLeft;
        }
        let ghost before = *self;
        match self.last_capture {
            Some(GameEntity::Player) => {
                self.player_won.append(&mut self.table);
                proof {
                    broadcast use vstd::seq_lib::group_to_multiset_ensures;
                    broadcast use vstd::multiset::group_multiset_axioms;

                    vstd::seq_lib::lemma_multiset_commutative(before.player_won@, before.table@);
                    assert(self.table@.to_multiset() =~= Multiset::empty());
                    assert(self.cards_in_play() =~= before.cards_in_play());
                }
                Sweep::To(GameEntity::Player)
            },
            Some(GameEntity::Cpu) => {
                self.cpu_won.append(&mut self.table);
                proof {
                    broadcast use vstd::seq_lib::group_to_multiset_ensures;
                    broadcast use vstd::multiset::group_multiset_axioms;

                    vstd::seq_lib::lemma_multiset_commutative(before.cpu_won@, before.table@);
                    assert(self.table@.to_multiset() =~= Multiset::empty());
                    assert(self.cards_in_play() =~= before.cards_in_play());
                }
                Sweep::To(GameEntity::Cpu)
            },
            None => Sweep::Discarded,
        }
    }

    /// The scoreboard of the match, from both won piles and the Chkobbas made.
    pub fn scoreboard(&self) -> (b: Scoreboard)
        requires
            self.player_chkobbas <= usize::MAX - 4,
            self.cpu_chkobbas <= usize::MAX - 4,
        ensures
            b == scoreboard_for(
                stats_of(self.player_won@),
                stats_of(self.cpu_won@),
                self.player_chkobbas as int,
                self.cpu_chkobbas as int,
            ),
    {
        let player_stats = calculate_pile_stats(self.player_won.as_slice());
        let cpu_stats = calculate_pile_stats(self.cpu_won.as_slice());
        score_match(&player_stats, &cpu_stats, self.player_chkobbas, self.cpu_chkobbas)
    }
}

/// Regrouping the six piles of a match after a turn changed the table, one
/// hand and one won pile together without changing their combined cards.
proof fn lemma_regroup(
    d: Multiset<Card>,
    t: Multiset<Card>,
    ph: Multiset<Card>,
    ch: Multiset<Card>,
    pw: Multiset<Card>,
    cw: Multiset<Card>,
    t2: Multiset<Card>,
    ph2: Multiset<Card>,
    ch2: Multiset<Card>,
    pw2: Multiset<Card>,
    cw2: Multiset<Card>,
)
    requires
        (ph2 == ph && pw2 == pw && t2.add(cw2).add(ch2) == t.add(cw).add(ch))
            || (ch2 == ch && cw2 == cw && t2.add(pw2).add(ph2) == t.add(pw).add(ph)),
    ensures
        d.add(t2).add(ph2).add(ch2).add(pw2).add(cw2) == d.add(t).add(ph).add(ch).add(pw).add(cw),
{
    broadcast use vstd::multiset::group_multiset_axioms;

    if ph2 == ph && pw2 == pw && t2.add(cw2).add(ch2) == t.add(cw).add(ch) {
        assert forall|v: Card| d.add(t2).add(ph2).add(ch2).add(pw2).add(cw2).count(v) == d.add(t).add(ph).add(ch).add(
            pw,
        ).add(cw).count(v) by {
            assert(t2.add(cw2).add(ch2).count(v) == t.add(cw).add(ch).count(v));
        }
    } else {
        assert forall|v: Card| d.add(t2).add(ph2).add(ch2).add(pw2).add(cw2).count(v) == d.add(t).add(ph).add(ch).add(
            pw,
        ).add(cw).count(v) by {
            assert(t2.add(pw2).add(ph2).count(v) == t.add(pw).add(ph).count(v));
        }
    }
    assert(d.add(t2).add(ph2).add(ch2).add(pw2).add(cw2) =~= d.add(t).add(ph).add(ch).add(pw).add(cw));
}

/// A turn moves a card from the hand to the table or a won pile: the three
/// together hold the same cards, and a capture adds at least two cards to
/// the won pile.
proof fn lemma_turn_conserves(
    t: Seq<Card>,
    w: Seq<Card>,
    h: Seq<Card>,
    i: int,
    t2: Seq<Card>,
    w2: Seq<Card>,
    h2: Seq<Card>,
    r: TurnOutcome,
)
    requires
        0 <= i < h.len(),
        h2 == h.remove(i),
        turn_effect(t, w, h[i], t2, w2, r),
        pile_cards(t2, w2) == pile_cards(t, w).insert(h[i]),
    ensures
        t2.to_multiset().add(w2.to_multiset()).add(h2.to_multiset()) == t.to_multiset().add(w.to_multiset()).add(
            h.to_multiset(),
        ),
        r != TurnOutcome::NoMatch ==> w2.len() >= w.len() + 2,
        r == TurnOutcome::NoMatch ==> w2 == w,
{
    broadcast use vstd::seq_lib::group_to_multiset_ensures;
    broadcast use vstd::multiset::group_multiset_axioms;

    assert(h.to_multiset().count(h[i]) > 0);
    assert(t2.to_multiset().add(w2.to_multiset()).add(h2.to_multiset()) =~= t.to_multiset().add(w.to_multiset()).add(
        h.to_multiset(),
    ));
}

} // verus!
