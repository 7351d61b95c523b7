//! The historical statistics kept across sessions: matches played and won,
//! win streaks, and Chkobbas made.

use vstd::prelude::*;
use crate::game::{GameEntity, opponent};

verus! {

/// Matches played and won by each side (a draw counts as played only); the
/// current streak of consecutive wins (its holder and length, none after a
/// draw); each side's longest streak; and each side's total Chkobbas.
#[derive(Clone, Copy, PartialEq, Eq, Debug, Structural)]
pub struct GameStats {
    pub total_games: u32,
    pub player_wins: u32,
    pub cpu_wins: u32,
    pub streak_holder: Option<GameEntity>,
    pub streak_length: u32,
    pub player_best_streak: u32,
    pub cpu_best_streak: u32,
    pub player_chkobbas: u32,
    pub cpu_chkobbas: u32,
}

/// The larger of two numbers.
pub open spec fn max_of(a: int, b: int) -> int {
    if a >= b {
        a
    } else {
        b
    }
}

/// The statistics after one more match, won by `winner` (`None` for a draw),
/// in which the player made `player_chkobbas` Chkobbas and the CPU
/// `cpu_chkobbas`: one more match played, one more win for the winner, the
/// winner's streak extended (or started) and its best streak raised to it, a
/// draw ending the current streak, and the Chkobbas added to the totals.
pub open spec fn after_match(s: GameStats, winner: Option<GameEntity>, player_chkobbas: int, cpu_chkobbas: int) -> GameStats {
    let length = match winner {
        Some(e) => if s.streak_holder == Some(e) { s.streak_length + 1 } else { 1 },
        None => 0,
    };
    GameStats {
        total_games: (s.total_games + 1) as u32,
        player_wins: (s.player_wins + if winner == Some(GameEntity::Player) { 1int } else { 0int }) as u32,
        cpu_wins: (s.cpu_wins + if winner == Some(GameEntity::Cpu) { 1int } else { 0int }) as u32,
        streak_holder: winner,
        streak_length: length as u32,
        player_best_streak: (if winner == Some(GameEntity::Player) {
            max_of(s.player_best_streak as int, length)
        } else {
            s.player_best_streak as int
        }) as u32,
        cpu_best_streak: (if winner == Some(GameEntity::Cpu) {
            max_of(s.cpu_best_streak as int, length)
        } else {
            s.cpu_best_streak as int
        }) as u32,
        player_chkobbas: (s.player_chkobbas + player_chkobbas) as u32,
        cpu_chkobbas: (s.cpu_chkobbas + cpu_chkobbas) as u32,
    }
}

impl GameStats {
    /// Empty statistics, used when no saved statistics can be read.
    pub fn new() -> (s: GameStats)
        ensures
            s.total_games == 0,
            s.player_wins == 0,
            s.cpu_wins == 0,
            s.streak_holder is None,
            s.streak_length == 0,
            s.player_best_streak == 0,
            s.cpu_best_streak == 0,
            s.player_chkobbas == 0,
            s.cpu_chkobbas == 0,
            s.consistent(),
    {
        GameStats {
            total_games: 0,
            player_wins: 0,
            cpu_wins: 0,
            streak_holder: None,
            streak_length: 0,
            player_best_streak: 0,
            cpu_best_streak: 0,
            player_chkobbas: 0,
            cpu_chkobbas: 0,
        }
    }

    /// No more decisive matches than matches played; a streak exactly when its
    /// length is positive; no streak longer than its holder's best; no best
    /// streak longer than that side's wins.
    pub open spec fn consistent(self) -> bool {
        &&& self.player_wins + self.cpu_wins <= self.total_games
        &&& (self.streak_holder is None <==> self.streak_length == 0)
        &&& self.streak_holder == Some(GameEntity::Player) ==> self.streak_length <= self.player_best_streak
        &&& self.streak_holder == Some(GameEntity::Cpu) ==> self.streak_length <= self.cpu_best_streak
        &&& self.player_best_streak <= self.player_wins
        &&& self.cpu_best_streak <= self.cpu_wins
    }

    /// Records a finished match won by `winner` (`None` for a draw), with the
    /// Chkobbas each side made in it (see `after_match`).
    pub fn record_match(&mut self, winner: Option<GameEntity>, player_chkobbas: u32, cpu_chkobbas: u32)
        requires
            old(self).total_games < u32::MAX,
            winner == Some(GameEntity::Player) ==> old(self).player_wins < u32::MAX,
            winner == Some(GameEntity::Cpu) ==> old(self).cpu_wins < u32::MAX,
            winner is Some && old(self).streak_holder == winner ==> old(self).streak_length < u32::MAX,
            old(self).player_chkobbas + player_chkobbas <= u32::MAX,
            old(self).cpu_chkobbas + cpu_chkobbas <= u32::MAX,
        ensures
            *final(self) == after_match(*old(self), winner, player_chkobbas as int, cpu_chkobbas as int),
            old(self).consistent() ==> final(self).consistent(),
    {
        let length: u32 = match winner {
            Some(e) => {
                if self.streak_holder == Some(e) {
                    self.streak_length + 1
                } else {
                    1
                }
            },
            None => 0,
        };
        match winner {
            Some(GameEntity::Player) => {
                self.player_wins = self.player_wins + 1;
                if length > self.player_best_streak {
                    self.player_best_streak = length;
                }
            },
            Some(GameEntity::Cpu) => {
                self.cpu_wins = self.cpu_wins + 1;
                if length > self.cpu_best_streak {
                    self.cpu_best_streak = length;
                }
            },
            None => {},
        }
        self.streak_holder = winner;
        self.streak_length = length;
        self.total_games = self.total_games + 1;
        self.player_chkobbas = self.player_chkobbas + player_chkobbas;
        self.cpu_chkobbas = self.cpu_chkobbas + cpu_chkobbas;
    }
}

/// The result of one match: its winner (`None` for a draw) and the Chkobbas
/// the player and the CPU made in it.
pub type MatchResult = (Option<GameEntity>, u32, u32);

/// The statistics after recording `results` in order.
pub open spec fn after_matches(s: GameStats, results: Seq<MatchResult>) -> GameStats
    decreases results.len(),
{
    if results.len() == 0 {
        s
    } else {
        let r = results.last();
        after_match(after_matches(s, results.drop_last()), r.0, r.1 as int, r.2 as int)
    }
}

/// How many of the last results in a row were won by `e`.
pub open spec fn trailing_wins(results: Seq<MatchResult>, e: GameEntity) -> int
    decreases results.len(),
{
    if results.len() > 0 && results.last().0 == Some(e) {
        trailing_wins(results.drop_last(), e) + 1
    } else {
        0
    }
}

/// How many of the results were won by `e`.
pub open spec fn wins_of(results: Seq<MatchResult>, e: GameEntity) -> int
    decreases results.len(),
{
    if results.len() == 0 {
        0
    } else {
        wins_of(results.drop_last(), e) + if results.last().0 == Some(e) { 1int } else { 0int }
    }
}

/// The Chkobbas made over the results: by the player, or by the CPU.
pub open spec fn chkobbas_over(results: Seq<MatchResult>, by_player: bool) -> int
    decreases results.len(),
{
    if results.len() == 0 {
        0
    } else {
        chkobbas_over(results.drop_last(), by_player) + if by_player {
            results.last().1 as int
        } else {
            results.last().2 as int
        }
    }
}

/// The current streak is the run of wins that ends the recorded matches:
/// after a draw there is none; otherwise the winner of the last match holds
/// it, as long as the number of matches it has won in a row (counting the
/// streak it already held when it won every recorded match).
pub proof fn streak_counts_consecutive_wins(s: GameStats, results: Seq<MatchResult>, e: GameEntity)
    requires
        s.streak_length + results.len() <= u32::MAX,
    ensures
        results.len() > 0 && results.last().0 is None ==> after_matches(s, results).streak_holder is None
            && after_matches(s, results).streak_length == 0,
        results.len() > 0 && results.last().0 == Some(e) ==> {
            &&& after_matches(s, results).streak_holder == Some(e)
            &&& after_matches(s, results).streak_length == trailing_wins(results, e) + if trailing_wins(results, e)
                == results.len() && s.streak_holder == Some(e) {
                s.streak_length as int
            } else {
                0int
            }
        },
        trailing_wins(results, e) <= results.len(),
    decreases results.len(),
{
    if results.len() > 0 {
        let rest = results.drop_last();
        streak_counts_consecutive_wins(s, rest, e);
        streak_counts_consecutive_wins(s, rest, opponent(e));
    }
}

/// Recording matches adds them up: one more match played per result, one
/// more win per result won by a side, and each side's Chkobbas added to its
/// total.
pub proof fn totals_add_up(s: GameStats, results: Seq<MatchResult>)
    requires
        s.total_games + results.len() <= u32::MAX,
        s.player_wins + results.len() <= u32::MAX,
        s.cpu_wins + results.len() <= u32::MAX,
        s.player_chkobbas + chkobbas_over(results, true) <= u32::MAX,
        s.cpu_chkobbas + chkobbas_over(results, false) <= u32::MAX,
    ensures
        after_matches(s, results).total_games == s.total_games + results.len(),
        after_matches(s, results).player_wins == s.player_wins + wins_of(results, GameEntity::Player),
        after_matches(s, results).cpu_wins == s.cpu_wins + wins_of(results, GameEntity::Cpu),
        after_matches(s, results).player_chkobbas == s.player_chkobbas + chkobbas_over(results, true),
        after_matches(s, results).cpu_chkobbas == s.cpu_chkobbas + chkobbas_over(results, false),
        wins_of(results, GameEntity::Player) <= results.len(),
        wins_of(results, GameEntity::Cpu) <= results.len(),
        chkobbas_over(results, true) >= 0,
        chkobbas_over(results, false) >= 0,
    decreases results.len(),
{
    if results.len() > 0 {
        totals_add_up(s, results.drop_last());
    }
}

} // verus!
