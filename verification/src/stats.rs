//! Per-competitor, per-round scoring state and the policy that converts an
//! outcome into win/loss/draw deltas and point awards.

use vstd::prelude::*;
use crate::outcome::MatchOutcome;

verus! {

/// How many points a win and a draw are worth.
///
/// Point values are whole units; a half-point policy (win 1, draw 0.5) is
/// expressed by doubling both values (win 2, draw 1), which preserves every
/// ranking.
#[derive(Clone, Copy, Debug)]
pub struct ScoringPolicy {
    pub win_points: u32,
    pub draw_points: u32,
}

impl ScoringPolicy {
    /// The default policy: a win is worth two points and a draw one.
    pub fn standard() -> (r: ScoringPolicy)
        ensures
            r.win_points == 2,
            r.draw_points == 1,
    {
        ScoringPolicy { win_points: 2, draw_points: 1 }
    }
}

/// One competitor's record within one round and group.  Reset each round,
/// never carried backward.
#[derive(Clone, Debug)]
pub struct PlayerStats {
    pub name: String,
    pub wins: u64,
    pub losses: u64,
    pub draws: u64,
    pub points: u64,
}

impl PlayerStats {
    /// Total number of matches reflected in this record.
    pub open spec fn record_total(self) -> int {
        self.wins + self.losses + self.draws
    }

    /// The points field is exactly what the policy awards for this record.
    pub open spec fn points_consistent(self, policy: ScoringPolicy) -> bool {
        self.points == self.wins * policy.win_points + self.draws * policy.draw_points
    }

    /// A zeroed record for a competitor entering a round.
    pub fn new(name: &str) -> (r: PlayerStats)
        ensures
            r.name@ == name@,
            r.wins == 0,
            r.losses == 0,
            r.draws == 0,
            r.points == 0,
    {
        PlayerStats { name: name.to_owned(), wins: 0, losses: 0, draws: 0, points: 0 }
    }

    /// Fold one scorable outcome into this record: a draw increments draws
    /// and awards the draw points; a win by this competitor increments wins
    /// and awards the win points; anything else is a loss, worth nothing.
    pub fn add_result(&mut self, result: &MatchOutcome, policy: ScoringPolicy)
        requires
            !result.errored(),
            old(self).record_total() < 0x1000_0000_0000_0000,
            old(self).points < 0x1000_0000_0000_0000,
        ensures
            final(self).name == old(self).name,
            result.is_draw ==> *final(self) == (PlayerStats {
                draws: (old(self).draws + 1) as u64,
                points: (old(self).points + policy.draw_points) as u64,
                ..*old(self)
            }),
            !result.is_draw && result.won_by(old(self).name@) ==> *final(self) == (PlayerStats {
                wins: (old(self).wins + 1) as u64,
                points: (old(self).points + policy.win_points) as u64,
                ..*old(self)
            }),
            !result.is_draw && !result.won_by(old(self).name@) ==> *final(self) == (PlayerStats {
                losses: (old(self).losses + 1) as u64,
                ..*old(self)
            }),
    {
        if result.is_draw {
            self.draws = self.draws + 1;
            self.points = self.points + policy.draw_points as u64;
        } else {
            let won = match &result.winner {
                Some(w) => *w == self.name,
                None => false,
            };
            if won {
                self.wins = self.wins + 1;
                self.points = self.points + policy.win_points as u64;
            } else {
                self.losses = self.losses + 1;
            }
        }
    }
}

} // verus!
