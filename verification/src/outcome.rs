//! The result of one match: who played, who won, whether it was a draw,
//! and whether the referee failed to produce a decided result.

use vstd::prelude::*;

verus! {

/// The structured result of a single pairing.
///
/// A non-empty `error` means the match could not be scored: the referee
/// process failed or its output held no recognized result.  Such an outcome
/// is still recorded in the ledger but contributes to nobody's record.
#[derive(Clone, Debug)]
pub struct MatchOutcome {
    pub round: String,
    pub group: String,
    pub game_number: u64,
    pub player_a: String,
    pub player_b: String,
    pub winner: Option<String>,
    pub is_draw: bool,
    pub error: Option<String>,
}

impl MatchOutcome {
    /// The match failed and must not be scored.
    pub open spec fn errored(self) -> bool {
        self.error is Some
    }

    /// `name` is one of the two participants.
    pub open spec fn involves(self, name: Seq<char>) -> bool {
        self.player_a@ == name || self.player_b@ == name
    }

    /// A decided, scorable outcome: exactly one of "draw" and "one of the
    /// two participants won" holds, and nothing is claimed of a failed match.
    pub open spec fn wf(self) -> bool {
        !self.errored() ==> {
            &&& self.is_draw <==> self.winner is None
            &&& self.winner matches Some(w) ==> self.involves(w@)
        }
    }

    /// The winner is `name` (never true of a draw or a failed match).
    pub open spec fn won_by(self, name: Seq<char>) -> bool {
        &&& !self.errored()
        &&& !self.is_draw
        &&& self.winner matches Some(w) && w@ == name
    }
}

} // verus!
