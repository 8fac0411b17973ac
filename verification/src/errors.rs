//! Fatal configuration errors.  Match-level failures are not here: they are
//! recorded inside a `MatchOutcome` and the round continues without them.

use vstd::prelude::*;

verus! {

/// An error that aborts the whole run before or during scheduling.
#[derive(Clone, Copy, Debug, PartialEq, Eq, Structural)]
pub enum TournamentError {
    /// The configured game kind is not one of the recognized games.
    UnsupportedGame,
    /// A scheduled pairing references a competitor with no launch descriptor.
    UnknownCompetitor,
}

impl TournamentError {
    /// A human-readable description of the error.
    pub fn describe(&self) -> (r: String)
        ensures
            *self == TournamentError::UnsupportedGame ==> r@ == "unsupported game type"@,
            *self == TournamentError::UnknownCompetitor ==> r@ == "unknown competitor"@,
    {
        match self {
            TournamentError::UnsupportedGame => "unsupported game type".to_owned(),
            TournamentError::UnknownCompetitor => "unknown competitor".to_owned(),
        }
    }
}

} // verus!
