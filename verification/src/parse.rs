//! Interpretation of the referee's captured output.
//!
//! Each supported game has its own win-signal vocabulary on standard output;
//! a line mentioning an error on standard error marks the match as failed,
//! whatever else was printed.  Output in which no recognized result appears
//! is treated as an execution error as well, so every scorable outcome is a
//! decided one.

use vstd::prelude::*;
use vstd::utf8::encode_utf8;
use crate::errors::TournamentError;
use crate::outcome::MatchOutcome;
use crate::text::contains_bytes;
use crate::text::contains_seq;

verus! {

/// The two recognized games, each played out by the external referee.
#[derive(Clone, Copy, Debug, PartialEq, Eq, Structural)]
pub enum GameKind {
    /// The 2-player grid game; the referee announces `Winner: Player X` or
    /// `Winner: Player O`.
    TicTacToe,
    /// The stone-placement game; the referee announces `Winner: blue` or
    /// `Winner: orange`.
    LaskerMorris,
}

/// Which game kind, if any, a configured game name denotes.
pub open spec fn game_kind_of(s: Seq<char>) -> Option<GameKind> {
    if s == "tictactoe"@ {
        Some(GameKind::TicTacToe)
    } else if s == "laskermorris"@ || s == "lasker_morris"@ || s == "lasker-morris"@ {
        Some(GameKind::LaskerMorris)
    } else {
        None
    }
}

/// Recognize a configured game name, or reject the configuration.
pub fn parse_game_kind(s: &str) -> (r: Result<GameKind, TournamentError>)
    ensures
        match r {
            Ok(k) => game_kind_of(s@) == Some(k),
            Err(e) => game_kind_of(s@) is None && e == TournamentError::UnsupportedGame,
        },
{
    let owned = s.to_owned();
    if owned == "tictactoe".to_owned() {
        Ok(GameKind::TicTacToe)
    } else if owned == "laskermorris".to_owned() || owned == "lasker_morris".to_owned()
        || owned == "lasker-morris".to_owned() {
        Ok(GameKind::LaskerMorris)
    } else {
        Err(TournamentError::UnsupportedGame)
    }
}

/// The UTF-8 encoding of `pat` occurs in the encoding of `s`.
pub open spec fn output_contains(s: Seq<char>, pat: Seq<char>) -> bool {
    contains_seq(encode_utf8(s), encode_utf8(pat))
}

/// Standard error is non-empty and mentions an error.
pub open spec fn error_detected(err: Seq<char>) -> bool {
    err.len() > 0 && (output_contains(err, "Error"@) || output_contains(err, "error"@))
}

/// One of the two literal draw announcements appears.
pub open spec fn draw_detected(out: Seq<char>) -> bool {
    output_contains(out, "Game over! Draw!"@) || output_contains(out, "Game over! It's a draw!"@)
}

/// The referee announced that some winner exists.
pub open spec fn winner_announced(out: Seq<char>) -> bool {
    output_contains(out, "Game over! Winner:"@)
}

/// The win signal that maps to the first-listed competitor appears.
pub open spec fn side_a_signal(kind: GameKind, out: Seq<char>) -> bool {
    match kind {
        GameKind::TicTacToe => output_contains(out, "Winner: Player X"@),
        GameKind::LaskerMorris => output_contains(out, "Winner: blue"@),
    }
}

/// The win signal that maps to the second-listed competitor appears.
pub open spec fn side_b_signal(kind: GameKind, out: Seq<char>) -> bool {
    match kind {
        GameKind::TicTacToe => output_contains(out, "Winner: Player O"@),
        GameKind::LaskerMorris => output_contains(out, "Winner: orange"@),
    }
}

/// The captured output holds a decided result: a draw, or a win signal for
/// one of the two sides together with the winner announcement.
pub open spec fn result_decided(kind: GameKind, out: Seq<char>) -> bool {
    draw_detected(out) || (winner_announced(out) && (side_a_signal(kind, out) || side_b_signal(
        kind,
        out,
    )))
}

/// The message recorded when the output holds no recognized result.
pub open spec fn undecided_message() -> Seq<char> {
    "no decided result in referee output"@
}

/// Turn the referee's captured output into a structured outcome.
///
/// Precedence: an error on standard error short-circuits everything; then a
/// draw announcement; then the win signals, the first side's before the
/// second side's.  Output with none of these yields an execution error, so
/// a returned outcome without an error is always decided.
pub fn parse_game_result(
    kind: GameKind,
    stdout: &str,
    stderr: &str,
    round: &str,
    group: &str,
    game_number: u64,
    player_a: &str,
    player_b: &str,
) -> (r: MatchOutcome)
    ensures
        r.round@ == round@,
        r.group@ == group@,
        r.game_number == game_number,
        r.player_a@ == player_a@,
        r.player_b@ == player_b@,
        r.wf(),
        error_detected(stderr@) ==> {
            &&& r.error matches Some(e) && e@ == stderr@
            &&& r.winner is None
            &&& !r.is_draw
        },
        !error_detected(stderr@) && draw_detected(stdout@) ==> {
            &&& r.error is None
            &&& r.winner is None
            &&& r.is_draw
        },
        !error_detected(stderr@) && !draw_detected(stdout@) && winner_announced(stdout@)
            && side_a_signal(kind, stdout@) ==> {
            &&& r.error is None
            &&& r.winner matches Some(w) && w@ == player_a@
            &&& !r.is_draw
        },
        !error_detected(stderr@) && !draw_detected(stdout@) && winner_announced(stdout@)
            && !side_a_signal(kind, stdout@) && side_b_signal(kind, stdout@) ==> {
            &&& r.error is None
            &&& r.winner matches Some(w) && w@ == player_b@
            &&& !r.is_draw
        },
        !error_detected(stderr@) && !result_decided(kind, stdout@) ==> {
            &&& r.error matches Some(e) && e@ == undecided_message()
            &&& r.winner is None
            &&& !r.is_draw
        },
{
    let mut result = MatchOutcome {
        round: round.to_owned(),
        group: group.to_owned(),
        game_number,
        player_a: player_a.to_owned(),
        player_b: player_b.to_owned(),
        winner: None,
        is_draw: false,
        error: None,
    };

    let err_bytes = stderr.as_bytes();
    if !stderr.is_empty() && (contains_bytes(err_bytes, "Error".as_bytes()) || contains_bytes(
        err_bytes,
        "error".as_bytes(),
    )) {
        result.error = Some(stderr.to_owned());
        return result;
    }

    let out_bytes = stdout.as_bytes();
    if contains_bytes(out_bytes, "Game over! Draw!".as_bytes()) || contains_bytes(
        out_bytes,
        "Game over! It's a draw!".as_bytes(),
    ) {
        result.is_draw = true;
        return result;
    }

    if contains_bytes(out_bytes, "Game over! Winner:".as_bytes()) {
        let a_signal = match kind {
            GameKind::TicTacToe => contains_bytes(out_bytes, "Winner: Player X".as_bytes()),
            GameKind::LaskerMorris => contains_bytes(out_bytes, "Winner: blue".as_bytes()),
        };
        if a_signal {
            result.winner = Some(player_a.to_owned());
            return result;
        }
        let b_signal = match kind {
            GameKind::TicTacToe => contains_bytes(out_bytes, "Winner: Player O".as_bytes()),
            GameKind::LaskerMorris => contains_bytes(out_bytes, "Winner: orange".as_bytes()),
        };
        if b_signal {
            result.winner = Some(player_b.to_owned());
            return result;
        }
    }

    result.error = Some("no decided result in referee output".to_owned());
    result
}

} // verus!
