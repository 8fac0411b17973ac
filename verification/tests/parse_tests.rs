use tournament::errors::TournamentError;
use tournament::parse::parse_game_kind;
use tournament::parse::parse_game_result;
use tournament::parse::GameKind;

fn parse(kind: GameKind, stdout: &str, stderr: &str) -> tournament::outcome::MatchOutcome {
    parse_game_result(kind, stdout, stderr, "First Round", "Group A", 1, "ann", "ben")
}

#[test]
fn game_kind_names_are_recognized() {
    assert_eq!(parse_game_kind("tictactoe").unwrap(), GameKind::TicTacToe);
    assert_eq!(parse_game_kind("laskermorris").unwrap(), GameKind::LaskerMorris);
    assert_eq!(parse_game_kind("lasker_morris").unwrap(), GameKind::LaskerMorris);
    assert_eq!(parse_game_kind("lasker-morris").unwrap(), GameKind::LaskerMorris);
}

#[test]
fn unknown_game_kind_is_refused() {
    assert_eq!(parse_game_kind("chess").unwrap_err(), TournamentError::UnsupportedGame);
    assert_eq!(parse_game_kind("").unwrap_err(), TournamentError::UnsupportedGame);
}

#[test]
fn error_text_on_stderr_voids_the_match() {
    let r = parse(GameKind::TicTacToe, "Game over! Winner: Player X", "Error: connection refused");
    assert_eq!(r.error.as_deref(), Some("Error: connection refused"));
    assert_eq!(r.winner, None);
    assert!(!r.is_draw);
}

#[test]
fn lowercase_error_marker_is_detected_too() {
    let r = parse(GameKind::TicTacToe, "", "an error occurred");
    assert!(r.error.is_some());
    assert_eq!(r.winner, None);
    assert!(!r.is_draw);
}

#[test]
fn benign_stderr_chatter_does_not_void_the_match() {
    let r = parse(GameKind::TicTacToe, "Game over! Winner: Player X", "loading assets");
    assert_eq!(r.error, None);
    assert_eq!(r.winner.as_deref(), Some("ann"));
}

#[test]
fn grid_game_winner_signals_map_to_sides() {
    let x = parse(GameKind::TicTacToe, "Game over! Winner: Player X", "");
    assert_eq!(x.winner.as_deref(), Some("ann"));
    assert!(!x.is_draw && x.error.is_none());

    let o = parse(GameKind::TicTacToe, "Game over! Winner: Player O", "");
    assert_eq!(o.winner.as_deref(), Some("ben"));
}

#[test]
fn stone_game_winner_signals_map_to_sides() {
    let blue = parse(GameKind::LaskerMorris, "Game over! Winner: blue", "");
    assert_eq!(blue.winner.as_deref(), Some("ann"));

    let orange = parse(GameKind::LaskerMorris, "Game over! Winner: orange", "");
    assert_eq!(orange.winner.as_deref(), Some("ben"));
}

#[test]
fn both_draw_phrasings_are_recognized() {
    let d1 = parse(GameKind::TicTacToe, "Game over! Draw!", "");
    assert!(d1.is_draw && d1.winner.is_none() && d1.error.is_none());

    let d2 = parse(GameKind::LaskerMorris, "Game over! It's a draw!", "");
    assert!(d2.is_draw && d2.winner.is_none() && d2.error.is_none());
}

#[test]
fn unrecognized_output_becomes_an_execution_error() {
    let r = parse(GameKind::TicTacToe, "the process wandered off", "");
    assert!(r.error.is_some());
    assert_eq!(r.winner, None);
    assert!(!r.is_draw);
}

#[test]
fn wrong_vocabulary_for_the_game_kind_is_not_a_result() {
    let r = parse(GameKind::TicTacToe, "Game over! Winner: blue", "");
    assert!(r.error.is_some());
    assert_eq!(r.winner, None);
}

#[test]
fn outcome_carries_round_group_and_sequence() {
    let r = parse(GameKind::TicTacToe, "Game over! Winner: Player X", "");
    assert_eq!(r.round, "First Round");
    assert_eq!(r.group, "Group A");
    assert_eq!(r.game_number, 1);
    assert_eq!(r.player_a, "ann");
    assert_eq!(r.player_b, "ben");
}
