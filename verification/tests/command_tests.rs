use tournament::command::build_referee_args;
use tournament::command::GameSettings;
use tournament::parse::GameKind;

fn args(kind: GameKind, settings: &GameSettings) -> Vec<String> {
    build_referee_args(kind, &"run-ann".to_string(), &"run-ben".to_string(), settings)
}

#[test]
fn unset_settings_omit_all_flags_but_disable_the_visual_ui() {
    let a = args(GameKind::TicTacToe, &GameSettings::unset());
    assert_eq!(
        a,
        vec!["tictactoe", "--player1", "run-ann", "--player2", "run-ben", "--no-visual"]
    );
}

#[test]
fn standard_settings_spell_out_every_flag() {
    let a = args(GameKind::LaskerMorris, &GameSettings::standard());
    assert_eq!(
        a,
        vec![
            "laskermorris",
            "--player1",
            "run-ann",
            "--player2",
            "run-ben",
            "--timeout",
            "5",
            "--no-visual",
            "--no-random-assignment",
            "--no-debug",
            "--port",
            "8000",
        ]
    );
}

#[test]
fn numeric_flags_render_in_decimal() {
    let mut s = GameSettings::unset();
    s.timeout = Some(17);
    s.port = Some(65535);
    s.visual = Some(true);
    s.debug = Some(true);
    s.random_assignment = Some(true);
    let a = args(GameKind::TicTacToe, &s);
    assert_eq!(
        a,
        vec![
            "tictactoe",
            "--player1",
            "run-ann",
            "--player2",
            "run-ben",
            "--timeout",
            "17",
            "--visual",
            "--random-assignment",
            "--debug",
            "--port",
            "65535",
        ]
    );
}
