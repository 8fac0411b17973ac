//! Construction of the external referee's command-line arguments.
//!
//! The referee is launched as `uv run cs4341-referee <game> ...`; this
//! module builds the argument list after the program name: the game
//! command, the two player descriptors, and the optional settings flags.

use vstd::prelude::*;
use crate::parse::GameKind;

verus! {

/// Optional referee settings.  An unset timeout or port means "use the
/// referee's own default" and omits the flag; an unset visual setting
/// defaults to disabled for automation; unset random-assignment and debug
/// settings are simply omitted.
#[derive(Clone, Copy, Debug)]
pub struct GameSettings {
    pub timeout: Option<u32>,
    pub visual: Option<bool>,
    pub random_assignment: Option<bool>,
    pub debug: Option<bool>,
    pub port: Option<u32>,
}

impl GameSettings {
    /// All settings unset: every optional flag is omitted and the visual
    /// UI defaults to disabled.
    pub fn unset() -> (r: GameSettings)
        ensures
            r.timeout is None,
            r.visual is None,
            r.random_assignment is None,
            r.debug is None,
            r.port is None,
    {
        GameSettings { timeout: None, visual: None, random_assignment: None, debug: None, port: None }
    }

    /// The defaults used when the tournament definition carries no
    /// settings at all: a five-second timeout, no visual UI, no random
    /// side assignment, no debug logging, port 8000.
    pub fn standard() -> (r: GameSettings)
        ensures
            r.timeout == Some(5u32),
            r.visual == Some(false),
            r.random_assignment == Some(false),
            r.debug == Some(false),
            r.port == Some(8000u32),
    {
        GameSettings {
            timeout: Some(5),
            visual: Some(false),
            random_assignment: Some(false),
            debug: Some(false),
            port: Some(8000),
        }
    }
}

/// The decimal digits of `n`, most significant first.
pub open spec fn dec_str(n: nat) -> Seq<char>
    decreases n,
{
    if n < 10 {
        seq![digit_char(n)]
    } else {
        dec_str(n / 10).push(digit_char(n % 10))
    }
}

/// The digit character for a value below ten.
pub open spec fn digit_char(d: nat) -> char {
    if d == 0 {
        '0'
    } else if d == 1 {
        '1'
    } else if d == 2 {
        '2'
    } else if d == 3 {
        '3'
    } else if d == 4 {
        '4'
    } else if d == 5 {
        '5'
    } else if d == 6 {
        '6'
    } else if d == 7 {
        '7'
    } else if d == 8 {
        '8'
    } else {
        '9'
    }
}

/// Relies on `u32`'s `Display` implementation: `to_string` renders the
/// value as its decimal digits, most significant first, with no sign and
/// no leading zeros.
#[verifier::external_body]
fn u32_to_string(n: u32) -> (r: String)
    ensures
        r@ == dec_str(n as nat),
{
    n.to_string()
}

/// The views of a list of argument strings.
pub open spec fn views_of(args: Seq<String>) -> Seq<Seq<char>> {
    Seq::new(args.len(), |i: int| args[i]@)
}

/// The referee subcommand that selects the game.
pub open spec fn game_command_spec(kind: GameKind) -> Seq<char> {
    match kind {
        GameKind::TicTacToe => "tictactoe"@,
        GameKind::LaskerMorris => "laskermorris"@,
    }
}

/// The flags contributed by the optional settings, in a fixed order:
/// timeout, visual, random assignment, debug, port.
pub open spec fn settings_args_spec(s: GameSettings) -> Seq<Seq<char>> {
    (match s.timeout {
        Some(t) => seq!["--timeout"@, dec_str(t as nat)],
        None => Seq::empty(),
    }) + (match s.visual {
        Some(true) => seq!["--visual"@],
        Some(false) => seq!["--no-visual"@],
        None => seq!["--no-visual"@],
    }) + (match s.random_assignment {
        Some(true) => seq!["--random-assignment"@],
        Some(false) => seq!["--no-random-assignment"@],
        None => Seq::empty(),
    }) + (match s.debug {
        Some(true) => seq!["--debug"@],
        Some(false) => seq!["--no-debug"@],
        None => Seq::empty(),
    }) + (match s.port {
        Some(p) => seq!["--port"@, dec_str(p as nat)],
        None => Seq::empty(),
    })
}

/// The full argument list for one match: the game command, both player
/// descriptors, then the settings flags.
pub open spec fn referee_args_spec(
    kind: GameKind,
    p1: Seq<char>,
    p2: Seq<char>,
    s: GameSettings,
) -> Seq<Seq<char>> {
    seq![game_command_spec(kind), "--player1"@, p1, "--player2"@, p2] + settings_args_spec(s)
}

/// Build the referee's argument list for one match.
#[verifier::rlimit(50)]
pub fn build_referee_args(
    kind: GameKind,
    p1_cmd: &String,
    p2_cmd: &String,
    settings: &GameSettings,
) -> (r: Vec<String>)
    ensures
        views_of(r@) == referee_args_spec(kind, p1_cmd@, p2_cmd@, *settings),
{
    let mut r: Vec<String> = Vec::new();
    match kind {
        GameKind::TicTacToe => r.push("tictactoe".to_owned()),
        GameKind::LaskerMorris => r.push("laskermorris".to_owned()),
    }
    r.push("--player1".to_owned());
    r.push(p1_cmd.clone());
    r.push("--player2".to_owned());
    r.push(p2_cmd.clone());
    match &settings.timeout {
        Some(t) => {
            r.push("--timeout".to_owned());
            r.push(u32_to_string(*t));
        },
        None => {},
    }
    match &settings.visual {
        Some(true) => r.push("--visual".to_owned()),
        Some(false) => r.push("--no-visual".to_owned()),
        None => r.push("--no-visual".to_owned()),
    }
    match &settings.random_assignment {
        Some(true) => r.push("--random-assignment".to_owned()),
        Some(false) => r.push("--no-random-assignment".to_owned()),
        None => {},
    }
    match &settings.debug {
        Some(true) => r.push("--debug".to_owned()),
        Some(false) => r.push("--no-debug".to_owned()),
        None => {},
    }
    match &settings.port {
        Some(p) => {
            r.push("--port".to_owned());
            r.push(u32_to_string(*p));
        },
        None => {},
    }
    proof {
        assert(views_of(r@) =~= referee_args_spec(kind, p1_cmd@, p2_cmd@, *settings));
    }
    r
}

} // verus!
