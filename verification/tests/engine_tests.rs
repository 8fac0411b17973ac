use tournament::aggregate::aggregate_overall;
use tournament::aggregate::collect_entries;
use tournament::command::GameSettings;
use tournament::engine::resolve_descriptor;
use tournament::engine::Competitor;
use tournament::engine::MatchTask;
use tournament::engine::RoundPlan;
use tournament::engine::Tournament;
use tournament::errors::TournamentError;
use tournament::formation::PartitionPolicy;
use tournament::outcome::MatchOutcome;
use tournament::parse::GameKind;
use tournament::stats::ScoringPolicy;

fn roster(v: &[&str]) -> Vec<Competitor> {
    v.iter().map(|n| Competitor { name: n.to_string(), command: format!("run-{}", n) }).collect()
}

fn single_round_plan() -> Vec<RoundPlan> {
    vec![RoundPlan { name: "Qualifying Round".to_string(), group_count: 1 }]
}

fn new_tournament(players: &[&str]) -> Tournament {
    Tournament::new(
        "tictactoe",
        roster(players),
        GameSettings::unset(),
        PartitionPolicy::Balanced,
        single_round_plan(),
        ScoringPolicy::standard(),
    )
    .unwrap()
}

/// An outcome in which side A always wins, unless `winner_b` asks otherwise.
fn decide(task: &MatchTask, round: &str, winner_is_a: bool) -> MatchOutcome {
    MatchOutcome {
        round: round.to_string(),
        group: task.group.clone(),
        game_number: task.game_number,
        player_a: task.player_a.clone(),
        player_b: task.player_b.clone(),
        winner: Some(if winner_is_a { task.player_a.clone() } else { task.player_b.clone() }),
        is_draw: false,
        error: None,
    }
}

#[test]
fn unsupported_game_aborts_before_any_match() {
    let r = Tournament::new(
        "checkers",
        roster(&["ann", "ben"]),
        GameSettings::unset(),
        PartitionPolicy::Balanced,
        single_round_plan(),
        ScoringPolicy::standard(),
    );
    assert_eq!(r.err(), Some(TournamentError::UnsupportedGame));
}

#[test]
fn unknown_competitor_is_guarded() {
    let r = roster(&["ann", "ben"]);
    assert_eq!(resolve_descriptor(&r, &"ann".to_string()).unwrap(), "run-ann");
    assert_eq!(
        resolve_descriptor(&r, &"zoe".to_string()).unwrap_err(),
        TournamentError::UnknownCompetitor
    );
}

#[test]
fn standard_plan_matches_the_bracket_shape() {
    let plan = Tournament::standard_plan();
    let names: Vec<&str> = plan.iter().map(|p| p.name.as_str()).collect();
    assert_eq!(names, vec!["First Round", "Second Round", "Third Round", "Fourth Round"]);
    let counts: Vec<usize> = plan.iter().map(|p| p.group_count).collect();
    assert_eq!(counts, vec![8, 4, 2, 1]);
}

#[test]
fn a_full_tournament_produces_placements() {
    let mut t = new_tournament(&["ann", "ben", "cal", "dee"]);
    assert_eq!(t.game, GameKind::TicTacToe);
    t.start_first_round(&None);
    assert_eq!(t.groups.len(), 1);
    assert_eq!(t.groups[0].members.len(), 4);
    assert_eq!(t.current_round_name(), "Qualifying Round");

    // Play the qualifying round: "ann" wins every match she plays,
    // everyone else loses to earlier-listed members.
    let tasks = t.current_pairings();
    assert_eq!(tasks.len(), 12);
    let order = |n: &str| ["ann", "ben", "cal", "dee"].iter().position(|x| *x == n).unwrap();
    let outcomes: Vec<MatchOutcome> = tasks
        .iter()
        .map(|task| {
            let a_first = order(&task.player_a) < order(&task.player_b);
            decide(task, "Qualifying Round", a_first)
        })
        .collect();
    t.record_round(&outcomes);
    assert_eq!(t.ledger.len(), 1);
    assert_eq!(t.ledger[0].round, "Qualifying Round");
    assert_eq!(t.ledger[0].outcomes.len(), 12);

    t.enter_finals();
    assert_eq!(t.current_round_name(), "Final Round");
    assert_eq!(t.groups.len(), 2);
    assert_eq!(t.groups[0].name, "Championship");
    assert_eq!(t.groups[0].members, vec!["ann".to_string(), "ben".to_string()]);
    assert_eq!(t.groups[1].name, "Third Place Match");
    assert_eq!(t.groups[1].members, vec!["cal".to_string(), "dee".to_string()]);
    assert!(!t.degraded);

    let finals_tasks = t.current_pairings();
    assert_eq!(finals_tasks.len(), 4);
    let final_outcomes: Vec<MatchOutcome> = finals_tasks
        .iter()
        .map(|task| {
            let a_first = order(&task.player_a) < order(&task.player_b);
            decide(task, "Final Round", a_first)
        })
        .collect();
    t.record_round(&final_outcomes);

    let p = t.placements();
    assert_eq!(p.champion.as_deref(), Some("ann"));
    assert_eq!(p.runner_up.as_deref(), Some("ben"));
    assert_eq!(p.third.as_deref(), Some("cal"));
    assert_eq!(p.fourth.as_deref(), Some("dee"));
}

#[test]
fn advancing_pools_and_redistributes_two_per_group() {
    let plan = vec![
        RoundPlan { name: "Opening Round".to_string(), group_count: 2 },
        RoundPlan { name: "Closing Round".to_string(), group_count: 1 },
    ];
    let mut t = Tournament::new(
        "tictactoe",
        roster(&["ann", "ben", "cal", "dee", "eli", "fay"]),
        GameSettings::unset(),
        PartitionPolicy::Balanced,
        plan,
        ScoringPolicy::standard(),
    )
    .unwrap();
    t.start_first_round(&None);
    assert_eq!(t.groups.len(), 2);
    let tasks = t.current_pairings();
    // each group of three plays six matches
    assert_eq!(tasks.len(), 12);
    let outcomes: Vec<MatchOutcome> =
        tasks.iter().map(|task| decide(task, "Opening Round", true)).collect();
    t.record_round(&outcomes);
    t.advance_round();
    assert_eq!(t.phase, 1);
    let member_count: usize = t.groups.iter().map(|g| g.members.len()).sum();
    assert_eq!(member_count, 4);
}

#[test]
fn overall_totals_sum_each_competitor_across_rounds() {
    let mut t = new_tournament(&["ann", "ben"]);
    t.start_first_round(&None);
    let tasks = t.current_pairings();
    assert_eq!(tasks.len(), 2);
    let outcomes: Vec<MatchOutcome> = tasks
        .iter()
        .map(|task| MatchOutcome {
            round: "Qualifying Round".to_string(),
            group: task.group.clone(),
            game_number: task.game_number,
            player_a: task.player_a.clone(),
            player_b: task.player_b.clone(),
            winner: Some("ann".to_string()),
            is_draw: false,
            error: None,
        })
        .collect();
    t.record_round(&outcomes);
    let mut history = collect_entries(&t.standings);
    t.enter_finals();
    let finals_tasks = t.current_pairings();
    let final_outcomes: Vec<MatchOutcome> = finals_tasks
        .iter()
        .map(|task| MatchOutcome {
            round: "Final Round".to_string(),
            group: task.group.clone(),
            game_number: task.game_number,
            player_a: task.player_a.clone(),
            player_b: task.player_b.clone(),
            winner: None,
            is_draw: true,
            error: None,
        })
        .collect();
    t.record_round(&final_outcomes);
    history.extend(collect_entries(&t.standings));
    let totals = aggregate_overall(&history);
    let ann = totals.iter().find(|e| e.name == "ann").unwrap();
    assert_eq!((ann.wins, ann.losses, ann.draws, ann.points), (2, 0, 2, 6));
    let ben = totals.iter().find(|e| e.name == "ben").unwrap();
    assert_eq!((ben.wins, ben.losses, ben.draws, ben.points), (0, 2, 2, 2));
}
