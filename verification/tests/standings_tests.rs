use tournament::outcome::MatchOutcome;
use tournament::standings::GroupStandings;
use tournament::stats::PlayerStats;
use tournament::stats::ScoringPolicy;

fn outcome(a: &str, b: &str, winner: Option<&str>, is_draw: bool, error: Option<&str>) -> MatchOutcome {
    MatchOutcome {
        round: "First Round".to_string(),
        group: "Group A".to_string(),
        game_number: 1,
        player_a: a.to_string(),
        player_b: b.to_string(),
        winner: winner.map(|w| w.to_string()),
        is_draw,
        error: error.map(|e| e.to_string()),
    }
}

fn names(v: &[&str]) -> Vec<String> {
    v.iter().map(|s| s.to_string()).collect()
}

fn entry<'a>(standings: &'a GroupStandings, name: &str) -> &'a PlayerStats {
    standings.entries.iter().find(|e| e.name == name).unwrap()
}

#[test]
fn a_win_increments_winner_and_loser_exactly_once() {
    let mut st = GroupStandings::new("Group A", &names(&["ann", "ben"]));
    st.apply_outcome(&outcome("ann", "ben", Some("ann"), false, None), ScoringPolicy::standard());
    let ann = entry(&st, "ann");
    assert_eq!((ann.wins, ann.losses, ann.draws, ann.points), (1, 0, 0, 2));
    let ben = entry(&st, "ben");
    assert_eq!((ben.wins, ben.losses, ben.draws, ben.points), (0, 1, 0, 0));
}

#[test]
fn a_draw_increments_both_draw_counts() {
    let mut st = GroupStandings::new("Group A", &names(&["ann", "ben"]));
    st.apply_outcome(&outcome("ann", "ben", None, true, None), ScoringPolicy::standard());
    let ann = entry(&st, "ann");
    assert_eq!((ann.wins, ann.losses, ann.draws, ann.points), (0, 0, 1, 1));
    let ben = entry(&st, "ben");
    assert_eq!((ben.wins, ben.losses, ben.draws, ben.points), (0, 0, 1, 1));
}

#[test]
fn an_errored_outcome_contributes_to_nobody() {
    let mut st = GroupStandings::new("Group A", &names(&["ann", "ben"]));
    st.apply_outcome(
        &outcome("ann", "ben", None, false, Some("Error: connection refused")),
        ScoringPolicy::standard(),
    );
    for e in &st.entries {
        assert_eq!((e.wins, e.losses, e.draws, e.points), (0, 0, 0, 0));
    }
}

#[test]
fn record_totals_equal_non_errored_matches_played() {
    let mut st = GroupStandings::new("Group A", &names(&["ann", "ben", "cal"]));
    let os = vec![
        outcome("ann", "ben", Some("ann"), false, None),
        outcome("ben", "ann", Some("ben"), false, None),
        outcome("ann", "cal", None, true, None),
        outcome("ben", "cal", None, false, Some("Error: timeout")),
    ];
    st.apply_outcomes(&os, ScoringPolicy::standard());
    let ann = entry(&st, "ann");
    assert_eq!(ann.wins + ann.losses + ann.draws, 3);
    let ben = entry(&st, "ben");
    assert_eq!(ben.wins + ben.losses + ben.draws, 2);
    let cal = entry(&st, "cal");
    assert_eq!(cal.wins + cal.losses + cal.draws, 1);
}

#[test]
fn ranking_is_stable_and_idempotent() {
    let mut st = GroupStandings::new("Group A", &names(&["ann", "ben", "cal", "dee"]));
    let os = vec![
        outcome("ann", "ben", Some("ann"), false, None),
        outcome("cal", "dee", Some("cal"), false, None),
    ];
    st.apply_outcomes(&os, ScoringPolicy::standard());
    let once: Vec<String> = st.standings().iter().map(|e| e.name.clone()).collect();
    let twice: Vec<String> = st.standings().iter().map(|e| e.name.clone()).collect();
    assert_eq!(once, twice);
    // ann and cal are tied on points; the tie keeps member order.
    assert_eq!(once, vec!["ann", "cal", "ben", "dee"]);
}

#[test]
fn dominant_player_tops_a_full_round_robin() {
    let members = names(&["ann", "ben", "cal", "dee"]);
    let mut st = GroupStandings::new("Group A", &members);
    let mut os = Vec::new();
    // ann wins all six of her matches; the other three split their pairs.
    for other in ["ben", "cal", "dee"] {
        os.push(outcome("ann", other, Some("ann"), false, None));
        os.push(outcome(other, "ann", Some("ann"), false, None));
    }
    for (x, y) in [("ben", "cal"), ("ben", "dee"), ("cal", "dee")] {
        os.push(outcome(x, y, Some(x), false, None));
        os.push(outcome(y, x, Some(y), false, None));
    }
    assert_eq!(os.len(), 12);
    st.apply_outcomes(&os, ScoringPolicy::standard());
    let ranked = st.standings();
    assert_eq!(ranked[0].name, "ann");
    assert_eq!(ranked[0].points, 12);
    assert_eq!(ranked[0].wins, 6);
    for e in &ranked[1..] {
        assert_eq!(e.points, 4);
    }
}

#[test]
fn points_never_decrease_as_outcomes_accumulate() {
    let mut st = GroupStandings::new("Group A", &names(&["ann", "ben"]));
    let policy = ScoringPolicy::standard();
    let mut last = 0;
    for o in [
        outcome("ann", "ben", Some("ben"), false, None),
        outcome("ben", "ann", None, true, None),
        outcome("ann", "ben", Some("ann"), false, None),
    ] {
        st.apply_outcome(&o, policy);
        let total: u64 = st.entries.iter().map(|e| e.points).sum();
        assert!(total >= last);
        last = total;
    }
}
