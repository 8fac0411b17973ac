use tournament::bracket::final_placements;
use tournament::bracket::select_advancers;
use tournament::bracket::setup_finals;
use tournament::outcome::MatchOutcome;
use tournament::standings::GroupStandings;
use tournament::stats::ScoringPolicy;

fn names(v: &[&str]) -> Vec<String> {
    v.iter().map(|s| s.to_string()).collect()
}

fn won(group: &str, a: &str, b: &str, winner: &str) -> MatchOutcome {
    MatchOutcome {
        round: "Second Round".to_string(),
        group: group.to_string(),
        game_number: 1,
        player_a: a.to_string(),
        player_b: b.to_string(),
        winner: Some(winner.to_string()),
        is_draw: false,
        error: None,
    }
}

#[test]
fn finals_pair_the_top_four_in_rank_order() {
    let ranked = names(&["ann", "ben", "cal", "dee"]);
    let setup = setup_finals(&ranked);
    assert!(!setup.degraded);
    assert_eq!(setup.groups.len(), 2);
    assert_eq!(setup.groups[0].name, "Championship");
    assert_eq!(setup.groups[0].members, names(&["ann", "ben"]));
    assert_eq!(setup.groups[1].name, "Third Place Match");
    assert_eq!(setup.groups[1].members, names(&["cal", "dee"]));
}

#[test]
fn finals_degrade_to_a_single_pairing_with_three_survivors() {
    let setup = setup_finals(&names(&["ann", "ben", "cal"]));
    assert!(setup.degraded);
    assert_eq!(setup.groups.len(), 1);
    assert_eq!(setup.groups[0].name, "Championship");
    assert_eq!(setup.groups[0].members, names(&["ann", "ben"]));
}

#[test]
fn finals_cannot_be_formed_from_one_survivor() {
    let setup = setup_finals(&names(&["ann"]));
    assert!(setup.degraded);
    assert!(setup.groups.is_empty());
}

#[test]
fn two_advance_from_each_group() {
    let policy = ScoringPolicy::standard();
    let mut g1 = GroupStandings::new("Group A", &names(&["ann", "ben", "cal"]));
    g1.apply_outcomes(
        &vec![won("Group A", "ben", "cal", "ben"), won("Group A", "ben", "ann", "ben"), won(
            "Group A", "cal", "ann", "cal",
        )],
        policy,
    );
    let mut g2 = GroupStandings::new("Group B", &names(&["dee", "eli", "fay"]));
    g2.apply_outcomes(
        &vec![won("Group B", "fay", "dee", "fay"), won("Group B", "fay", "eli", "fay"), won(
            "Group B", "dee", "eli", "dee",
        )],
        policy,
    );
    let groups = vec![g1, g2];
    let pool = select_advancers(&groups, 2);
    assert_eq!(pool.len(), 4);
    assert_eq!(pool, names(&["ben", "cal", "fay", "dee"]));
    // everyone in the pool was a member of one of the groups
    for name in &pool {
        assert!(groups.iter().any(|g| g.entries.iter().any(|e| e.name == *name)));
    }
}

#[test]
fn placements_read_off_the_finals_standings() {
    let policy = ScoringPolicy::standard();
    let mut champ = GroupStandings::new("Championship", &names(&["ann", "ben"]));
    champ.apply_outcomes(
        &vec![won("Championship", "ann", "ben", "ben"), won("Championship", "ben", "ann", "ben")],
        policy,
    );
    let mut third = GroupStandings::new("Third Place Match", &names(&["cal", "dee"]));
    third.apply_outcomes(&vec![won("Third Place Match", "cal", "dee", "cal")], policy);
    let p = final_placements(&vec![champ, third]);
    assert_eq!(p.champion.as_deref(), Some("ben"));
    assert_eq!(p.runner_up.as_deref(), Some("ann"));
    assert_eq!(p.third.as_deref(), Some("cal"));
    assert_eq!(p.fourth.as_deref(), Some("dee"));
}

#[test]
fn placements_are_empty_without_finals_groups() {
    let p = final_placements(&Vec::new());
    assert!(p.champion.is_none() && p.runner_up.is_none());
    assert!(p.third.is_none() && p.fourth.is_none());
}
