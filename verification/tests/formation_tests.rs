use tournament::formation::form_groups;
use tournament::formation::partition_balanced;
use tournament::formation::partition_ceiling;
use tournament::formation::Group;
use tournament::formation::PartitionPolicy;

fn names(v: &[&str]) -> Vec<String> {
    v.iter().map(|s| s.to_string()).collect()
}

#[test]
fn predefined_groups_are_used_verbatim() {
    let predefined = vec![
        Group { name: "G1".to_string(), members: names(&["ann", "ben"]) },
        Group { name: "G2".to_string(), members: names(&["cal", "dee"]) },
    ];
    let all = names(&["ann", "ben", "cal", "dee"]);
    let groups = form_groups(&all, &Some(predefined.clone()), 8, PartitionPolicy::Balanced);
    assert_eq!(groups.len(), 2);
    assert_eq!(groups[0].name, "G1");
    assert_eq!(groups[0].members, names(&["ann", "ben"]));
    assert_eq!(groups[1].name, "G2");
    assert_eq!(groups[1].members, names(&["cal", "dee"]));
}

#[test]
fn balanced_partition_spreads_the_remainder() {
    let players = names(&["a1", "a2", "a3", "a4", "a5", "a6", "a7", "a8", "a9", "a10"]);
    let groups = partition_balanced(&players, 4);
    let sizes: Vec<usize> = groups.iter().map(|g| g.members.len()).collect();
    assert_eq!(sizes, vec![3, 3, 2, 2]);
    let labels: Vec<&str> = groups.iter().map(|g| g.name.as_str()).collect();
    assert_eq!(labels, vec!["Group A", "Group B", "Group C", "Group D"]);
    let rejoined: Vec<String> = groups.iter().flat_map(|g| g.members.clone()).collect();
    assert_eq!(rejoined, players);
}

#[test]
fn balanced_partition_never_outnumbers_the_players() {
    let players = names(&["a1", "a2", "a3"]);
    let groups = partition_balanced(&players, 8);
    assert_eq!(groups.len(), 3);
    for g in &groups {
        assert_eq!(g.members.len(), 1);
    }
}

#[test]
fn ceiling_partition_fills_fixed_chunks() {
    let players = names(&["a1", "a2", "a3", "a4", "a5", "a6", "a7", "a8", "a9", "a10"]);
    let groups = partition_ceiling(&players, 4);
    let sizes: Vec<usize> = groups.iter().map(|g| g.members.len()).collect();
    assert_eq!(sizes, vec![3, 3, 3, 1]);
    let rejoined: Vec<String> = groups.iter().flat_map(|g| g.members.clone()).collect();
    assert_eq!(rejoined, players);
}

#[test]
fn random_formation_keeps_every_player_exactly_once() {
    let all = names(&["a1", "a2", "a3", "a4", "a5", "a6", "a7"]);
    let groups = form_groups(&all, &None, 3, PartitionPolicy::Balanced);
    assert_eq!(groups.len(), 3);
    let mut seen: Vec<String> = groups.iter().flat_map(|g| g.members.clone()).collect();
    seen.sort();
    let mut expected = all.clone();
    expected.sort();
    assert_eq!(seen, expected);
    let sizes: Vec<usize> = groups.iter().map(|g| g.members.len()).collect();
    assert_eq!(sizes, vec![3, 2, 2]);
}

#[test]
fn random_ceiling_formation_fills_fixed_chunks() {
    let all = names(&["a1", "a2", "a3", "a4", "a5", "a6", "a7"]);
    let groups = form_groups(&all, &None, 3, PartitionPolicy::Ceiling);
    let sizes: Vec<usize> = groups.iter().map(|g| g.members.len()).collect();
    assert_eq!(sizes, vec![3, 3, 1]);
    let mut seen: Vec<String> = groups.iter().flat_map(|g| g.members.clone()).collect();
    seen.sort();
    let mut expected = all.clone();
    expected.sort();
    assert_eq!(seen, expected);
}

#[test]
fn empty_roster_forms_no_groups() {
    let all: Vec<String> = Vec::new();
    let groups = form_groups(&all, &None, 4, PartitionPolicy::Balanced);
    assert!(groups.is_empty());
}
