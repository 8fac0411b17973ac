use tournament::schedule::round_robin_schedule;

#[test]
fn four_member_group_plays_twelve_matches() {
    let sched = round_robin_schedule(4);
    assert_eq!(sched.len(), 12);
}

#[test]
fn schedule_order_is_pairs_then_swaps_in_index_order() {
    let sched = round_robin_schedule(3);
    assert_eq!(sched, vec![(0, 1), (1, 0), (0, 2), (2, 0), (1, 2), (2, 1)]);
}

#[test]
fn schedule_covers_every_ordered_pair_exactly_once() {
    let k = 5;
    let sched = round_robin_schedule(k);
    assert_eq!(sched.len(), k * (k - 1));
    for a in 0..k {
        for b in 0..k {
            if a != b {
                let count = sched.iter().filter(|p| **p == (a, b)).count();
                assert_eq!(count, 1);
            }
        }
    }
}

#[test]
fn tiny_groups_schedule_correctly() {
    assert_eq!(round_robin_schedule(0).len(), 0);
    assert_eq!(round_robin_schedule(1).len(), 0);
    assert_eq!(round_robin_schedule(2), vec![(0, 1), (1, 0)]);
}
