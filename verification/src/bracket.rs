//! Round-to-round advancement: who survives a round's standings and how
//! the finals are set up from the last full ranking.

use vstd::prelude::*;
use crate::formation::Group;
use crate::standings::GroupStandings;
use crate::standings::rank_entries;
use crate::standings::ranked_spec;
use crate::standings::lemma_ranked_permutes;
use crate::stats::PlayerStats;

verus! {

/// How many records advance from a group: `limit`, or the whole group if
/// it is smaller.
pub open spec fn top_limit(entries: Seq<PlayerStats>, limit: int) -> nat {
    if limit < 0 {
        0
    } else if limit <= entries.len() {
        limit as nat
    } else {
        entries.len()
    }
}

/// The names of the top `limit` ranked records of `entries` (all of them
/// if there are fewer).
pub open spec fn top_names(entries: Seq<PlayerStats>, limit: int) -> Seq<String> {
    Seq::new(top_limit(entries, limit), |i: int| ranked_spec(entries)[i].name)
}

/// The advancing pool: from each group in order, the names of its top
/// `limit` ranked records.
pub open spec fn advancers_spec(groups: Seq<GroupStandings>, limit: int) -> Seq<String>
    decreases groups.len(),
{
    if groups.len() == 0 {
        Seq::empty()
    } else {
        advancers_spec(groups.drop_last(), limit) + top_names(groups.last().entries@, limit)
    }
}

/// When every group holds at least `limit` competitors, the advancing
/// pool has exactly `limit` names per group.
pub proof fn lemma_advancers_count(groups: Seq<GroupStandings>, limit: int)
    requires
        limit >= 0,
        forall|gi: int| 0 <= gi < groups.len() ==> (#[trigger] groups[gi]).entries@.len() >= limit,
    ensures
        advancers_spec(groups, limit).len() == groups.len() * limit,
    decreases groups.len(),
{
    if groups.len() > 0 {
        lemma_advancers_count(groups.drop_last(), limit);
        lemma_ranked_permutes(groups.last().entries@);
        assert((groups.len() - 1) * limit + limit == groups.len() * limit) by (nonlinear_arith);
    } else {
        assert(groups.len() * limit == 0) by (nonlinear_arith)
            requires
                groups.len() == 0,
        ;
    }
}

/// Every name in the advancing pool is the name of a record in one of the
/// groups: advancement never invents a competitor.
pub proof fn lemma_advancers_membership(groups: Seq<GroupStandings>, limit: int, m: int)
    requires
        limit >= 0,
        0 <= m < advancers_spec(groups, limit).len(),
    ensures
        exists|gi: int, j: int|
            0 <= gi < groups.len() && 0 <= j < groups[gi].entries@.len() && (#[trigger] groups[
            gi].entries@[j]).name == advancers_spec(groups, limit)[m],
    decreases groups.len(),
{
    broadcast use vstd::prelude::Seq::to_multiset_ensures;

    let pool = advancers_spec(groups, limit);
    let prev = advancers_spec(groups.drop_last(), limit);
    if m < prev.len() {
        lemma_advancers_membership(groups.drop_last(), limit, m);
        let (gi, j) = choose|gi: int, j: int|
            0 <= gi < groups.drop_last().len() && 0 <= j < groups.drop_last()[gi].entries@.len()
                && (#[trigger] groups.drop_last()[gi].entries@[j]).name == prev[m];
        assert(groups[gi].entries@[j].name == pool[m]);
    } else {
        let entries = groups.last().entries@;
        let ranked = ranked_spec(entries);
        let top = top_names(entries, limit);
        lemma_ranked_permutes(entries);
        let t = m - prev.len();
        assert(pool == prev + top);
        assert(ranked.len() == entries.len());
        assert(t < top.len());
        assert(pool[m] == top[t]);
        assert(top[t] == ranked[t].name);
        assert(ranked.contains(ranked[t]));
        vstd::seq_lib::to_multiset_contains(ranked, ranked[t]);
        vstd::seq_lib::to_multiset_contains(entries, ranked[t]);
        assert(entries.contains(ranked[t]));
        let j = choose|j: int| 0 <= j < entries.len() && entries[j] == ranked[t];
        let gi = groups.len() - 1;
        assert(groups[gi].entries@[j].name == pool[m]);
    }
}

/// Select the advancing competitors: the top `limit` of each group's
/// ranked standings, pooled in group order.
pub fn select_advancers(standings: &Vec<GroupStandings>, limit: usize) -> (r: Vec<String>)
    ensures
        r@ == advancers_spec(standings@, limit as int),
{
    let mut r: Vec<String> = Vec::new();
    let mut gi: usize = 0;
    while gi < standings.len()
        invariant
            gi <= standings@.len(),
            r@ == advancers_spec(standings@.take(gi as int), limit as int),
        decreases standings@.len() - gi,
    {
        let ranked = rank_entries(&standings[gi].entries);
        let count = if limit < ranked.len() {
            limit
        } else {
            ranked.len()
        };
        let ghost entries = standings@[gi as int].entries@;
        let ghost top = top_names(entries, limit as int);
        proof {
            lemma_ranked_permutes(entries);
            assert(top.len() == count);
            assert(forall|i: int| 0 <= i < count ==> #[trigger] top[i] == ranked@[i].name);
        }
        let ghost r0 = r@;
        let mut t: usize = 0;
        while t < count
            invariant
                t <= count,
                count <= ranked@.len(),
                count == top.len(),
                forall|i: int| 0 <= i < count ==> #[trigger] top[i] == ranked@[i].name,
                r@ == r0 + top.take(t as int),
            decreases count - t,
        {
            r.push(ranked[t].name.clone());
            proof {
                assert(top.take(t + 1) =~= top.take(t as int).push(ranked@[t as int].name));
                assert(r@ =~= r0 + top.take(t + 1));
            }
            t += 1;
        }
        proof {
            assert(top.take(count as int) =~= top);
            assert(standings@.take(gi + 1).drop_last() =~= standings@.take(gi as int));
            assert(standings@.take(gi + 1).last() == standings@[gi as int]);
            assert(r@ == advancers_spec(standings@.take(gi + 1), limit as int));
        }
        gi += 1;
    }
    proof {
        assert(standings@.take(standings@.len() as int) =~= standings@);
    }
    r
}

/// Where the finalists land: the placement groups for the last round.
pub struct FinalsSetup {
    pub groups: Vec<Group>,
    pub degraded: bool,
}

/// Set up the final round from the penultimate round's full ranking.
///
/// With at least four names the top two form the championship pairing and
/// the next two the third-place pairing.  With two or three, only the
/// championship pairing is formed and the setup is marked degraded; with
/// fewer, no pairing can be formed at all.
pub fn setup_finals(ranked: &Vec<String>) -> (r: FinalsSetup)
    ensures
        ranked@.len() >= 4 ==> {
            &&& !r.degraded
            &&& r.groups@.len() == 2
            &&& r.groups@[0].name@ == "Championship"@
            &&& r.groups@[0].members@ == seq![ranked@[0], ranked@[1]]
            &&& r.groups@[1].name@ == "Third Place Match"@
            &&& r.groups@[1].members@ == seq![ranked@[2], ranked@[3]]
        },
        2 <= ranked@.len() < 4 ==> {
            &&& r.degraded
            &&& r.groups@.len() == 1
            &&& r.groups@[0].name@ == "Championship"@
            &&& r.groups@[0].members@ == seq![ranked@[0], ranked@[1]]
        },
        ranked@.len() < 2 ==> r.degraded && r.groups@.len() == 0,
{
    let mut groups: Vec<Group> = Vec::new();
    if ranked.len() >= 4 {
        let mut champ: Vec<String> = Vec::new();
        champ.push(ranked[0].clone());
        champ.push(ranked[1].clone());
        let mut third: Vec<String> = Vec::new();
        third.push(ranked[2].clone());
        third.push(ranked[3].clone());
        proof {
            assert(champ@ =~= seq![ranked@[0], ranked@[1]]);
            assert(third@ =~= seq![ranked@[2], ranked@[3]]);
        }
        groups.push(Group { name: "Championship".to_owned(), members: champ });
        groups.push(Group { name: "Third Place Match".to_owned(), members: third });
        FinalsSetup { groups, degraded: false }
    } else if ranked.len() >= 2 {
        let mut champ: Vec<String> = Vec::new();
        champ.push(ranked[0].clone());
        champ.push(ranked[1].clone());
        proof {
            assert(champ@ =~= seq![ranked@[0], ranked@[1]]);
        }
        groups.push(Group { name: "Championship".to_owned(), members: champ });
        FinalsSetup { groups, degraded: true }
    } else {
        FinalsSetup { groups, degraded: true }
    }
}

/// The final placements read off the finished last round.
pub struct Placements {
    pub champion: Option<String>,
    pub runner_up: Option<String>,
    pub third: Option<String>,
    pub fourth: Option<String>,
}

/// Read the champion, runner-up, third and fourth place from the final
/// round's standings: the championship pairing ranks first and second
/// overall, the third-place pairing third and fourth.
pub fn final_placements(finals: &Vec<GroupStandings>) -> (r: Placements)
    ensures
        r.champion == placement_of(finals@, 0, 0),
        r.runner_up == placement_of(finals@, 0, 1),
        r.third == placement_of(finals@, 1, 0),
        r.fourth == placement_of(finals@, 1, 1),
{
    let champion: Option<String>;
    let runner_up: Option<String>;
    let third: Option<String>;
    let fourth: Option<String>;
    if finals.len() >= 1 {
        let ranked = rank_entries(&finals[0].entries);
        champion = if ranked.len() >= 1 {
            Some(ranked[0].name.clone())
        } else {
            None
        };
        runner_up = if ranked.len() >= 2 {
            Some(ranked[1].name.clone())
        } else {
            None
        };
    } else {
        champion = None;
        runner_up = None;
    }
    if finals.len() >= 2 {
        let ranked = rank_entries(&finals[1].entries);
        third = if ranked.len() >= 1 {
            Some(ranked[0].name.clone())
        } else {
            None
        };
        fourth = if ranked.len() >= 2 {
            Some(ranked[1].name.clone())
        } else {
            None
        };
    } else {
        third = None;
        fourth = None;
    }
    Placements { champion, runner_up, third, fourth }
}

/// The name ranked at position `rank` within the finals group at position
/// `gi`, if both exist.
pub open spec fn placement_of(finals: Seq<GroupStandings>, gi: int, rank: int) -> Option<String> {
    if gi < finals.len() && rank < ranked_spec(finals[gi].entries@).len() {
        Some(ranked_spec(finals[gi].entries@)[rank].name)
    } else {
        None
    }
}

} // verus!
