//! Overall tournament statistics: per-competitor totals summed across
//! every round's records.

use vstd::prelude::*;
use crate::standings::GroupStandings;
use crate::stats::PlayerStats;

verus! {

/// The position of the first record named `name`, or -1 if there is none.
pub open spec fn index_of_name(acc: Seq<PlayerStats>, name: Seq<char>) -> int
    decreases acc.len(),
{
    if acc.len() == 0 {
        -1
    } else if acc[0].name@ == name {
        0
    } else {
        let r = index_of_name(acc.drop_first(), name);
        if r < 0 {
            -1
        } else {
            r + 1
        }
    }
}

/// Two records for the same competitor merged: the counters and points
/// added together.
pub open spec fn combined(a: PlayerStats, e: PlayerStats) -> PlayerStats {
    PlayerStats {
        name: a.name,
        wins: (a.wins + e.wins) as u64,
        losses: (a.losses + e.losses) as u64,
        draws: (a.draws + e.draws) as u64,
        points: (a.points + e.points) as u64,
    }
}

/// Fold one record into the running totals: a new competitor gets a new
/// row, a known one has its row summed up.
pub open spec fn absorb(acc: Seq<PlayerStats>, e: PlayerStats) -> Seq<PlayerStats> {
    let i = index_of_name(acc, e.name@);
    if i < 0 {
        acc.push(e)
    } else {
        acc.update(i, combined(acc[i], e))
    }
}

/// The overall totals of a list of records, folded in order.  Rows appear
/// in order of each competitor's first appearance.
pub open spec fn aggregate_spec(entries: Seq<PlayerStats>) -> Seq<PlayerStats>
    decreases entries.len(),
{
    if entries.len() == 0 {
        Seq::empty()
    } else {
        absorb(aggregate_spec(entries.drop_last()), entries.last())
    }
}

/// All records of all groups, in group order: the input to the overall
/// totals.
pub open spec fn entries_concat(st: Seq<GroupStandings>) -> Seq<PlayerStats>
    decreases st.len(),
{
    if st.len() == 0 {
        Seq::empty()
    } else {
        entries_concat(st.drop_last()) + st.last().entries@
    }
}

/// Collect every record of every group into one list.
pub fn collect_entries(standings: &Vec<GroupStandings>) -> (r: Vec<PlayerStats>)
    ensures
        r@ == entries_concat(standings@),
{
    let mut r: Vec<PlayerStats> = Vec::new();
    let mut gi: usize = 0;
    while gi < standings.len()
        invariant
            gi <= standings@.len(),
            r@ == entries_concat(standings@.take(gi as int)),
        decreases standings@.len() - gi,
    {
        let entries = &standings[gi].entries;
        let ghost r0 = r@;
        let mut j: usize = 0;
        while j < entries.len()
            invariant
                j <= entries@.len(),
                entries@ == standings@[gi as int].entries@,
                gi < standings@.len(),
                r@ == r0 + entries@.take(j as int),
            decreases entries@.len() - j,
        {
            r.push(crate::standings::duplicate_stats(&entries[j]));
            proof {
                assert(entries@.take(j + 1) =~= entries@.take(j as int).push(entries@[j as int]));
                assert(r@ =~= r0 + entries@.take(j + 1));
            }
            j += 1;
        }
        proof {
            assert(entries@.take(entries@.len() as int) =~= entries@);
            assert(standings@.take(gi + 1).drop_last() =~= standings@.take(gi as int));
            assert(standings@.take(gi + 1).last() == standings@[gi as int]);
        }
        gi += 1;
    }
    proof {
        assert(standings@.take(standings@.len() as int) =~= standings@);
    }
    r
}

proof fn lemma_index_of_name_first(acc: Seq<PlayerStats>, name: Seq<char>, p: int)
    requires
        0 <= p <= acc.len(),
        forall|m: int| 0 <= m < p ==> (#[trigger] acc[m]).name@ != name,
        p < acc.len() ==> acc[p].name@ == name,
    ensures
        index_of_name(acc, name) == if p < acc.len() {
            p
        } else {
            -1int
        },
    decreases acc.len(),
{
    if acc.len() > 0 {
        if p == 0 {
        } else {
            assert(acc[0].name@ != name);
            lemma_index_of_name_first(acc.drop_first(), name, p - 1);
            assert(forall|m: int|
                0 <= m < p - 1 ==> (#[trigger] acc.drop_first()[m]).name@ == acc[m + 1].name@);
        }
    }
}

/// Sum every record into one row per competitor, in order of first
/// appearance.
pub fn aggregate_overall(entries: &Vec<PlayerStats>) -> (r: Vec<PlayerStats>)
    requires
        entries@.len() <= 0x1_0000,
        forall|m: int|
            0 <= m < entries@.len() ==> {
                let e = #[trigger] entries@[m];
                &&& e.wins < 0x1_0000_0000
                &&& e.losses < 0x1_0000_0000
                &&& e.draws < 0x1_0000_0000
                &&& e.points < 0x1_0000_0000
            },
    ensures
        r@ == aggregate_spec(entries@),
{
    let mut r: Vec<PlayerStats> = Vec::new();
    let mut t: usize = 0;
    while t < entries.len()
        invariant
            t <= entries@.len(),
            entries@.len() <= 0x1_0000,
            forall|m: int|
                0 <= m < entries@.len() ==> {
                    let e = #[trigger] entries@[m];
                    &&& e.wins < 0x1_0000_0000
                    &&& e.losses < 0x1_0000_0000
                    &&& e.draws < 0x1_0000_0000
                    &&& e.points < 0x1_0000_0000
                },
            r@ == aggregate_spec(entries@.take(t as int)),
            forall|m: int|
                0 <= m < r@.len() ==> {
                    let e = #[trigger] r@[m];
                    &&& e.wins <= t * 0x1_0000_0000
                    &&& e.losses <= t * 0x1_0000_0000
                    &&& e.draws <= t * 0x1_0000_0000
                    &&& e.points <= t * 0x1_0000_0000
                },
        decreases entries@.len() - t,
    {
        let e = crate::standings::duplicate_stats(&entries[t]);
        let ghost r0 = r@;
        let mut p: usize = 0;
        while p < r.len() && !(r[p].name == e.name)
            invariant
                p <= r@.len(),
                r@ == r0,
                e == entries@[t as int],
                forall|m: int| 0 <= m < p ==> (#[trigger] r@[m]).name@ != e.name@,
            decreases r@.len() - p,
        {
            p += 1;
        }
        proof {
            lemma_index_of_name_first(r@, e.name@, p as int);
            assert((t as int) * 0x1_0000_0000 + 0x1_0000_0000 == (t + 1) * 0x1_0000_0000)
                by (nonlinear_arith);
        }
        if p < r.len() {
            let row = &mut r[p];
            row.wins = row.wins + e.wins;
            row.losses = row.losses + e.losses;
            row.draws = row.draws + e.draws;
            row.points = row.points + e.points;
            proof {
                assert(r@ =~= absorb(r0, entries@[t as int]));
            }
        } else {
            r.push(e);
            proof {
                assert(r@ =~= absorb(r0, entries@[t as int]));
            }
        }
        proof {
            assert(entries@.take(t + 1).drop_last() =~= entries@.take(t as int));
            assert(entries@.take(t + 1).last() == entries@[t as int]);
        }
        t += 1;
    }
    proof {
        assert(entries@.take(entries@.len() as int) =~= entries@);
    }
    r
}

} // verus!
