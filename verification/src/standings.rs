//! Per-round, per-group scoring state and ranked standings.
//!
//! Outcomes are folded into the group's records one by one; an outcome with
//! an error contributes to nobody's record.  Ranking sorts the records by
//! points, descending, keeping the original order among equal points, so
//! it is a pure function of the current records and ranking twice changes
//! nothing.

use vstd::prelude::*;
use crate::outcome::MatchOutcome;
use crate::stats::PlayerStats;
use crate::stats::ScoringPolicy;

verus! {

/// Headroom bound: folding a round of outcomes never pushes a counter or a
/// point total near the `u64` limit as long as every record stays below it.
pub const RECORD_LIMIT: u64 = 0x1000_0000_0000_0000;

/// The record `e` is far enough from the numeric limits to absorb one more
/// result.
pub open spec fn entry_bounded(e: PlayerStats) -> bool {
    &&& e.record_total() < RECORD_LIMIT
    &&& e.points < RECORD_LIMIT
}

/// What one scorable outcome does to the record of a participant.
pub open spec fn scored(e: PlayerStats, o: MatchOutcome, policy: ScoringPolicy) -> PlayerStats {
    if o.is_draw {
        PlayerStats {
            draws: (e.draws + 1) as u64,
            points: (e.points + policy.draw_points) as u64,
            ..e
        }
    } else if o.won_by(e.name@) {
        PlayerStats {
            wins: (e.wins + 1) as u64,
            points: (e.points + policy.win_points) as u64,
            ..e
        }
    } else {
        PlayerStats { losses: (e.losses + 1) as u64, ..e }
    }
}

/// What one outcome does to a whole group of records: an errored outcome
/// changes nothing; otherwise both participants are scored and everyone
/// else is untouched.
pub open spec fn apply_outcome_spec(
    entries: Seq<PlayerStats>,
    o: MatchOutcome,
    policy: ScoringPolicy,
) -> Seq<PlayerStats> {
    if o.errored() {
        entries
    } else {
        entries.map_values(
            |e: PlayerStats|
                if o.involves(e.name@) {
                    scored(e, o, policy)
                } else {
                    e
                },
        )
    }
}

/// The records after folding a whole sequence of outcomes, in order.
pub open spec fn apply_all_spec(
    entries: Seq<PlayerStats>,
    os: Seq<MatchOutcome>,
    policy: ScoringPolicy,
) -> Seq<PlayerStats>
    decreases os.len(),
{
    if os.len() == 0 {
        entries
    } else {
        apply_outcome_spec(apply_all_spec(entries, os.drop_last(), policy), os.last(), policy)
    }
}

/// How many of the outcomes `os` are non-errored matches that `name`
/// took part in.
pub open spec fn played_count(name: Seq<char>, os: Seq<MatchOutcome>) -> int
    decreases os.len(),
{
    if os.len() == 0 {
        0
    } else {
        played_count(name, os.drop_last()) + if !os.last().errored() && os.last().involves(name) {
            1int
        } else {
            0int
        }
    }
}

/// Folding outcomes keeps the roster: same length, same names in the
/// same places.
pub proof fn lemma_apply_all_names(
    entries: Seq<PlayerStats>,
    os: Seq<MatchOutcome>,
    policy: ScoringPolicy,
)
    ensures
        apply_all_spec(entries, os, policy).len() == entries.len(),
        forall|j: int|
            0 <= j < entries.len() ==> (#[trigger] apply_all_spec(entries, os, policy)[j]).name
                == entries[j].name,
    decreases os.len(),
{
    if os.len() > 0 {
        lemma_apply_all_names(entries, os.drop_last(), policy);
    }
}

/// With enough headroom, a record grows by at most one result per outcome
/// and its points never decrease while a round's outcomes are folded.
pub proof fn lemma_apply_all_bounds(
    entries: Seq<PlayerStats>,
    os: Seq<MatchOutcome>,
    policy: ScoringPolicy,
    j: int,
)
    requires
        0 <= j < entries.len(),
        entries[j].record_total() + os.len() < RECORD_LIMIT,
        entries[j].points + os.len() * 0x1_0000_0000 < RECORD_LIMIT,
    ensures
        ({
            let after = apply_all_spec(entries, os, policy)[j];
            &&& after.name == entries[j].name
            &&& entries[j].record_total() <= after.record_total() <= entries[j].record_total()
                + os.len()
            &&& entries[j].points <= after.points <= entries[j].points + os.len() * 0x1_0000_0000
        }),
    decreases os.len(),
{
    if os.len() > 0 {
        assert((os.len() - 1) * 0x1_0000_0000 + 0x1_0000_0000 == os.len() * 0x1_0000_0000)
            by (nonlinear_arith);
        lemma_apply_all_bounds(entries, os.drop_last(), policy, j);
        lemma_apply_all_names(entries, os.drop_last(), policy);
    }
}

/// Each record's win/loss/draw total grows by exactly the number of
/// non-errored outcomes its competitor took part in: the played matches.
pub proof fn lemma_record_counts_played(
    entries: Seq<PlayerStats>,
    os: Seq<MatchOutcome>,
    policy: ScoringPolicy,
    j: int,
)
    requires
        0 <= j < entries.len(),
        entries[j].record_total() + os.len() < RECORD_LIMIT,
    ensures
        apply_all_spec(entries, os, policy)[j].record_total() == entries[j].record_total()
            + played_count(entries[j].name@, os),
    decreases os.len(),
{
    if os.len() > 0 {
        lemma_record_counts_played(entries, os.drop_last(), policy, j);
        lemma_apply_all_names(entries, os.drop_last(), policy);
        lemma_played_count_le(entries[j].name@, os.drop_last());
    }
}

proof fn lemma_played_count_le(name: Seq<char>, os: Seq<MatchOutcome>)
    ensures
        0 <= played_count(name, os) <= os.len(),
    decreases os.len(),
{
    if os.len() > 0 {
        lemma_played_count_le(name, os.drop_last());
    }
}

/// Points stay consistent with the policy: if every record's points equal
/// its wins and draws priced by the policy, the same holds after folding
/// any outcomes.
pub proof fn lemma_points_consistent(
    entries: Seq<PlayerStats>,
    os: Seq<MatchOutcome>,
    policy: ScoringPolicy,
    j: int,
)
    requires
        0 <= j < entries.len(),
        entries[j].points_consistent(policy),
        entries[j].record_total() + os.len() < RECORD_LIMIT,
        entries[j].points + os.len() * 0x1_0000_0000 < RECORD_LIMIT,
    ensures
        apply_all_spec(entries, os, policy)[j].points_consistent(policy),
    decreases os.len(),
{
    if os.len() > 0 {
        assert((os.len() - 1) * 0x1_0000_0000 + 0x1_0000_0000 == os.len() * 0x1_0000_0000)
            by (nonlinear_arith);
        lemma_points_consistent(entries, os.drop_last(), policy, j);
        lemma_apply_all_bounds(entries, os.drop_last(), policy, j);
        lemma_apply_all_names(entries, os.drop_last(), policy);
        let before = apply_all_spec(entries, os.drop_last(), policy)[j];
        let o = os.last();
        assert(apply_all_spec(entries, os, policy)[j] == if !o.errored() && o.involves(
            before.name@,
        ) {
            scored(before, o, policy)
        } else {
            before
        });
        assert((os.len() - 1) * 0x1_0000_0000 + 0x1_0000_0000 == os.len() * 0x1_0000_0000)
            by (nonlinear_arith);
        if !o.errored() && o.involves(before.name@) {
            if o.is_draw {
                assert((before.draws + 1) * policy.draw_points == before.draws * policy.draw_points
                    + policy.draw_points) by (nonlinear_arith);
            } else if o.won_by(before.name@) {
                assert((before.wins + 1) * policy.win_points == before.wins * policy.win_points
                    + policy.win_points) by (nonlinear_arith);
            }
        }
    }
}

/// One non-errored, well-formed outcome between two distinct group members
/// updates exactly those two records and in exactly one way: on a draw both
/// gain a draw, otherwise the winner gains a win and the loser a loss.
pub proof fn lemma_scoring_exclusive(
    entries: Seq<PlayerStats>,
    o: MatchOutcome,
    policy: ScoringPolicy,
    ia: int,
    ib: int,
)
    requires
        !o.errored(),
        o.wf(),
        0 <= ia < entries.len(),
        0 <= ib < entries.len(),
        ia != ib,
        o.player_a@ != o.player_b@,
        entries[ia].name@ == o.player_a@,
        entries[ib].name@ == o.player_b@,
        entries[ia].record_total() < RECORD_LIMIT,
        entries[ib].record_total() < RECORD_LIMIT,
        entries[ia].points < RECORD_LIMIT,
        entries[ib].points < RECORD_LIMIT,
    ensures
        ({
            let after = apply_outcome_spec(entries, o, policy);
            &&& after.len() == entries.len()
            &&& o.is_draw ==> {
                &&& after[ia].draws == entries[ia].draws + 1
                &&& after[ib].draws == entries[ib].draws + 1
                &&& after[ia].wins == entries[ia].wins && after[ia].losses == entries[ia].losses
                &&& after[ib].wins == entries[ib].wins && after[ib].losses == entries[ib].losses
            }
            &&& !o.is_draw && o.won_by(o.player_a@) ==> {
                &&& after[ia].wins == entries[ia].wins + 1
                &&& after[ib].losses == entries[ib].losses + 1
                &&& after[ia].losses == entries[ia].losses && after[ia].draws == entries[ia].draws
                &&& after[ib].wins == entries[ib].wins && after[ib].draws == entries[ib].draws
            }
            &&& !o.is_draw && o.won_by(o.player_b@) ==> {
                &&& after[ib].wins == entries[ib].wins + 1
                &&& after[ia].losses == entries[ia].losses + 1
                &&& after[ib].losses == entries[ib].losses && after[ib].draws == entries[ib].draws
                &&& after[ia].wins == entries[ia].wins && after[ia].draws == entries[ia].draws
            }
            &&& forall|m: int|
                0 <= m < entries.len() && !o.involves(#[trigger] entries[m].name@) ==> after[m]
                    == entries[m]
        }),
{
    let after = apply_outcome_spec(entries, o, policy);
    assert(after[ia] == scored(entries[ia], o, policy));
    assert(after[ib] == scored(entries[ib], o, policy));
}

/// Records sorted by points, descending.
pub open spec fn sorted_desc(s: Seq<PlayerStats>) -> bool {
    forall|i: int, j: int| 0 <= i <= j < s.len() ==> s[i].points >= s[j].points
}

/// Insert `x` behind every record with at least as many points: the stable
/// insertion step of the ranking sort.
pub open spec fn insert_desc(s: Seq<PlayerStats>, x: PlayerStats) -> Seq<PlayerStats>
    decreases s.len(),
{
    if s.len() == 0 {
        seq![x]
    } else if s.first().points >= x.points {
        seq![s.first()] + insert_desc(s.drop_first(), x)
    } else {
        seq![x] + s
    }
}

/// The ranking of `s`: a stable sort by points, descending.  Records with
/// equal points keep their original relative order.
pub open spec fn ranked_spec(s: Seq<PlayerStats>) -> Seq<PlayerStats>
    decreases s.len(),
{
    if s.len() == 0 {
        Seq::empty()
    } else {
        insert_desc(ranked_spec(s.drop_last()), s.last())
    }
}

/// The length of the longest prefix of `s` whose records all have at least
/// `x.points` points: where `insert_desc` puts `x`.
pub open spec fn ge_prefix_len(s: Seq<PlayerStats>, x: PlayerStats) -> int
    decreases s.len(),
{
    if s.len() == 0 {
        0
    } else if s.first().points >= x.points {
        1 + ge_prefix_len(s.drop_first(), x)
    } else {
        0
    }
}

/// `insert_desc` splices `x` in at the insertion point.
pub proof fn lemma_insert_desc_at(s: Seq<PlayerStats>, x: PlayerStats)
    ensures
        ({
            let p = ge_prefix_len(s, x);
            &&& 0 <= p <= s.len()
            &&& insert_desc(s, x) =~= s.take(p) + seq![x] + s.skip(p)
            &&& forall|m: int| 0 <= m < p ==> s[m].points >= x.points
            &&& p < s.len() ==> s[p].points < x.points
        }),
    decreases s.len(),
{
    if s.len() > 0 && s.first().points >= x.points {
        lemma_insert_desc_at(s.drop_first(), x);
        let tail = s.drop_first();
        let p = ge_prefix_len(s, x);
        let pt = ge_prefix_len(tail, x);
        assert(p == 1 + pt);
        assert forall|m: int| 0 <= m < p implies s[m].points >= x.points by {
            if m > 0 {
                assert(s[m] == tail[m - 1]);
            }
        }
        if p < s.len() {
            assert(s[p] == tail[pt]);
        }
        assert(insert_desc(s, x) =~= s.take(p) + seq![x] + s.skip(p));
    }
}

/// Inserting into a list ranked in descending order keeps it ranked.
proof fn lemma_insert_desc_sorted(s: Seq<PlayerStats>, x: PlayerStats)
    requires
        sorted_desc(s),
    ensures
        sorted_desc(insert_desc(s, x)),
{
    lemma_insert_desc_at(s, x);
}

/// The ranking is sorted by points, descending.
pub proof fn lemma_ranked_sorted(s: Seq<PlayerStats>)
    ensures
        sorted_desc(ranked_spec(s)),
    decreases s.len(),
{
    if s.len() > 0 {
        lemma_ranked_sorted(s.drop_last());
        lemma_insert_desc_sorted(ranked_spec(s.drop_last()), s.last());
    }
}

/// The ranking is a permutation of the records it ranks: nobody appears,
/// disappears, or is duplicated.
pub proof fn lemma_ranked_permutes(s: Seq<PlayerStats>)
    ensures
        ranked_spec(s).to_multiset() == s.to_multiset(),
        ranked_spec(s).len() == s.len(),
    decreases s.len(),
{
    broadcast use vstd::prelude::Seq::to_multiset_ensures;

    if s.len() > 0 {
        lemma_ranked_permutes(s.drop_last());
        let prev = ranked_spec(s.drop_last());
        let x = s.last();
        lemma_insert_desc_at(prev, x);
        let p = ge_prefix_len(prev, x);
        assert(ranked_spec(s) =~= prev.insert(p, x));
        vstd::seq_lib::to_multiset_insert(prev, p, x);
        assert(s.drop_last().push(x) =~= s);
        vstd::seq_lib::to_multiset_build(s.drop_last(), x);
        assert(s.drop_last().push(x).to_multiset() =~= s.drop_last().to_multiset().insert(x));
        assert(s.to_multiset() =~= prev.to_multiset().insert(x));
        prev.insert_ensures(p, x);
        assert(ranked_spec(s).to_multiset() =~= s.to_multiset());
    } else {
        assert(s =~= Seq::<PlayerStats>::empty());
    }
}

/// Ranking an already-ranked list changes nothing, so ranking is
/// idempotent and re-ranking the same records yields the same ordering.
pub proof fn lemma_rank_of_sorted(s: Seq<PlayerStats>)
    requires
        sorted_desc(s),
    ensures
        ranked_spec(s) == s,
    decreases s.len(),
{
    if s.len() > 0 {
        assert(sorted_desc(s.drop_last()));
        lemma_rank_of_sorted(s.drop_last());
        let prev = s.drop_last();
        let x = s.last();
        lemma_insert_desc_at(prev, x);
        let p = ge_prefix_len(prev, x);
        assert(forall|m: int| 0 <= m < prev.len() ==> prev[m].points >= x.points);
        assert(p == prev.len());
        assert(insert_desc(prev, x) =~= s);
    }
}

/// Re-ranking a ranking reproduces it exactly.
pub proof fn lemma_rank_idempotent(s: Seq<PlayerStats>)
    ensures
        ranked_spec(ranked_spec(s)) == ranked_spec(s),
{
    lemma_ranked_sorted(s);
    lemma_rank_of_sorted(ranked_spec(s));
}

/// The scoring state of one group within one round.
pub struct GroupStandings {
    pub group: String,
    pub entries: Vec<PlayerStats>,
}

impl GroupStandings {
    /// A zeroed record for every member, in member order.
    pub fn new(group: &str, members: &Vec<String>) -> (r: GroupStandings)
        ensures
            r.group@ == group@,
            r.entries@.len() == members@.len(),
            forall|i: int|
                0 <= i < members@.len() ==> {
                    let e = #[trigger] r.entries@[i];
                    &&& e.name@ == members@[i]@
                    &&& e.wins == 0 && e.losses == 0 && e.draws == 0 && e.points == 0
                },
    {
        let mut entries: Vec<PlayerStats> = Vec::new();
        let mut i: usize = 0;
        while i < members.len()
            invariant
                i <= members@.len(),
                entries@.len() == i,
                forall|m: int|
                    0 <= m < i ==> {
                        let e = #[trigger] entries@[m];
                        &&& e.name@ == members@[m]@
                        &&& e.wins == 0 && e.losses == 0 && e.draws == 0 && e.points == 0
                    },
            decreases members@.len() - i,
        {
            entries.push(PlayerStats::new(members[i].as_str()));
            i += 1;
        }
        GroupStandings { group: group.to_owned(), entries }
    }

    /// Fold one outcome into the group's records.
    pub fn apply_outcome(&mut self, o: &MatchOutcome, policy: ScoringPolicy)
        requires
            forall|j: int|
                0 <= j < old(self).entries@.len() ==> entry_bounded(#[trigger] old(self).entries@[j]),
        ensures
            final(self).group == old(self).group,
            final(self).entries@ == apply_outcome_spec(old(self).entries@, *o, policy),
    {
        if o.error.is_some() {
            assert(old(self).entries@ == apply_outcome_spec(old(self).entries@, *o, policy));
            return ;
        }
        let ghost entries0 = self.entries@;
        let n = self.entries.len();
        let mut j: usize = 0;
        while j < n
            invariant
                n == entries0.len(),
                self.entries@.len() == entries0.len(),
                j <= n,
                !o.errored(),
                self.group == old(self).group,
                forall|m: int| 0 <= m < entries0.len() ==> entry_bounded(#[trigger] entries0[m]),
                forall|m: int|
                    0 <= m < j ==> self.entries@[m] == (if o.involves(entries0[m].name@) {
                        scored(entries0[m], *o, policy)
                    } else {
                        entries0[m]
                    }),
                forall|m: int| j <= m < entries0.len() ==> self.entries@[m] == entries0[m],
            decreases n - j,
        {
            let involved = {
                let e = &self.entries[j];
                e.name == o.player_a || e.name == o.player_b
            };
            if involved {
                let entry = &mut self.entries[j];
                proof {
                    assert(*entry == entries0[j as int]);
                }
                entry.add_result(o, policy);
            }
            j += 1;
        }
        proof {
            assert(self.entries@ =~= apply_outcome_spec(entries0, *o, policy));
        }
    }

    /// Fold a whole round's outcomes into the group's records, in order.
    pub fn apply_outcomes(&mut self, os: &Vec<MatchOutcome>, policy: ScoringPolicy)
        requires
            forall|j: int|
                0 <= j < old(self).entries@.len() ==> {
                    let e = #[trigger] old(self).entries@[j];
                    &&& e.record_total() + os@.len() < RECORD_LIMIT
                    &&& e.points + os@.len() * 0x1_0000_0000 < RECORD_LIMIT
                },
        ensures
            final(self).group == old(self).group,
            final(self).entries@ == apply_all_spec(old(self).entries@, os@, policy),
    {
        let ghost entries0 = self.entries@;
        let n = os.len();
        let mut t: usize = 0;
        while t < n
            invariant
                n == os@.len(),
                t <= n,
                self.group == old(self).group,
                forall|j: int|
                    0 <= j < entries0.len() ==> {
                        let e = #[trigger] entries0[j];
                        &&& e.record_total() + os@.len() < RECORD_LIMIT
                        &&& e.points + os@.len() * 0x1_0000_0000 < RECORD_LIMIT
                    },
                self.entries@ == apply_all_spec(entries0, os@.take(t as int), policy),
            decreases n - t,
        {
            proof {
                lemma_apply_all_names(entries0, os@.take(t as int), policy);
                assert forall|j: int| 0 <= j < self.entries@.len() implies entry_bounded(
                    #[trigger] self.entries@[j],
                ) by {
                    assert((t as int) * 0x1_0000_0000 <= os@.len() * 0x1_0000_0000)
                        by (nonlinear_arith)
                        requires 0 <= t as int <= os@.len();
                    lemma_apply_all_bounds(entries0, os@.take(t as int), policy, j);
                }
            }
            self.apply_outcome(&os[t], policy);
            proof {
                assert(os@.take(t + 1).drop_last() =~= os@.take(t as int));
                assert(os@.take(t + 1).last() == os@[t as int]);
            }
            t += 1;
        }
        proof {
            assert(os@.take(n as int) =~= os@);
        }
    }

    /// The group's ranked standings: by points, descending, stable.
    pub fn standings(&self) -> (r: Vec<PlayerStats>)
        ensures
            r@ == ranked_spec(self.entries@),
    {
        rank_entries(&self.entries)
    }
}

/// Copy a record field by field.
pub fn duplicate_stats(e: &PlayerStats) -> (r: PlayerStats)
    ensures
        r == *e,
{
    PlayerStats {
        name: e.name.clone(),
        wins: e.wins,
        losses: e.losses,
        draws: e.draws,
        points: e.points,
    }
}

/// Sort records by points, descending, stably: the ranking.
pub fn rank_entries(entries: &Vec<PlayerStats>) -> (r: Vec<PlayerStats>)
    ensures
        r@ == ranked_spec(entries@),
{
    let mut out: Vec<PlayerStats> = Vec::new();
    let mut idx: usize = 0;
    while idx < entries.len()
        invariant
            idx <= entries@.len(),
            out@ == ranked_spec(entries@.take(idx as int)),
        decreases entries@.len() - idx,
    {
        let x = duplicate_stats(&entries[idx]);
        proof {
            lemma_insert_desc_at(out@, x);
        }
        let mut p: usize = 0;
        while p < out.len() && out[p].points >= x.points
            invariant
                p <= out@.len(),
                forall|m: int| 0 <= m < p ==> out@[m].points >= x.points,
                p <= ge_prefix_len(out@, x),
            decreases out@.len() - p,
        {
            proof {
                lemma_ge_prefix_step(out@, x, p as int);
            }
            p += 1;
        }
        proof {
            assert(p == ge_prefix_len(out@, x));
            assert(out@.take(p as int) + seq![x] + out@.skip(p as int) =~= out@.insert(
                p as int,
                x,
            ));
        }
        out.insert(p, x);
        proof {
            assert(entries@.take(idx + 1).drop_last() =~= entries@.take(idx as int));
            assert(entries@.take(idx + 1).last() == entries@[idx as int]);
        }
        idx += 1;
    }
    proof {
        assert(entries@.take(entries@.len() as int) =~= entries@);
    }
    out
}

proof fn lemma_ge_prefix_step(s: Seq<PlayerStats>, x: PlayerStats, p: int)
    requires
        0 <= p < s.len(),
        forall|m: int| 0 <= m < p ==> s[m].points >= x.points,
        s[p].points >= x.points,
        p <= ge_prefix_len(s, x),
    ensures
        p + 1 <= ge_prefix_len(s, x),
    decreases p,
{
    lemma_insert_desc_at(s, x);
}

} // verus!
