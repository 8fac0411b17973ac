//! The tournament state machine.
//!
//! The engine alternates between playing a round (the caller runs the
//! scheduled matches through the external referee and hands the outcomes
//! back) and advancing the bracket: seed the first round's groups, fold
//! the round's outcomes into the standings, select and redistribute the
//! advancers, special-case the finals, and read off the placements.
//! Completed rounds are never re-entered: the ledger only grows.

use vstd::prelude::*;
use crate::bracket::advancers_spec;
use crate::bracket::final_placements;
use crate::bracket::select_advancers;
use crate::bracket::setup_finals;
use crate::bracket::top_names;
use crate::bracket::Placements;
use crate::command::GameSettings;
use crate::errors::TournamentError;
use crate::formation::concat_members;
use crate::formation::form_groups;
use crate::formation::group_label_spec;
use crate::formation::Group;
use crate::formation::PartitionPolicy;
use crate::formation::MAX_GROUPS;
use crate::outcome::MatchOutcome;
use crate::parse::game_kind_of;
use crate::parse::parse_game_kind;
use crate::parse::GameKind;
use crate::schedule::lemma_schedule_len;
use crate::schedule::round_robin_schedule;
use crate::schedule::schedule_spec;
use crate::schedule::valid_pair;
use crate::schedule::lemma_sched_elems;
use crate::standings::apply_all_spec;
use crate::standings::rank_entries;
use crate::standings::GroupStandings;
use crate::standings::RECORD_LIMIT;
use crate::stats::ScoringPolicy;

verus! {

/// A named entrant and the command that launches its player process.
#[derive(Clone, Debug)]
pub struct Competitor {
    pub name: String,
    pub command: String,
}

/// One preliminary round: its name and how many groups it is played in.
#[derive(Clone, Debug)]
pub struct RoundPlan {
    pub name: String,
    pub group_count: usize,
}

/// One match to be played: the group it belongs to, its sequence number
/// within that group, and the two competitors, side A first.
#[derive(Clone, Debug)]
pub struct MatchTask {
    pub group: String,
    pub game_number: u64,
    pub player_a: String,
    pub player_b: String,
}

/// The outcomes of one completed round, appended as the bracket advances.
#[derive(Clone, Debug)]
pub struct RoundRecord {
    pub round: String,
    pub outcomes: Vec<MatchOutcome>,
}

/// Every planned round names between one and `MAX_GROUPS` groups.
pub open spec fn plan_wf(plan: Seq<RoundPlan>) -> bool {
    forall|i: int| 0 <= i < plan.len() ==> 1 <= (#[trigger] plan[i]).group_count <= MAX_GROUPS
}

/// The names of the roster's competitors, in roster order.
pub open spec fn names_of(roster: Seq<Competitor>) -> Seq<String> {
    Seq::new(roster.len(), |i: int| roster[i].name)
}

/// The standings rows mirror the groups: one scoring table per group,
/// one entry per member, in member order.
pub open spec fn standings_aligned(groups: Seq<Group>, st: Seq<GroupStandings>) -> bool {
    &&& st.len() == groups.len()
    &&& forall|gi: int|
        0 <= gi < st.len() ==> {
            let s = #[trigger] st[gi];
            &&& s.group@ == groups[gi].name@
            &&& s.entries@.len() == groups[gi].members@.len()
            &&& forall|j: int|
                0 <= j < s.entries@.len() ==> (#[trigger] s.entries@[j]).name@
                    == groups[gi].members@[j]@
        }
}

/// Every record is zeroed: the state a round starts from.
pub open spec fn standings_zeroed(st: Seq<GroupStandings>) -> bool {
    forall|gi: int, j: int|
        0 <= gi < st.len() && 0 <= j < (#[trigger] st[gi]).entries@.len() ==> {
            let e = #[trigger] st[gi].entries@[j];
            e.wins == 0 && e.losses == 0 && e.draws == 0 && e.points == 0
        }
}

/// A zeroed scoring table for every group.
pub fn init_standings(groups: &Vec<Group>) -> (r: Vec<GroupStandings>)
    ensures
        standings_aligned(groups@, r@),
        standings_zeroed(r@),
{
    let mut r: Vec<GroupStandings> = Vec::new();
    let mut gi: usize = 0;
    while gi < groups.len()
        invariant
            gi <= groups@.len(),
            r@.len() == gi as int,
            standings_aligned(groups@.take(gi as int), r@),
            standings_zeroed(r@),
        decreases groups@.len() - gi,
    {
        let s = GroupStandings::new(groups[gi].name.as_str(), &groups[gi].members);
        r.push(s);
        gi += 1;
    }
    proof {
        assert(groups@.take(groups@.len() as int) =~= groups@);
    }
    r
}

/// The matches of one group: the round-robin schedule with swapped
/// rematches, sequence numbers counting from one.
pub open spec fn group_tasks_spec(g: Group) -> Seq<MatchTask> {
    let k = g.members@.len() as usize;
    Seq::new(
        schedule_spec(k).len(),
        |i: int|
            MatchTask {
                group: g.name,
                game_number: (i + 1) as u64,
                player_a: g.members@[schedule_spec(k)[i].0 as int],
                player_b: g.members@[schedule_spec(k)[i].1 as int],
            },
    )
}

/// A group of size `k` is scheduled for exactly `k·(k−1)` matches.
pub proof fn lemma_group_task_count(g: Group)
    requires
        g.members@.len() <= usize::MAX,
    ensures
        group_tasks_spec(g).len() == g.members@.len() * (g.members@.len() - 1),
{
    lemma_schedule_len(g.members@.len() as usize);
}

/// All matches of a round, group by group in group order.
pub open spec fn round_tasks_spec(groups: Seq<Group>) -> Seq<MatchTask>
    decreases groups.len(),
{
    if groups.len() == 0 {
        Seq::empty()
    } else {
        round_tasks_spec(groups.drop_last()) + group_tasks_spec(groups.last())
    }
}

/// List one group's matches.
fn group_tasks(g: &Group) -> (r: Vec<MatchTask>)
    requires
        g.members@.len() <= 0x8000,
    ensures
        r@ == group_tasks_spec(*g),
{
    let k = g.members.len();
    let sched = round_robin_schedule(k);
    proof {
        lemma_sched_elems(k as int, k);
    }
    let mut r: Vec<MatchTask> = Vec::new();
    let mut i: usize = 0;
    while i < sched.len()
        invariant
            sched@ == schedule_spec(k),
            sched@.len() == k * (k - 1),
            k == g.members@.len(),
            k <= 0x8000,
            forall|m: int| 0 <= m < sched@.len() ==> valid_pair(k, #[trigger] sched@[m]),
            i <= sched@.len(),
            r@.len() == i as int,
            forall|m: int| 0 <= m < i ==> r@[m] == group_tasks_spec(*g)[m],
        decreases sched@.len() - i,
    {
        let (a, b) = sched[i];
        let task = MatchTask {
            group: g.name.clone(),
            game_number: (i as u64) + 1,
            player_a: g.members[a].clone(),
            player_b: g.members[b].clone(),
        };
        r.push(task);
        i += 1;
    }
    proof {
        assert(r@ =~= group_tasks_spec(*g));
    }
    r
}

/// Duplicate an outcome field by field.
fn duplicate_outcome(o: &MatchOutcome) -> (r: MatchOutcome)
    ensures
        r == *o,
{
    MatchOutcome {
        round: o.round.clone(),
        group: o.group.clone(),
        game_number: o.game_number,
        player_a: o.player_a.clone(),
        player_b: o.player_b.clone(),
        winner: match &o.winner {
            Some(w) => Some(w.clone()),
            None => None,
        },
        is_draw: o.is_draw,
        error: match &o.error {
            Some(e) => Some(e.clone()),
            None => None,
        },
    }
}

/// A competitor name can be resolved to its launch command.
pub open spec fn roster_has(roster: Seq<Competitor>, name: Seq<char>) -> bool {
    exists|i: int| 0 <= i < roster.len() && (#[trigger] roster[i]).name@ == name
}

/// Resolve a competitor to its launch command, or fail with the
/// unknown-competitor error, exactly when no roster entry bears the name.
pub fn resolve_descriptor(roster: &Vec<Competitor>, name: &String) -> (r: Result<
    String,
    TournamentError,
>)
    ensures
        match r {
            Ok(cmd) => exists|i: int|
                0 <= i < roster@.len() && (#[trigger] roster@[i]).name@ == name@
                    && roster@[i].command@ == cmd@,
            Err(e) => !roster_has(roster@, name@) && e == TournamentError::UnknownCompetitor,
        },
{
    let mut i: usize = 0;
    while i < roster.len()
        invariant
            i <= roster@.len(),
            forall|m: int| 0 <= m < i ==> (#[trigger] roster@[m]).name@ != name@,
        decreases roster@.len() - i,
    {
        if roster[i].name == *name {
            return Ok(roster[i].command.clone());
        }
        i += 1;
    }
    Err(TournamentError::UnknownCompetitor)
}

/// The whole engine's mutable state: configuration, the current round's
/// groups and standings, and the append-only ledger of played rounds.
pub struct Tournament {
    pub game: GameKind,
    pub scoring: ScoringPolicy,
    pub partition: PartitionPolicy,
    pub settings: GameSettings,
    pub roster: Vec<Competitor>,
    pub plan: Vec<RoundPlan>,
    pub phase: usize,
    pub groups: Vec<Group>,
    pub standings: Vec<GroupStandings>,
    pub ledger: Vec<RoundRecord>,
    pub degraded: bool,
}

impl Tournament {
    /// The round the bracket currently stands in: a planned preliminary
    /// round, or the final round once the plan is exhausted.
    pub open spec fn round_name_spec(self) -> Seq<char> {
        if self.phase < self.plan.len() {
            self.plan[self.phase as int].name@
        } else {
            "Final Round"@
        }
    }

    /// The default four-round plan before the finals: eight groups,
    /// then four, then two, then one.
    pub fn standard_plan() -> (r: Vec<RoundPlan>)
        ensures
            r@.len() == 4,
            r@[0].name@ == "First Round"@ && r@[0].group_count == 8,
            r@[1].name@ == "Second Round"@ && r@[1].group_count == 4,
            r@[2].name@ == "Third Round"@ && r@[2].group_count == 2,
            r@[3].name@ == "Fourth Round"@ && r@[3].group_count == 1,
            plan_wf(r@),
    {
        let mut r: Vec<RoundPlan> = Vec::new();
        r.push(RoundPlan { name: "First Round".to_owned(), group_count: 8 });
        r.push(RoundPlan { name: "Second Round".to_owned(), group_count: 4 });
        r.push(RoundPlan { name: "Third Round".to_owned(), group_count: 2 });
        r.push(RoundPlan { name: "Fourth Round".to_owned(), group_count: 1 });
        r
    }

    /// Check the configured game and set up an empty tournament.  The
    /// whole run is refused before any match if the game is unsupported.
    pub fn new(
        game_name: &str,
        roster: Vec<Competitor>,
        settings: GameSettings,
        partition: PartitionPolicy,
        plan: Vec<RoundPlan>,
        scoring: ScoringPolicy,
    ) -> (r: Result<Tournament, TournamentError>)
        requires
            plan_wf(plan@),
            plan@.len() >= 1,
        ensures
            match r {
                Ok(t) => {
                    &&& game_kind_of(game_name@) == Some(t.game)
                    &&& t.roster == roster
                    &&& t.settings == settings
                    &&& t.partition == partition
                    &&& t.plan == plan
                    &&& t.scoring == scoring
                    &&& t.phase == 0
                    &&& t.groups@.len() == 0
                    &&& t.standings@.len() == 0
                    &&& t.ledger@.len() == 0
                    &&& !t.degraded
                },
                Err(e) => game_kind_of(game_name@) is None && e
                    == TournamentError::UnsupportedGame,
            },
    {
        let game = match parse_game_kind(game_name) {
            Ok(g) => g,
            Err(e) => {
                return Err(e);
            },
        };
        Ok(
            Tournament {
                game,
                scoring,
                partition,
                settings,
                roster,
                plan,
                phase: 0,
                groups: Vec::new(),
                standings: Vec::new(),
                ledger: Vec::new(),
                degraded: false,
            },
        )
    }

    /// The roster's competitor names, in roster order.
    pub fn roster_names(&self) -> (r: Vec<String>)
        ensures
            r@ == names_of(self.roster@),
    {
        let mut r: Vec<String> = Vec::new();
        let mut i: usize = 0;
        while i < self.roster.len()
            invariant
                i <= self.roster@.len(),
                r@.len() == i as int,
                forall|m: int| 0 <= m < i ==> r@[m] == names_of(self.roster@)[m],
            decreases self.roster@.len() - i,
        {
            r.push(self.roster[i].name.clone());
            i += 1;
        }
        proof {
            assert(r@ =~= names_of(self.roster@));
        }
        r
    }

    /// Seed the first round: predefined groups are used verbatim,
    /// otherwise the roster is shuffled and partitioned, and every group
    /// gets a zeroed scoring table.
    pub fn start_first_round(&mut self, predefined: &Option<Vec<Group>>)
        requires
            old(self).phase == 0,
            old(self).plan@.len() >= 1,
            plan_wf(old(self).plan@),
        ensures
            final(self).phase == 0,
            final(self).roster == old(self).roster,
            final(self).plan == old(self).plan,
            final(self).ledger == old(self).ledger,
            final(self).scoring == old(self).scoring,
            final(self).game == old(self).game,
            final(self).settings == old(self).settings,
            predefined matches Some(g) ==> crate::formation::groups_match(
                final(self).groups@,
                g@,
            ),
            predefined is None ==> concat_members(final(self).groups@).to_multiset() == names_of(
                old(self).roster@,
            ).to_multiset(),
            standings_aligned(final(self).groups@, final(self).standings@),
            standings_zeroed(final(self).standings@),
    {
        let names = self.roster_names();
        let groups = form_groups(&names, predefined, self.plan[0].group_count, self.partition);
        let standings = init_standings(&groups);
        self.groups = groups;
        self.standings = standings;
    }

    /// List the current round's matches, group by group.
    pub fn current_pairings(&self) -> (r: Vec<MatchTask>)
        requires
            forall|gi: int|
                0 <= gi < self.groups@.len() ==> (#[trigger] self.groups@[gi]).members@.len()
                    <= 0x8000,
        ensures
            r@ == round_tasks_spec(self.groups@),
    {
        let mut r: Vec<MatchTask> = Vec::new();
        let mut gi: usize = 0;
        while gi < self.groups.len()
            invariant
                gi <= self.groups@.len(),
                forall|m: int|
                    0 <= m < self.groups@.len() ==> (#[trigger] self.groups@[m]).members@.len()
                        <= 0x8000,
                r@ == round_tasks_spec(self.groups@.take(gi as int)),
            decreases self.groups@.len() - gi,
        {
            let mut tasks = group_tasks(&self.groups[gi]);
            let ghost r0 = r@;
            let ghost tasks0 = tasks@;
            r.append(&mut tasks);
            proof {
                assert(r@ == r0 + tasks0);
                assert(self.groups@.take(gi + 1).drop_last() =~= self.groups@.take(gi as int));
                assert(self.groups@.take(gi + 1).last() == self.groups@[gi as int]);
            }
            gi += 1;
        }
        proof {
            assert(self.groups@.take(self.groups@.len() as int) =~= self.groups@);
        }
        r
    }

    /// Fold a completed round's outcomes into every group's standings and
    /// append the round to the ledger.  The ledger is append-only: what
    /// was recorded before is untouched.
    pub fn record_round(&mut self, outcomes: &Vec<MatchOutcome>)
        requires
            forall|gi: int, j: int|
                0 <= gi < old(self).standings@.len() && 0 <= j < (#[trigger] old(
                    self,
                ).standings@[gi]).entries@.len() ==> {
                    let e = #[trigger] old(self).standings@[gi].entries@[j];
                    &&& e.record_total() + outcomes@.len() < RECORD_LIMIT
                    &&& e.points + outcomes@.len() * 0x1_0000_0000 < RECORD_LIMIT
                },
        ensures
            final(self).standings@.len() == old(self).standings@.len(),
            forall|gi: int|
                0 <= gi < old(self).standings@.len() ==> {
                    &&& (#[trigger] final(self).standings@[gi]).group == old(
                        self,
                    ).standings@[gi].group
                    &&& final(self).standings@[gi].entries@ == apply_all_spec(
                        old(self).standings@[gi].entries@,
                        outcomes@,
                        old(self).scoring,
                    )
                },
            final(self).ledger@.len() == old(self).ledger@.len() + 1,
            forall|m: int|
                0 <= m < old(self).ledger@.len() ==> final(self).ledger@[m] == old(
                    self,
                ).ledger@[m],
            final(self).ledger@.last().round@ == old(self).round_name_spec(),
            final(self).ledger@.last().outcomes@ == outcomes@,
            final(self).groups == old(self).groups,
            final(self).roster == old(self).roster,
            final(self).plan == old(self).plan,
            final(self).phase == old(self).phase,
            final(self).scoring == old(self).scoring,
    {
        let n = self.standings.len();
        let mut gi: usize = 0;
        while gi < n
            invariant
                n == self.standings@.len(),
                n == old(self).standings@.len(),
                gi <= n,
                self.scoring == old(self).scoring,
                self.groups == old(self).groups,
                self.roster == old(self).roster,
                self.plan == old(self).plan,
                self.phase == old(self).phase,
                self.ledger == old(self).ledger,
                self.degraded == old(self).degraded,
                self.game == old(self).game,
                self.settings == old(self).settings,
                self.partition == old(self).partition,
                forall|m: int, j: int|
                    0 <= m < n && 0 <= j < (#[trigger] old(self).standings@[m]).entries@.len()
                        ==> {
                        let e = #[trigger] old(self).standings@[m].entries@[j];
                        &&& e.record_total() + outcomes@.len() < RECORD_LIMIT
                        &&& e.points + outcomes@.len() * 0x1_0000_0000 < RECORD_LIMIT
                    },
                forall|m: int|
                    gi <= m < n ==> #[trigger] self.standings@[m] == old(self).standings@[m],
                forall|m: int|
                    0 <= m < gi ==> {
                        &&& (#[trigger] self.standings@[m]).group == old(self).standings@[m].group
                        &&& self.standings@[m].entries@ == apply_all_spec(
                            old(self).standings@[m].entries@,
                            outcomes@,
                            old(self).scoring,
                        )
                    },
            decreases n - gi,
        {
            let scoring = self.scoring;
            let st = &mut self.standings[gi];
            st.apply_outcomes(outcomes, scoring);
            gi += 1;
        }
        let round = self.current_round_name();
        let mut copied: Vec<MatchOutcome> = Vec::new();
        let mut t: usize = 0;
        while t < outcomes.len()
            invariant
                t <= outcomes@.len(),
                copied@ == outcomes@.take(t as int),
            decreases outcomes@.len() - t,
        {
            copied.push(duplicate_outcome(&outcomes[t]));
            proof {
                assert(outcomes@.take(t + 1) =~= outcomes@.take(t as int).push(
                    outcomes@[t as int],
                ));
            }
            t += 1;
        }
        proof {
            assert(outcomes@.take(outcomes@.len() as int) =~= outcomes@);
        }
        self.ledger.push(RoundRecord { round, outcomes: copied });
    }

    /// The name of the round the bracket currently stands in.
    pub fn current_round_name(&self) -> (r: String)
        ensures
            r@ == self.round_name_spec(),
    {
        if self.phase < self.plan.len() {
            self.plan[self.phase].name.clone()
        } else {
            "Final Round".to_owned()
        }
    }

    /// Advance past a standard round: the top two of every group are
    /// pooled, shuffled, and redistributed into the next planned round's
    /// groups, each with a fresh zeroed scoring table.
    pub fn advance_round(&mut self)
        requires
            old(self).phase + 1 < old(self).plan@.len(),
            plan_wf(old(self).plan@),
        ensures
            final(self).phase == old(self).phase + 1,
            concat_members(final(self).groups@).to_multiset() == advancers_spec(
                old(self).standings@,
                2,
            ).to_multiset(),
            (forall|gi: int|
                0 <= gi < old(self).standings@.len() ==> (#[trigger] old(
                    self,
                ).standings@[gi]).entries@.len() >= 2) ==> concat_members(final(self).groups@).len()
                == old(self).standings@.len() * 2,
            forall|i: int|
                0 <= i < final(self).groups@.len() ==> (#[trigger] final(self).groups@[i]).name@
                    == group_label_spec(i),
            standings_aligned(final(self).groups@, final(self).standings@),
            standings_zeroed(final(self).standings@),
            final(self).ledger == old(self).ledger,
            final(self).roster == old(self).roster,
            final(self).plan == old(self).plan,
            final(self).scoring == old(self).scoring,
    {
        let winners = select_advancers(&self.standings, 2);
        let np = self.plan.len();
        let target = self.plan[self.phase + 1].group_count;
        let groups = form_groups(&winners, &None, target, self.partition);
        let standings = init_standings(&groups);
        self.groups = groups;
        self.standings = standings;
        self.phase = self.phase + 1;
        proof {
            broadcast use vstd::prelude::Seq::to_multiset_ensures;

            if forall|gi: int|
                0 <= gi < old(self).standings@.len() ==> (#[trigger] old(
                    self,
                ).standings@[gi]).entries@.len() >= 2 {
                crate::bracket::lemma_advancers_count(old(self).standings@, 2);
                assert(concat_members(self.groups@).len() == concat_members(
                    self.groups@,
                ).to_multiset().len());
                assert(advancers_spec(old(self).standings@, 2).len() == advancers_spec(
                    old(self).standings@,
                    2,
                ).to_multiset().len());
            }
        }
    }

    /// Enter the finals from the last planned round: its single remaining
    /// group is ranked in full, the top two form the championship pairing
    /// and the next two the third-place pairing.  With fewer than four
    /// survivors the setup degrades as `setup_finals` describes.
    pub fn enter_finals(&mut self)
        requires
            old(self).phase + 1 == old(self).plan@.len(),
            old(self).standings@.len() >= 1,
        ensures
            final(self).phase == old(self).plan@.len(),
            ({
                let ranked_names = top_names(
                    old(self).standings@[0].entries@,
                    old(self).standings@[0].entries@.len() as int,
                );
                let n = ranked_names.len();
                &&& (n >= 4 ==> {
                    &&& !final(self).degraded
                    &&& final(self).groups@.len() == 2
                    &&& final(self).groups@[0].name@ == "Championship"@
                    &&& final(self).groups@[0].members@ == seq![ranked_names[0], ranked_names[1]]
                    &&& final(self).groups@[1].name@ == "Third Place Match"@
                    &&& final(self).groups@[1].members@ == seq![ranked_names[2], ranked_names[3]]
                })
                &&& (2 <= n < 4 ==> {
                    &&& final(self).degraded
                    &&& final(self).groups@.len() == 1
                    &&& final(self).groups@[0].name@ == "Championship"@
                    &&& final(self).groups@[0].members@ == seq![ranked_names[0], ranked_names[1]]
                })
                &&& (n < 2 ==> final(self).degraded && final(self).groups@.len() == 0)
            }),
            standings_aligned(final(self).groups@, final(self).standings@),
            standings_zeroed(final(self).standings@),
            final(self).ledger == old(self).ledger,
            final(self).roster == old(self).roster,
            final(self).plan == old(self).plan,
            final(self).scoring == old(self).scoring,
    {
        let ranked = rank_entries(&self.standings[0].entries);
        let ghost entries = self.standings@[0].entries@;
        let ghost names = top_names(entries, entries.len() as int);
        proof {
            crate::standings::lemma_ranked_permutes(entries);
            assert(names.len() == ranked@.len());
            assert(forall|i: int| 0 <= i < names.len() ==> #[trigger] names[i] == ranked@[i].name);
        }
        let mut ranked_names: Vec<String> = Vec::new();
        let mut t: usize = 0;
        while t < ranked.len()
            invariant
                t <= ranked@.len(),
                names.len() == ranked@.len(),
                forall|i: int| 0 <= i < names.len() ==> #[trigger] names[i] == ranked@[i].name,
                ranked_names@.len() == t as int,
                forall|i: int| 0 <= i < t ==> #[trigger] ranked_names@[i] == names[i],
            decreases ranked@.len() - t,
        {
            ranked_names.push(ranked[t].name.clone());
            t += 1;
        }
        proof {
            assert(ranked_names@ =~= names);
        }
        let setup = setup_finals(&ranked_names);
        let standings = init_standings(&setup.groups);
        self.groups = setup.groups;
        self.standings = standings;
        self.degraded = setup.degraded;
        self.phase = self.plan.len();
    }

    /// The bracket is complete: read the champion and minor placements
    /// off the final round's standings.
    pub fn placements(&self) -> (r: Placements)
        ensures
            r.champion == crate::bracket::placement_of(self.standings@, 0, 0),
            r.runner_up == crate::bracket::placement_of(self.standings@, 0, 1),
            r.third == crate::bracket::placement_of(self.standings@, 1, 0),
            r.fourth == crate::bracket::placement_of(self.standings@, 1, 1),
    {
        final_placements(&self.standings)
    }
}

} // verus!
