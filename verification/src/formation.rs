//! Group formation: partitioning competitors into named groups.
//!
//! A predefined grouping is used verbatim.  Otherwise the competitors are
//! shuffled by a uniformly random permutation and split into a target
//! number of groups under one of two partition policies: spreading the
//! remainder so sizes differ by at most one, or filling fixed-size chunks
//! of the ceiling size.  Group names are assigned deterministically as
//! "Group A", "Group B", … in partition order.

use vstd::prelude::*;
use vstd::arithmetic::div_mod::lemma_fundamental_div_mod;
use vstd::arithmetic::div_mod::lemma_mod_bound;

verus! {

/// The most groups a round can be split into: one letter per group name.
pub const MAX_GROUPS: usize = 8;

/// A named set of competitors active within one round.
#[derive(Clone, Debug)]
pub struct Group {
    pub name: String,
    pub members: Vec<String>,
}

/// How the shuffled competitors are split into groups.
#[derive(Clone, Copy, Debug, PartialEq, Eq, Structural)]
pub enum PartitionPolicy {
    /// Sizes differ by at most one: the first `n % g` groups get one extra.
    Balanced,
    /// Fixed chunks of the ceiling size; the last group takes what is left.
    Ceiling,
}

/// The deterministic name of the group at position `i`.
pub open spec fn group_label_spec(i: int) -> Seq<char> {
    if i == 0 {
        "Group A"@
    } else if i == 1 {
        "Group B"@
    } else if i == 2 {
        "Group C"@
    } else if i == 3 {
        "Group D"@
    } else if i == 4 {
        "Group E"@
    } else if i == 5 {
        "Group F"@
    } else if i == 6 {
        "Group G"@
    } else {
        "Group H"@
    }
}

/// The name of the group at position `i`.
pub fn group_label(i: usize) -> (r: String)
    requires
        i < MAX_GROUPS,
    ensures
        r@ == group_label_spec(i as int),
{
    if i == 0 {
        "Group A".to_owned()
    } else if i == 1 {
        "Group B".to_owned()
    } else if i == 2 {
        "Group C".to_owned()
    } else if i == 3 {
        "Group D".to_owned()
    } else if i == 4 {
        "Group E".to_owned()
    } else if i == 5 {
        "Group F".to_owned()
    } else if i == 6 {
        "Group G".to_owned()
    } else {
        "Group H".to_owned()
    }
}

/// All members of all groups, in group order.
pub open spec fn concat_members(groups: Seq<Group>) -> Seq<String>
    decreases groups.len(),
{
    if groups.len() == 0 {
        Seq::empty()
    } else {
        concat_members(groups.drop_last()) + groups.last().members@
    }
}

/// The size of the group at position `i` under the balanced policy, with
/// `n` competitors in `g` groups.
pub open spec fn bal_size(n: int, g: int, i: int) -> int {
    n / g + if i < n % g {
        1int
    } else {
        0int
    }
}

/// Where the group at position `i` starts under the balanced policy.
pub open spec fn bal_off(n: int, g: int, i: int) -> int
    decreases i,
{
    if i <= 0 {
        0
    } else {
        bal_off(n, g, i - 1) + bal_size(n, g, i - 1)
    }
}

proof fn lemma_bal_off_closed(n: int, g: int, m: int)
    requires
        1 <= g,
        0 <= n,
        0 <= m <= g,
    ensures
        m <= n % g ==> bal_off(n, g, m) == (n / g) * m + m,
        m > n % g ==> bal_off(n, g, m) == (n / g) * m + n % g,
        bal_off(n, g, m) <= n,
    decreases m,
{
    lemma_fundamental_div_mod(n, g);
    lemma_mod_bound(n, g);
    let q = n / g;
    let rem = n % g;
    assert(n == g * q + rem);
    assert(q >= 0) by (nonlinear_arith)
        requires
            n == g * q + rem,
            0 <= rem < g,
            1 <= g,
            0 <= n,
    ;
    if m > 0 {
        lemma_bal_off_closed(n, g, m - 1);
        assert(q * (m - 1) + q == q * m) by (nonlinear_arith);
        assert(bal_off(n, g, m) == bal_off(n, g, m - 1) + bal_size(n, g, m - 1));
        assert(bal_size(n, g, m - 1) == q + if m - 1 < rem {
            1int
        } else {
            0int
        });
        assert(bal_off(n, g, m - 1) == q * (m - 1) + if m - 1 <= rem {
            m - 1
        } else {
            rem
        });
        assert(bal_off(n, g, m) == q * m + if m <= rem {
            m
        } else {
            rem
        });
    } else {
        assert(m == 0);
        assert(bal_off(n, g, m) == 0);
        assert(q * m == 0) by (nonlinear_arith)
            requires
                m == 0,
        ;
    }
    assert(q * m <= q * g) by (nonlinear_arith)
        requires
            0 <= m <= g,
            0 <= q,
    ;
    assert(q * g + rem == n) by (nonlinear_arith)
        requires
            n == g * q + rem,
    ;
}

/// Every competitor lands in exactly one group and their order is kept:
/// the groups' members, concatenated, are the input list.
pub proof fn lemma_bal_off_total(n: int, g: int)
    requires
        1 <= g <= n,
    ensures
        bal_off(n, g, g) == n,
{
    lemma_bal_off_closed(n, g, g);
    lemma_fundamental_div_mod(n, g);
    lemma_mod_bound(n, g);
}

/// Under the balanced policy any two group sizes differ by at most one.
pub proof fn lemma_bal_sizes_near_equal(n: int, g: int, i: int, j: int)
    requires
        1 <= g,
        0 <= n,
    ensures
        bal_size(n, g, i) - bal_size(n, g, j) <= 1,
        bal_size(n, g, j) - bal_size(n, g, i) <= 1,
{
}

/// Copy a list of names.
fn duplicate_names(v: &Vec<String>) -> (r: Vec<String>)
    ensures
        r@ == v@,
{
    let mut r: Vec<String> = Vec::new();
    let mut i: usize = 0;
    while i < v.len()
        invariant
            i <= v@.len(),
            r@ == v@.take(i as int),
        decreases v@.len() - i,
    {
        r.push(v[i].clone());
        proof {
            assert(v@.take(i + 1) =~= v@.take(i as int).push(v@[i as int]));
        }
        i += 1;
    }
    proof {
        assert(v@.take(v@.len() as int) =~= v@);
    }
    r
}

/// Group lists `a` and `b` hold the same group names and the same members
/// in the same order.
pub open spec fn groups_match(a: Seq<Group>, b: Seq<Group>) -> bool {
    &&& a.len() == b.len()
    &&& forall|i: int|
        0 <= i < a.len() ==> (#[trigger] a[i]).name@ == b[i].name@ && a[i].members@ == b[i].members@
}

/// Copy a list of groups.
fn duplicate_groups(v: &Vec<Group>) -> (r: Vec<Group>)
    ensures
        groups_match(r@, v@),
{
    let mut r: Vec<Group> = Vec::new();
    let mut i: usize = 0;
    while i < v.len()
        invariant
            i <= v@.len(),
            r@.len() == i as int,
            forall|m: int|
                0 <= m < i ==> (#[trigger] r@[m]).name@ == v@[m].name@ && r@[m].members@
                    == v@[m].members@,
        decreases v@.len() - i,
    {
        let g = Group { name: v[i].name.clone(), members: duplicate_names(&v[i].members) };
        r.push(g);
        i += 1;
    }
    r
}

/// Relies on rand's `SliceRandom::shuffle` with `thread_rng`: a
/// Fisher-Yates shuffle that permutes the slice in place by swaps, so the
/// length and the multiset of elements are unchanged.  Which permutation
/// comes out is random and nothing more is assumed of it.
#[verifier::external_body]
fn shuffle_names(v: &mut Vec<String>)
    ensures
        final(v)@.len() == old(v)@.len(),
        final(v)@.to_multiset() == old(v)@.to_multiset(),
{
    let mut rng = rand::thread_rng();
    rand::seq::SliceRandom::shuffle(v.as_mut_slice(), &mut rng);
}

/// Copy `players[start .. start + count]` into a new list.
fn copy_range(players: &Vec<String>, start: usize, count: usize) -> (r: Vec<String>)
    requires
        start + count <= players@.len(),
    ensures
        r@ == players@.subrange(start as int, start + count),
{
    let n = players.len();
    let mut r: Vec<String> = Vec::new();
    let mut t: usize = 0;
    while t < count
        invariant
            t <= count,
            n == players@.len(),
            start + count <= n,
            r@ == players@.subrange(start as int, start + t),
        decreases count - t,
    {
        r.push(players[start + t].clone());
        proof {
            assert(players@.subrange(start as int, start + t + 1) =~= players@.subrange(
                start as int,
                start + t,
            ).push(players@[start + t]));
        }
        t += 1;
    }
    r
}

/// Split `players` into `min(target, n)` groups whose sizes differ by at
/// most one: the first `n % g` groups take one extra competitor.
pub fn partition_balanced(players: &Vec<String>, target: usize) -> (r: Vec<Group>)
    requires
        1 <= target <= MAX_GROUPS,
    ensures
        r@.len() == if players@.len() < target {
            players@.len() as int
        } else {
            target as int
        },
        forall|i: int| 0 <= i < r@.len() ==> (#[trigger] r@[i]).name@ == group_label_spec(i),
        forall|i: int|
            0 <= i < r@.len() ==> (#[trigger] r@[i]).members@ == players@.subrange(
                bal_off(players@.len() as int, r@.len() as int, i),
                bal_off(players@.len() as int, r@.len() as int, i) + bal_size(
                    players@.len() as int,
                    r@.len() as int,
                    i,
                ),
            ),
        concat_members(r@) == players@,
{
    let n = players.len();
    let mut r: Vec<Group> = Vec::new();
    if n == 0 {
        proof {
            assert(concat_members(r@) =~= players@);
        }
        return r;
    }
    let g = if n < target {
        n
    } else {
        target
    };
    let base = n / g;
    let rem = n % g;
    let ghost ni = n as int;
    let ghost gi = g as int;
    let mut i: usize = 0;
    let mut start: usize = 0;
    while i < g
        invariant
            1 <= g <= n,
            g <= MAX_GROUPS,
            base == ni / gi,
            rem == ni % gi,
            ni == n as int,
            gi == g as int,
            n == players@.len(),
            i <= g,
            start == bal_off(ni, gi, i as int),
            start <= n,
            r@.len() == i as int,
            forall|m: int| 0 <= m < i ==> (#[trigger] r@[m]).name@ == group_label_spec(m),
            forall|m: int|
                0 <= m < i ==> (#[trigger] r@[m]).members@ == players@.subrange(
                    bal_off(ni, gi, m),
                    bal_off(ni, gi, m) + bal_size(ni, gi, m),
                ),
            concat_members(r@) == players@.take(start as int),
        decreases g - i,
    {
        proof {
            lemma_fundamental_div_mod(ni, gi);
            lemma_mod_bound(ni, gi);
            vstd::arithmetic::div_mod::lemma_div_pos_is_pos(ni, gi);
            let q = ni / gi;
            assert(gi * q >= q) by (nonlinear_arith)
                requires
                    q >= 0,
                    gi >= 1,
            ;
        }
        let size = if i < rem {
            base + 1
        } else {
            base
        };
        proof {
            lemma_bal_off_closed(ni, gi, i as int);
            lemma_bal_off_closed(ni, gi, i + 1);
            assert(start + size == bal_off(ni, gi, i + 1));
        }
        let members = copy_range(players, start, size);
        let group = Group { name: group_label(i), members };
        let ghost r0 = r@;
        r.push(group);
        proof {
            assert(r@.drop_last() =~= r0);
            assert(concat_members(r@) == concat_members(r0) + r@.last().members@);
            assert(players@.take(start + size) =~= players@.take(start as int) + players@.subrange(
                start as int,
                start + size,
            ));
        }
        start = start + size;
        i += 1;
    }
    proof {
        lemma_bal_off_total(ni, gi);
        assert(players@.take(n as int) =~= players@);
    }
    r
}

/// Split `players` into chunks of `ceil(n / target)` competitors: full
/// chunks first, the last group taking what is left.
pub fn partition_ceiling(players: &Vec<String>, target: usize) -> (r: Vec<Group>)
    requires
        1 <= target <= MAX_GROUPS,
    ensures
        players@.len() == 0 ==> r@.len() == 0,
        players@.len() > 0 ==> {
            let n = players@.len() as int;
            let per = (n - 1) / (target as int) + 1;
            &&& r@.len() <= target
            &&& (r@.len() - 1) * per < n <= r@.len() * per
            &&& forall|i: int|
                0 <= i < r@.len() ==> (#[trigger] r@[i]).members@ == players@.subrange(
                    i * per,
                    if (i + 1) * per < n {
                        (i + 1) * per
                    } else {
                        n
                    },
                )
        },
        forall|i: int| 0 <= i < r@.len() ==> (#[trigger] r@[i]).name@ == group_label_spec(i),
        concat_members(r@) == players@,
{
    let n = players.len();
    let mut r: Vec<Group> = Vec::new();
    if n == 0 {
        proof {
            assert(concat_members(r@) =~= players@);
        }
        return r;
    }
    let per = (n - 1) / target + 1;
    let ghost ni = n as int;
    let ghost peri = per as int;
    proof {
        lemma_fundamental_div_mod(ni - 1, target as int);
        lemma_mod_bound(ni - 1, target as int);
        assert(peri * (target as int) >= ni) by (nonlinear_arith)
            requires
                peri == (ni - 1) / (target as int) + 1,
                ni - 1 == (target as int) * ((ni - 1) / (target as int)) + (ni - 1) % (
                target as int),
                0 <= (ni - 1) % (target as int) < target as int,
        ;
    }
    let mut i: usize = 0;
    let mut start: usize = 0;
    while start < n
        invariant
            1 <= per,
            n == players@.len(),
            0 < n,
            ni == n as int,
            peri == per as int,
            peri * (target as int) >= ni,
            1 <= target <= MAX_GROUPS,
            i <= target,
            start as int == if (i as int) * peri < ni {
                (i as int) * peri
            } else {
                ni
            },
            start <= n,
            i >= 1 ==> ((i - 1) as int) * peri < ni,
            r@.len() == i as int,
            forall|m: int| 0 <= m < i ==> (#[trigger] r@[m]).name@ == group_label_spec(m),
            forall|m: int|
                0 <= m < i ==> (#[trigger] r@[m]).members@ == players@.subrange(
                    m * peri,
                    if (m + 1) * peri < ni {
                        (m + 1) * peri
                    } else {
                        ni
                    },
                ),
            concat_members(r@) == players@.take(start as int),
        decreases n - start,
    {
        proof {
            assert(start as int == (i as int) * peri);
            assert(i < target) by (nonlinear_arith)
                requires
                    (i as int) * peri < ni,
                    ni <= peri * (target as int),
                    peri >= 1,
                    i >= 0,
            ;
            assert(((i + 1) as int) * peri == (i as int) * peri + peri) by (nonlinear_arith);
        }
        let size = if n - start < per {
            n - start
        } else {
            per
        };
        let members = copy_range(players, start, size);
        let group = Group { name: group_label(i), members };
        let ghost r0 = r@;
        r.push(group);
        proof {
            assert(r@.drop_last() =~= r0);
            assert(concat_members(r@) == concat_members(r0) + r@.last().members@);
            assert(players@.take(start + size) =~= players@.take(start as int) + players@.subrange(
                start as int,
                start + size,
            ));
        }
        start = start + size;
        i += 1;
    }
    proof {
        assert(players@.take(n as int) =~= players@);
        assert(r@.len() >= 1);
        assert((r@.len() - 1) * peri < ni);
        assert(ni <= r@.len() * peri);
    }
    r
}

/// Form a round's groups.
///
/// A predefined grouping is used verbatim, with no shuffling and no
/// repartitioning.  Otherwise the competitors are shuffled by a uniformly
/// random permutation and partitioned under the chosen policy; every
/// competitor then stands in exactly one group, and the group sizes and
/// names follow the policy, whatever permutation the shuffle produced.
pub fn form_groups(
    all: &Vec<String>,
    predefined: &Option<Vec<Group>>,
    target: usize,
    policy: PartitionPolicy,
) -> (r: Vec<Group>)
    requires
        1 <= target <= MAX_GROUPS,
    ensures
        predefined matches Some(g) ==> groups_match(r@, g@),
        predefined is None ==> {
            &&& concat_members(r@).to_multiset() == all@.to_multiset()
            &&& r@.len() <= target
            &&& forall|i: int| 0 <= i < r@.len() ==> (#[trigger] r@[i]).name@ == group_label_spec(i)
            &&& (policy == PartitionPolicy::Balanced ==> {
                &&& r@.len() == if all@.len() < target {
                    all@.len() as int
                } else {
                    target as int
                }
                &&& forall|i: int|
                    0 <= i < r@.len() ==> (#[trigger] r@[i]).members@.len() == bal_size(
                        all@.len() as int,
                        r@.len() as int,
                        i,
                    )
            })
            &&& (policy == PartitionPolicy::Ceiling && all@.len() > 0 ==> {
                let n = all@.len() as int;
                let per = (n - 1) / (target as int) + 1;
                &&& 1 <= r@.len()
                &&& (r@.len() - 1) * per < n <= r@.len() * per
                &&& forall|i: int|
                    0 <= i < r@.len() ==> (#[trigger] r@[i]).members@.len() == if (i + 1) * per
                        < n {
                        per
                    } else {
                        n - i * per
                    }
            })
        },
{
    match predefined {
        Some(groups) => duplicate_groups(groups),
        None => {
            let mut pool = duplicate_names(all);
            shuffle_names(&mut pool);
            let r = match policy {
                PartitionPolicy::Balanced => partition_balanced(&pool, target),
                PartitionPolicy::Ceiling => partition_ceiling(&pool, target),
            };
            proof {
                assert(concat_members(r@) == pool@);
                assert(concat_members(r@).to_multiset() == all@.to_multiset());
                if policy == PartitionPolicy::Balanced {
                    assert forall|i: int| 0 <= i < r@.len() implies (
                    #[trigger] r@[i]).members@.len() == bal_size(
                        all@.len() as int,
                        r@.len() as int,
                        i,
                    ) by {
                        lemma_bal_off_closed(pool@.len() as int, r@.len() as int, i);
                        lemma_bal_off_closed(pool@.len() as int, r@.len() as int, i + 1);
                    }
                }
                if policy == PartitionPolicy::Ceiling && pool@.len() > 0 {
                    let n = pool@.len() as int;
                    let per = (n - 1) / (target as int) + 1;
                    assert forall|i: int| 0 <= i < r@.len() implies (
                    #[trigger] r@[i]).members@.len() == (if (i + 1) * per < n {
                        per
                    } else {
                        n - i * per
                    }) by {
                        assert(i * per >= 0) by (nonlinear_arith)
                            requires
                                i >= 0,
                                per >= 1,
                        ;
                        assert(i * per <= (r@.len() - 1) * per) by (nonlinear_arith)
                            requires
                                i <= r@.len() - 1,
                                per >= 1,
                        ;
                        assert((i + 1) * per == i * per + per) by (nonlinear_arith);
                    }
                }
            }
            r
        },
    }
}

} // verus!

