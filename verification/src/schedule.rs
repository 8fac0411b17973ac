//! Round-robin pairing schedule for one group.
//!
//! Every unordered pair of distinct members is enumerated once in index
//! order, and each pair is played twice with sides swapped, so a group of
//! size `k` yields exactly `k·(k−1)` matches.

use vstd::prelude::*;

verus! {

/// The pairs produced for first index `i` with second index below `j`:
/// for each `j'` in `i+1 .. j`, first `(i, j')`, then the swap `(j', i)`.
pub open spec fn row_upto(i: usize, j: int) -> Seq<(usize, usize)>
    decreases j,
{
    if j <= i + 1 {
        Seq::empty()
    } else {
        row_upto(i, j - 1).push((i, (j - 1) as usize)).push(((j - 1) as usize, i))
    }
}

/// The pairs produced for first indices below `i`, in a group of size `k`.
pub open spec fn sched_upto(i: int, k: usize) -> Seq<(usize, usize)>
    decreases i,
{
    if i <= 0 {
        Seq::empty()
    } else {
        sched_upto(i - 1, k) + row_upto((i - 1) as usize, k as int)
    }
}

/// The full schedule for a group of size `k`, as ordered index pairs
/// (side A index, side B index) into the group's member list.
pub open spec fn schedule_spec(k: usize) -> Seq<(usize, usize)> {
    sched_upto(k as int, k)
}

/// An ordered pair of two distinct member indices of a group of size `k`.
pub open spec fn valid_pair(k: usize, t: (usize, usize)) -> bool {
    t.0 < k && t.1 < k && t.0 != t.1
}

/// How often the pair `p` occurs in the schedule `s`.
pub open spec fn count_pair(s: Seq<(usize, usize)>, p: (usize, usize)) -> int
    decreases s.len(),
{
    if s.len() == 0 {
        0
    } else {
        count_pair(s.drop_last(), p) + if s.last() == p {
            1int
        } else {
            0int
        }
    }
}

proof fn lemma_count_pair_push(s: Seq<(usize, usize)>, e: (usize, usize), p: (usize, usize))
    ensures
        count_pair(s.push(e), p) == count_pair(s, p) + if e == p {
            1int
        } else {
            0int
        },
{
    assert(s.push(e).drop_last() =~= s);
    assert(s.push(e).last() == e);
}

proof fn lemma_count_pair_add(a: Seq<(usize, usize)>, b: Seq<(usize, usize)>, p: (usize, usize))
    ensures
        count_pair(a + b, p) == count_pair(a, p) + count_pair(b, p),
    decreases b.len(),
{
    if b.len() == 0 {
        assert(a + b =~= a);
    } else {
        lemma_count_pair_add(a, b.drop_last(), p);
        assert((a + b).drop_last() =~= a + b.drop_last());
        assert((a + b).last() == b.last());
    }
}

proof fn lemma_row_upto_len(i: usize, j: int)
    requires
        i + 1 <= j,
    ensures
        row_upto(i, j).len() == 2 * (j - i - 1),
    decreases j,
{
    if j > i + 1 {
        lemma_row_upto_len(i, j - 1);
    }
}

proof fn lemma_sched_upto_len(i: int, k: usize)
    requires
        0 <= i <= k,
    ensures
        sched_upto(i, k).len() == i * (2 * k - i - 1),
    decreases i,
{
    if i > 0 {
        lemma_sched_upto_len(i - 1, k);
        lemma_row_upto_len((i - 1) as usize, k as int);
        assert(sched_upto(i, k) == sched_upto(i - 1, k) + row_upto((i - 1) as usize, k as int));
        assert((i - 1) * (2 * k - (i - 1) - 1) + 2 * (k - (i - 1) - 1) == i * (2 * k - i - 1))
            by (nonlinear_arith);
    } else {
        assert(sched_upto(i, k).len() == 0);
    }
}

/// The schedule for a group of size `k` holds exactly `k·(k−1)` matches.
pub proof fn lemma_schedule_len(k: usize)
    ensures
        schedule_spec(k).len() == k * (k - 1),
{
    lemma_sched_upto_len(k as int, k);
    assert((k as int) * (2 * k - k - 1) == k * (k - 1)) by (nonlinear_arith);
}

proof fn lemma_row_elems(i: usize, j: int)
    requires
        j <= usize::MAX,
    ensures
        forall|idx: int|
            0 <= idx < row_upto(i, j).len() ==> {
                let t = #[trigger] row_upto(i, j)[idx];
                (t.0 == i && i < t.1 && t.1 < j) || (t.1 == i && i < t.0 && t.0 < j)
            },
    decreases j,
{
    if j > i + 1 {
        lemma_row_elems(i, j - 1);
        let prev = row_upto(i, j - 1);
        let cur = row_upto(i, j);
        assert(cur == prev.push((i, (j - 1) as usize)).push(((j - 1) as usize, i)));
        assert forall|idx: int| 0 <= idx < cur.len() implies {
            let t = #[trigger] cur[idx];
            (t.0 == i && i < t.1 && t.1 < j) || (t.1 == i && i < t.0 && t.0 < j)
        } by {
            if idx < prev.len() {
                assert(cur[idx] == prev[idx]);
            }
        }
    }
}

/// Every schedule entry is an ordered pair of two distinct indices
/// within the group.
pub proof fn lemma_sched_elems(i: int, k: usize)
    requires
        i <= k,
    ensures
        forall|idx: int|
            0 <= idx < sched_upto(i, k).len() ==> valid_pair(k, #[trigger] sched_upto(i, k)[idx]),
    decreases i,
{
    if i > 0 {
        lemma_sched_elems(i - 1, k);
        lemma_row_elems((i - 1) as usize, k as int);
        let a = sched_upto(i - 1, k);
        let row = row_upto((i - 1) as usize, k as int);
        let cur = sched_upto(i, k);
        assert(cur == a + row);
        assert forall|idx: int| 0 <= idx < cur.len() implies valid_pair(k, cur[idx]) by {
            if idx < a.len() {
                assert(cur[idx] == a[idx]);
            } else {
                assert(cur[idx] == row[idx - a.len()]);
            }
        }
    }
}

proof fn lemma_row_count(i: usize, j: int, p: (usize, usize))
    requires
        i + 1 <= j,
        j <= usize::MAX,
    ensures
        count_pair(row_upto(i, j), p) == if p.0 == i && i < p.1 && p.1 < j {
            1int
        } else if p.1 == i && i < p.0 && p.0 < j {
            1int
        } else {
            0int
        },
    decreases j,
{
    if j > i + 1 {
        lemma_row_count(i, j - 1, p);
        let prev = row_upto(i, j - 1);
        let x = (i, (j - 1) as usize);
        let y = ((j - 1) as usize, i);
        assert(row_upto(i, j) == prev.push(x).push(y));
        lemma_count_pair_push(prev, x, p);
        lemma_count_pair_push(prev.push(x), y, p);
    }
}

proof fn lemma_sched_count(i: int, k: usize, p: (usize, usize))
    requires
        0 <= i <= k,
        valid_pair(k, p),
    ensures
        count_pair(sched_upto(i, k), p) == if p.0 < i || p.1 < i {
            1int
        } else {
            0int
        },
    decreases i,
{
    if i > 0 {
        lemma_sched_count(i - 1, k, p);
        lemma_row_count((i - 1) as usize, k as int, p);
        assert(sched_upto(i, k) == sched_upto(i - 1, k) + row_upto((i - 1) as usize, k as int));
        lemma_count_pair_add(sched_upto(i - 1, k), row_upto((i - 1) as usize, k as int), p);
    }
}

/// Each ordered pair of distinct group members is scheduled exactly once,
/// so each unordered pair is played exactly twice, with sides swapped.
pub proof fn lemma_schedule_exactly_once(k: usize, p: (usize, usize))
    requires
        valid_pair(k, p),
    ensures
        count_pair(schedule_spec(k), p) == 1,
{
    lemma_sched_count(k as int, k, p);
}

/// Enumerate the schedule for a group of size `k`: all pairs `(i, j)` with
/// `i < j` in index order, each followed by its swapped rematch `(j, i)`.
pub fn round_robin_schedule(k: usize) -> (r: Vec<(usize, usize)>)
    ensures
        r@ == schedule_spec(k),
        r@.len() == k * (k - 1),
{
    broadcast use vstd::prelude::Seq::push_distributes_over_add;

    let mut r: Vec<(usize, usize)> = Vec::new();
    let mut i: usize = 0;
    while i < k
        invariant
            i <= k,
            r@ == sched_upto(i as int, k),
        decreases k - i,
    {
        let mut j: usize = i + 1;
        assert(r@ =~= sched_upto(i as int, k) + row_upto(i, j as int));
        while j < k
            invariant
                i < k,
                i + 1 <= j <= k,
                r@ == sched_upto(i as int, k) + row_upto(i, j as int),
            decreases k - j,
        {
            r.push((i, j));
            r.push((j, i));
            j += 1;
        }
        assert(r@ == sched_upto(i + 1, k));
        i += 1;
    }
    proof {
        lemma_schedule_len(k);
    }
    r
}

} // verus!
