//! Byte-level substring search, used to scan the referee's captured output
//! for its result phrases.

use vstd::prelude::*;

verus! {

/// The needle `n` occurs in the haystack `h` starting at position `i`.
pub open spec fn matches_at(h: Seq<u8>, n: Seq<u8>, i: int) -> bool {
    &&& 0 <= i
    &&& i + n.len() <= h.len()
    &&& h.subrange(i, i + n.len() as int) == n
}

/// The needle `n` occurs somewhere in the haystack `h`.
pub open spec fn contains_seq(h: Seq<u8>, n: Seq<u8>) -> bool {
    exists|i: int| matches_at(h, n, i)
}

/// Whether the bytes of `h` starting at `start` are exactly `n`.
fn matches_here(h: &[u8], n: &[u8], start: usize) -> (r: bool)
    requires
        start + n@.len() <= h@.len(),
    ensures
        r == matches_at(h@, n@, start as int),
{
    let hlen: usize = h.len();
    let mut j: usize = 0;
    while j < n.len()
        invariant
            0 <= j <= n@.len(),
            start + n@.len() <= hlen,
            hlen == h@.len(),
            forall|m: int| 0 <= m < j ==> h@[start + m] == n@[m],
        decreases n@.len() - j,
    {
        if h[start + j] != n[j] {
            assert(h@.subrange(start as int, start + n@.len() as int)[j as int] != n@[j as int]);
            return false;
        }
        j += 1;
    }
    assert(h@.subrange(start as int, start + n@.len() as int) =~= n@);
    true
}

/// Naive substring search over byte slices.
pub fn contains_bytes(h: &[u8], n: &[u8]) -> (r: bool)
    ensures
        r == contains_seq(h@, n@),
{
    if n.len() > h.len() {
        assert(forall|i: int| !matches_at(h@, n@, i));
        return false;
    }
    if n.len() == 0 {
        assert(h@.subrange(0, 0) =~= n@);
        assert(matches_at(h@, n@, 0));
        return true;
    }
    let hlen: usize = h.len();
    let stop: usize = h.len() - n.len();
    let mut i: usize = 0;
    while i <= stop
        invariant
            1 <= n@.len() <= h@.len(),
            hlen == h@.len(),
            stop == h@.len() - n@.len(),
            0 <= i <= stop + 1,
            forall|m: int| 0 <= m < i ==> !matches_at(h@, n@, m),
        decreases stop + 1 - i,
    {
        if matches_here(h, n, i) {
            assert(contains_seq(h@, n@));
            return true;
        }
        i += 1;
    }
    assert(forall|m: int| !matches_at(h@, n@, m));
    false
}

} // verus!
