use vstd::prelude::*;

verus! {

/// Whether the pair `(i, j)` of a road with `crashed.len()` cars is tested for a
/// collision in a step: `i < j`, the ego (index 0) is one of the two when only
/// crashes with the ego count, and the two have not both crashed already.
pub open spec fn pair_tested(crashed: Seq<bool>, ego_only: bool, i: int, j: int) -> bool {
    &&& 0 <= i < j < crashed.len()
    &&& !ego_only || i == 0
    &&& !(crashed[i] && crashed[j])
}

pub open spec fn pair_before(a: (usize, usize), b: (usize, usize)) -> bool {
    a.0 < b.0 || (a.0 == b.0 && a.1 < b.1)
}

/// The pairs of cars to test for a collision in a step, in increasing order of
/// the first index, then of the second.
pub fn collision_pairs(crashed: &Vec<bool>, ego_only: bool) -> (r: Vec<(usize, usize)>)
    ensures
        forall|m: int| 0 <= m < r@.len() ==> pair_tested(crashed@, ego_only, (#[trigger] r@[m]).0 as int, r@[m].1 as int),
        forall|i: int, j: int| #[trigger] pair_tested(crashed@, ego_only, i, j) ==> exists|m: int|
            0 <= m < r@.len() && #[trigger] r@[m] == (i as usize, j as usize),
        forall|a: int, b: int| 0 <= a < b < r@.len() ==> pair_before(#[trigger] r@[a], #[trigger] r@[b]),
{
    let n = crashed.len();
    let mut r: Vec<(usize, usize)> = Vec::new();
    let last_first: usize = if ego_only { if n > 0 { 1 } else { 0 } } else { n };
    let mut i: usize = 0;
    while i < last_first
        invariant
            n == crashed@.len(),
            last_first <= n,
            ego_only ==> last_first <= 1,
            i <= last_first,
            forall|m: int| 0 <= m < r@.len() ==> pair_tested(crashed@, ego_only, (#[trigger] r@[m]).0 as int, r@[m].1 as int) && r@[m].0 < i,
            forall|p: int, q: int| 0 <= p < i && #[trigger] pair_tested(crashed@, ego_only, p, q) ==> exists|m: int|
                0 <= m < r@.len() && #[trigger] r@[m] == (p as usize, q as usize),
            forall|a: int, b: int| 0 <= a < b < r@.len() ==> pair_before(#[trigger] r@[a], #[trigger] r@[b]),
        decreases last_first - i,
    {
        let mut j: usize = i + 1;
        let ghost start = r@.len();
        while j < n
            invariant
                n == crashed@.len(),
                last_first <= n,
                ego_only ==> last_first <= 1,
                i < last_first,
                i < j <= n,
                start <= r@.len(),
                forall|m: int| 0 <= m < r@.len() ==> pair_tested(crashed@, ego_only, (#[trigger] r@[m]).0 as int, r@[m].1 as int) && r@[m].0 <= i,
                forall|m: int| start <= m < r@.len() ==> (#[trigger] r@[m]).0 == i && r@[m].1 < j,
                forall|m: int| 0 <= m < start ==> (#[trigger] r@[m]).0 < i,
                forall|p: int, q: int| 0 <= p < i && #[trigger] pair_tested(crashed@, ego_only, p, q) ==> exists|m: int|
                    0 <= m < r@.len() && #[trigger] r@[m] == (p as usize, q as usize),
                forall|q: int| i < q < j && #[trigger] pair_tested(crashed@, ego_only, i as int, q) ==> exists|m: int|
                    0 <= m < r@.len() && #[trigger] r@[m] == (i, q as usize),
                forall|a: int, b: int| 0 <= a < b < r@.len() ==> pair_before(#[trigger] r@[a], #[trigger] r@[b]),
            decreases n - j,
        {
            let ghost prev = r@;
            if !(crashed[i] && crashed[j]) {
                r.push((i, j));
                assert(r@[r@.len() - 1] == (i, j));
            }
            proof {
                assert forall|p: int, q: int| 0 <= p < i && #[trigger] pair_tested(crashed@, ego_only, p, q) implies exists|m: int|
                    0 <= m < r@.len() && #[trigger] r@[m] == (p as usize, q as usize) by {
                    let w = choose|w: int| 0 <= w < prev.len() && #[trigger] prev[w] == (p as usize, q as usize);
                    assert(r@[w] == prev[w]);
                }
                assert forall|q: int| i < q < j + 1 && #[trigger] pair_tested(crashed@, ego_only, i as int, q) implies exists|m: int|
                    0 <= m < r@.len() && #[trigger] r@[m] == (i, q as usize) by {
                    if q < j {
                        let w = choose|w: int| 0 <= w < prev.len() && #[trigger] prev[w] == (i, q as usize);
                        assert(r@[w] == prev[w]);
                    } else {
                        assert(r@[r@.len() - 1] == (i, j));
                    }
                }
            }
            j = j + 1;
        }
        i = i + 1;
    }
    proof {
        assert forall|p: int, q: int| #[trigger] pair_tested(crashed@, ego_only, p, q) implies exists|m: int|
            0 <= m < r@.len() && #[trigger] r@[m] == (p as usize, q as usize) by {
            assert(p < last_first);
        }
    }
    r
}

/// Whether car `k` takes part in a pair whose test came out true.
pub open spec fn hit_in(pairs: Seq<(usize, usize)>, hits: Seq<bool>, k: int) -> bool {
    exists|m: int| 0 <= m < pairs.len() && #[trigger] hits[m] && (pairs[m].0 == k || pairs[m].1 == k)
}

/// Marks as crashed both cars of every pair whose collision test came out true;
/// `hits[m]` is the outcome for `pairs[m]`. Crashed cars stay crashed.
pub fn mark_crashes(crashed: &mut Vec<bool>, pairs: &Vec<(usize, usize)>, hits: &Vec<bool>)
    requires
        hits@.len() == pairs@.len(),
        forall|m: int| 0 <= m < pairs@.len() ==> (#[trigger] pairs@[m]).0 < old(crashed)@.len() && pairs@[m].1 < old(crashed)@.len(),
    ensures
        final(crashed)@.len() == old(crashed)@.len(),
        forall|k: int| 0 <= k < old(crashed)@.len() ==> #[trigger] final(crashed)@[k] == (old(crashed)@[k] || hit_in(pairs@, hits@, k)),
{
    let mut m: usize = 0;
    while m < pairs.len()
        invariant
            hits@.len() == pairs@.len(),
            forall|p: int| 0 <= p < pairs@.len() ==> (#[trigger] pairs@[p]).0 < old(crashed)@.len() && pairs@[p].1 < old(crashed)@.len(),
            m <= pairs@.len(),
            crashed@.len() == old(crashed)@.len(),
            forall|k: int| 0 <= k < old(crashed)@.len() ==> #[trigger] crashed@[k] == (old(crashed)@[k] || hit_in(pairs@.subrange(0, m as int), hits@.subrange(0, m as int), k)),
        decreases pairs@.len() - m,
    {
        let (a, b) = pairs[m];
        if hits[m] {
            crashed.set(a, true);
            crashed.set(b, true);
        }
        proof {
            let ps = pairs@.subrange(0, m + 1);
            let hs = hits@.subrange(0, m + 1);
            assert forall|k: int| 0 <= k < old(crashed)@.len() implies #[trigger] crashed@[k] == (old(crashed)@[k] || hit_in(ps, hs, k)) by {
                if hit_in(pairs@.subrange(0, m as int), hits@.subrange(0, m as int), k) {
                    let w = choose|w: int| 0 <= w < m && #[trigger] hits@.subrange(0, m as int)[w] && (pairs@.subrange(0, m as int)[w].0 == k || pairs@.subrange(0, m as int)[w].1 == k);
                    assert(hs[w]);
                }
                if hits@[m as int] && (a == k || b == k) {
                    assert(hs[m as int]);
                }
            }
        }
        m = m + 1;
    }
    proof {
        assert(pairs@.subrange(0, m as int) =~= pairs@);
        assert(hits@.subrange(0, m as int) =~= hits@);
    }
}

} // verus!
