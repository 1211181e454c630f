use vstd::prelude::*;

use crate::{Error, Result};

verus! {

/// Index of the first entry of `prns` from `from` on that equals `prn`, or
/// `prns.len()` when there is none.
pub open spec fn first_index(prns: Seq<u8>, prn: u8, from: int) -> int
    decreases prns.len() - from,
{
    if from >= prns.len() {
        prns.len() as int
    } else if prns[from] == prn {
        from
    } else {
        first_index(prns, prn, from + 1)
    }
}

/// The measurement pairs for the first `k` pseudoranges: for each
/// pseudorange in order whose PRN has an ephemeris, its index paired with
/// the index of the first ephemeris of that PRN.
pub open spec fn matched_pairs(pr_prns: Seq<u8>, eph_prns: Seq<u8>, k: nat) -> Seq<(usize, usize)>
    decreases k,
{
    if k == 0 {
        Seq::empty()
    } else {
        let i = k - 1;
        let j = first_index(eph_prns, pr_prns[i], 0);
        let before = matched_pairs(pr_prns, eph_prns, i as nat);
        if j < eph_prns.len() {
            before.push((i as usize, j as usize))
        } else {
            before
        }
    }
}

/// The solver needs at least four pseudoranges, and at least four of them
/// with an ephemeris; the measurements are the matched pairs.
pub open spec fn measurement_selection(pr_prns: Seq<u8>, eph_prns: Seq<u8>) -> core::result::Result<
    Seq<(usize, usize)>,
    nat,
> {
    let m = matched_pairs(pr_prns, eph_prns, pr_prns.len());
    if pr_prns.len() < 4 {
        Err(pr_prns.len())
    } else if m.len() < 4 {
        Err(m.len())
    } else {
        Ok(m)
    }
}

/// Some ephemeris is for `prn`.
pub open spec fn has_ephemeris(eph_prns: Seq<u8>, prn: u8) -> bool {
    exists|l: int| 0 <= l < eph_prns.len() && eph_prns[l] == prn
}

/// The pair `(i, j)` joins pseudorange `i` with the first ephemeris of its PRN.
pub open spec fn first_match_pair(pr_prns: Seq<u8>, eph_prns: Seq<u8>, p: (usize, usize)) -> bool {
    let (i, j) = p;
    &&& i < pr_prns.len()
    &&& j < eph_prns.len()
    &&& eph_prns[j as int] == pr_prns[i as int]
    &&& forall|l: int| 0 <= l < j ==> eph_prns[l] != pr_prns[i as int]
}

/// `m` pairs, in order of pseudorange, every pseudorange among the first
/// `k` whose PRN has an ephemeris with the first ephemeris of that PRN, and
/// holds nothing else.
pub open spec fn pairs_first_k(
    pr_prns: Seq<u8>,
    eph_prns: Seq<u8>,
    m: Seq<(usize, usize)>,
    k: int,
) -> bool {
    &&& forall|a: int|
        0 <= a < m.len() ==> first_match_pair(pr_prns, eph_prns, #[trigger] m[a]) && m[a].0 < k
    &&& forall|a: int, b: int| #![trigger m[a], m[b]] 0 <= a < b < m.len() ==> m[a].0 < m[b].0
    &&& forall|i: int|
        0 <= i < k && has_ephemeris(eph_prns, #[trigger] pr_prns[i]) ==> exists|a: int|
            0 <= a < m.len() && #[trigger] m[a].0 == i
}

/// `m` is the pairing of all the pseudoranges.
pub open spec fn is_pairing(pr_prns: Seq<u8>, eph_prns: Seq<u8>, m: Seq<(usize, usize)>) -> bool {
    pairs_first_k(pr_prns, eph_prns, m, pr_prns.len() as int)
}

proof fn lemma_first_index(prns: Seq<u8>, prn: u8, from: int)
    requires
        0 <= from,
    ensures
        from <= first_index(prns, prn, from) <= prns.len() || (from > prns.len()
            && first_index(prns, prn, from) == prns.len()),
        first_index(prns, prn, from) < prns.len() ==> prns[first_index(prns, prn, from)] == prn,
        forall|l: int| from <= l < first_index(prns, prn, from) ==> prns[l] != prn,
    decreases prns.len() - from,
{
    if from < prns.len() && prns[from] != prn {
        lemma_first_index(prns, prn, from + 1);
    }
}

proof fn lemma_matched_pairs(pr_prns: Seq<u8>, eph_prns: Seq<u8>, k: nat)
    requires
        k <= pr_prns.len() <= usize::MAX,
        eph_prns.len() <= usize::MAX,
    ensures
        pairs_first_k(pr_prns, eph_prns, matched_pairs(pr_prns, eph_prns, k), k as int),
    decreases k,
{
    if k > 0 {
        let i = k - 1;
        lemma_matched_pairs(pr_prns, eph_prns, i as nat);
        lemma_first_index(eph_prns, pr_prns[i], 0);
        let before = matched_pairs(pr_prns, eph_prns, i as nat);
        let j = first_index(eph_prns, pr_prns[i], 0);
        let m = matched_pairs(pr_prns, eph_prns, k);
        if j < eph_prns.len() {
            assert(m == before.push((i as usize, j as usize)));
            assert(first_match_pair(pr_prns, eph_prns, m[before.len() as int]));
            assert forall|a: int| 0 <= a < m.len() implies first_match_pair(
                pr_prns,
                eph_prns,
                #[trigger] m[a],
            ) && m[a].0 < k by {
                if a < before.len() {
                    assert(m[a] == before[a]);
                }
            }
            assert forall|a: int, b: int| #![trigger m[a], m[b]] 0 <= a < b < m.len() implies m[a].0
                < m[b].0 by {
                assert(m[a] == before[a]);
                if b < before.len() {
                    assert(m[b] == before[b]);
                }
            }
            assert forall|ii: int|
                0 <= ii < k && has_ephemeris(eph_prns, #[trigger] pr_prns[ii]) implies exists|a: int|
                0 <= a < m.len() && #[trigger] m[a].0 == ii by {
                if ii < i {
                    let a = choose|a: int| 0 <= a < before.len() && #[trigger] before[a].0 == ii;
                    assert(m[a] == before[a]);
                } else {
                    assert(m[before.len() as int].0 == ii);
                }
            }
        } else {
            assert(m == before);
            assert forall|ii: int|
                0 <= ii < k && has_ephemeris(eph_prns, #[trigger] pr_prns[ii]) implies exists|a: int|
                0 <= a < m.len() && #[trigger] m[a].0 == ii by {
                if ii == i {
                    let l = choose|l: int| 0 <= l < eph_prns.len() && eph_prns[l] == pr_prns[ii];
                    assert(eph_prns[l] != pr_prns[i]);
                }
            }
        }
    }
}

/// What the selection is, over all inputs: fewer than four pseudoranges are
/// refused with their number; otherwise the result pairs every
/// pseudorange (the last one too) whose PRN has an ephemeris, in order, with
/// the first ephemeris of its PRN, and nothing else; and that pairing is
/// refused, with its length, exactly when it has fewer than four pairs.
pub proof fn law_measurement_selection(pr_prns: Seq<u8>, eph_prns: Seq<u8>)
    requires
        pr_prns.len() <= usize::MAX,
        eph_prns.len() <= usize::MAX,
    ensures
        pr_prns.len() < 4 ==> measurement_selection(pr_prns, eph_prns) == Err::<
            Seq<(usize, usize)>,
            nat,
        >(pr_prns.len()),
        pr_prns.len() >= 4 ==> match measurement_selection(pr_prns, eph_prns) {
            Ok(m) => is_pairing(pr_prns, eph_prns, m) && m.len() >= 4,
            Err(n) => n < 4 && exists|m: Seq<(usize, usize)>|
                is_pairing(pr_prns, eph_prns, m) && m.len() == n,
        },
{
    lemma_matched_pairs(pr_prns, eph_prns, pr_prns.len());
    let pairs = matched_pairs(pr_prns, eph_prns, pr_prns.len());
    assert(is_pairing(pr_prns, eph_prns, pairs));
}

/// An index paired in `m1` is paired in `m2` too.
proof fn lemma_paired_in_other(
    pr_prns: Seq<u8>,
    eph_prns: Seq<u8>,
    m1: Seq<(usize, usize)>,
    m2: Seq<(usize, usize)>,
    a: int,
) -> (b: int)
    requires
        is_pairing(pr_prns, eph_prns, m1),
        is_pairing(pr_prns, eph_prns, m2),
        0 <= a < m1.len(),
    ensures
        0 <= b < m2.len(),
        m2[b].0 == m1[a].0,
{
    let (i, j) = m1[a];
    assert(first_match_pair(pr_prns, eph_prns, m1[a]));
    assert(has_ephemeris(eph_prns, pr_prns[i as int]));
    choose|b: int| 0 <= b < m2.len() && #[trigger] m2[b].0 == i
}

proof fn lemma_pairing_prefix(
    pr_prns: Seq<u8>,
    eph_prns: Seq<u8>,
    m1: Seq<(usize, usize)>,
    m2: Seq<(usize, usize)>,
    n: int,
)
    requires
        is_pairing(pr_prns, eph_prns, m1),
        is_pairing(pr_prns, eph_prns, m2),
        0 <= n <= m1.len(),
        n <= m2.len(),
    ensures
        forall|c: int| 0 <= c < n ==> m1[c] == m2[c],
    decreases n,
{
    if n > 0 {
        let x = n - 1;
        lemma_pairing_prefix(pr_prns, eph_prns, m1, m2, x);
        let i1 = m1[x].0;
        let i2 = m2[x].0;
        if i1 < i2 {
            let b = lemma_paired_in_other(pr_prns, eph_prns, m1, m2, x);
            if b > x {
                assert(m2[x].0 < m2[b].0);
            }
            assert(b < x);
            assert(m1[b] == m2[b]);
            assert(m1[b].0 < m1[x].0);
        } else if i2 < i1 {
            let b = lemma_paired_in_other(pr_prns, eph_prns, m2, m1, x);
            if b > x {
                assert(m1[x].0 < m1[b].0);
            }
            assert(b < x);
            assert(m1[b] == m2[b]);
            assert(m2[b].0 < m2[x].0);
        }
        assert(first_match_pair(pr_prns, eph_prns, m1[x]));
        assert(first_match_pair(pr_prns, eph_prns, m2[x]));
        let j1 = m1[x].1;
        let j2 = m2[x].1;
        if j1 < j2 {
            assert(eph_prns[j1 as int] != pr_prns[i1 as int]);
        } else if j2 < j1 {
            assert(eph_prns[j2 as int] != pr_prns[i1 as int]);
        }
    }
}

/// A pairing is unique: two pairings/// A pairing is unique: two pairings of the same pseudoranges and
/// ephemerides are equal.
pub proof fn law_pairing_unique(
    pr_prns: Seq<u8>,
    eph_prns: Seq<u8>,
    m1: Seq<(usize, usize)>,
    m2: Seq<(usize, usize)>,
)
    requires
        is_pairing(pr_prns, eph_prns, m1),
        is_pairing(pr_prns, eph_prns, m2),
    ensures
        m1 == m2,
{
    if m1.len() <= m2.len() {
        lemma_pairing_prefix(pr_prns, eph_prns, m1, m2, m1.len() as int);
        if m1.len() < m2.len() {
            let x = m1.len() as int;
            let b = lemma_paired_in_other(pr_prns, eph_prns, m2, m1, x);
            assert(m1[b] == m2[b]);
            assert(m2[b].0 < m2[x].0);
        }
    } else {
        lemma_pairing_prefix(pr_prns, eph_prns, m1, m2, m2.len() as int);
        let x = m2.len() as int;
        let b = lemma_paired_in_other(pr_prns, eph_prns, m1, m2, x);
        assert(m1[b] == m2[b]);
        assert(m1[b].0 < m1[x].0);
    }
    assert(m1 =~= m2);
}

fn find_first(prns: &[u8], prn: u8) -> (r: usize)
    ensures
        r == first_index(prns@, prn, 0),
{
    let mut j: usize = 0;
    while j < prns.len()
        invariant
            0 <= j <= prns@.len(),
            first_index(prns@, prn, 0) == first_index(prns@, prn, j as int),
        decreases prns@.len() - j,
    {
        if prns[j] == prn {
            return j;
        }
        j = j + 1;
    }
    j
}

/// Pairs each pseudorange (by PRN) with the first ephemeris of the same PRN
/// and refuses a fix with fewer than four pseudoranges or fewer than four
/// matched measurements.
pub fn select_measurements(pr_prns: &[u8], eph_prns: &[u8]) -> (r: Result<Vec<(usize, usize)>>)
    ensures
        match measurement_selection(pr_prns@, eph_prns@) {
            Ok(m) => r matches Ok(v) && v@ == m,
            Err(n) => r matches Err(e) && e matches Error::InsufficientSatellites(c) && c == n,
        },
        r matches Ok(v) ==> is_pairing(pr_prns@, eph_prns@, v@) && v@.len() >= 4,
        pr_prns@.len() >= 4 ==> (r matches Err(e) ==> (e matches Error::InsufficientSatellites(c)
            ==> c < 4 && exists|m: Seq<(usize, usize)>|
            is_pairing(pr_prns@, eph_prns@, m) && m.len() == c)),
{
    let n_pr = pr_prns.len();
    let n_eph = eph_prns.len();
    proof {
        assert(pr_prns@.len() == n_pr);
        assert(eph_prns@.len() == n_eph);
        law_measurement_selection(pr_prns@, eph_prns@);
    }
    if pr_prns.len() < 4 {
        return Err(Error::InsufficientSatellites(pr_prns.len()));
    }
    let mut measurements: Vec<(usize, usize)> = Vec::new();
    let mut i: usize = 0;
    while i < pr_prns.len()
        invariant
            0 <= i <= pr_prns@.len(),
            measurements@ == matched_pairs(pr_prns@, eph_prns@, i as nat),
        decreases pr_prns@.len() - i,
    {
        let j = find_first(eph_prns, pr_prns[i]);
        if j < eph_prns.len() {
            measurements.push((i, j));
        }
        i = i + 1;
    }
    if measurements.len() < 4 {
        return Err(Error::InsufficientSatellites(measurements.len()));
    }
    Ok(measurements)
}

} // verus!
