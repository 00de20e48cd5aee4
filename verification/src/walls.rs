//! Where the domain walls of a chain are: a wall sits between sites `i`
//! and `i + 1` whenever their sigma_z signs differ. The signs are read
//! from the simulation by the caller; tracking walls across ticks and
//! placing them between the two sites is done there too.

use vstd::prelude::*;

verus! {

/// Is there a wall between site `i` and site `i + 1`?
pub open spec fn is_boundary(positive: Seq<bool>, i: int) -> bool {
    0 <= i && i + 1 < positive.len() && positive[i] != positive[i + 1]
}

/// The boundaries among the first `k` candidate positions `0..k`, in
/// increasing order.
pub open spec fn boundaries_below(positive: Seq<bool>, k: int) -> Seq<usize>
    decreases k,
{
    if k <= 0 {
        Seq::empty()
    } else if is_boundary(positive, k - 1) {
        boundaries_below(positive, k - 1).push((k - 1) as usize)
    } else {
        boundaries_below(positive, k - 1)
    }
}

/// All wall positions of a chain whose site `i` has positive sigma_z
/// exactly when `positive[i]`: the sites `i` with a sign change to site
/// `i + 1`, left to right.
pub open spec fn wall_sites(positive: Seq<bool>) -> Seq<usize> {
    boundaries_below(positive, positive.len() - 1)
}

/// What `boundaries_below` holds: exactly the boundaries below `k`,
/// strictly increasing.
pub proof fn lemma_boundaries_below(positive: Seq<bool>, k: int)
    requires
        0 <= k,
        k < positive.len(),
        positive.len() <= usize::MAX,
    ensures
        forall|j: int|
            #![trigger boundaries_below(positive, k)[j]]
            0 <= j < boundaries_below(positive, k).len() ==> is_boundary(
                positive,
                boundaries_below(positive, k)[j] as int,
            ) && boundaries_below(positive, k)[j] < k,
        forall|j: int, l: int|
            0 <= j < l < boundaries_below(positive, k).len() ==> boundaries_below(positive, k)[j]
                < boundaries_below(positive, k)[l],
        forall|i: int| 0 <= i < k && #[trigger] is_boundary(positive, i) ==> boundaries_below(
            positive,
            k,
        ).contains(i as usize),
    decreases k,
{
    if k > 0 {
        lemma_boundaries_below(positive, k - 1);
        let prev = boundaries_below(positive, k - 1);
        if is_boundary(positive, k - 1) {
            let b = prev.push((k - 1) as usize);
            assert(b == boundaries_below(positive, k));
            assert forall|j: int| 0 <= j < b.len() implies is_boundary(positive, #[trigger] b[j] as int)
                && b[j] < k by {
                if j < prev.len() {
                    assert(b[j] == prev[j]);
                } else {
                    assert(b[j] == (k - 1) as usize);
                    assert(((k - 1) as usize) as int == k - 1);
                }
            }
            assert forall|j: int, l: int| 0 <= j < l < b.len() implies b[j] < b[l] by {
                if l < prev.len() {
                    assert(b[j] == prev[j] && b[l] == prev[l]);
                } else {
                    assert(b[j] == prev[j]);
                    assert(b[l] == (k - 1) as usize);
                }
            }
            assert forall|i: int| 0 <= i < k && #[trigger] is_boundary(positive, i) implies b.contains(
                i as usize,
            ) by {
                if i == k - 1 {
                    assert(b[b.len() - 1] == (k - 1) as usize);
                } else {
                    let j = choose|j: int| 0 <= j < prev.len() && prev[j] == i as usize;
                    assert(b[j] == i as usize);
                }
            }
        } else {
            assert(prev == boundaries_below(positive, k));
            assert forall|j: int| 0 <= j < prev.len() implies is_boundary(
                positive,
                #[trigger] prev[j] as int,
            ) && prev[j] < k by {}
        }
    }
}

/// The walls of a chain: the sites `i` whose sign differs from that of
/// site `i + 1`, in increasing order.
pub fn wall_boundaries(positive: &Vec<bool>) -> (r: Vec<usize>)
    ensures
        r@ == wall_sites(positive@),
        forall|j: int| 0 <= j < r@.len() ==> #[trigger] is_boundary(positive@, r@[j] as int),
        forall|j: int, l: int| 0 <= j < l < r@.len() ==> r@[j] < r@[l],
        forall|i: int| #[trigger] is_boundary(positive@, i) ==> r@.contains(i as usize),
{
    let mut out: Vec<usize> = Vec::new();
    if positive.len() == 0 {
        assert(out@ =~= wall_sites(positive@));
        return out;
    }
    let n = positive.len() - 1;
    let mut i: usize = 0;
    while i < n
        invariant
            n + 1 == positive@.len(),
            i <= n,
            out@ == boundaries_below(positive@, i as int),
        decreases n - i,
    {
        if positive[i] != positive[i + 1] {
            out.push(i);
        }
        i = i + 1;
    }
    proof {
        lemma_boundaries_below(positive@, n as int);
    }
    out
}

} // verus!
