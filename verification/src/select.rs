//! OutlierSelector: scores every silhouette by how many other silhouettes
//! have an orbit member structurally equal to it, then picks the earliest
//! minimally-matched one.

use vstd::prelude::*;

use crate::matcher::equal;
use crate::matcher::matches_trunc_g;
use crate::orbit::orbit;
use crate::orbit::orbit_grid;
use crate::pixel::PixelBuffer;
use crate::segment::Icon;

verus! {

/// Whether some member of `b`'s rotation/reflection orbit is structurally
/// equal to `a` under the matcher.
pub open spec fn orbit_hit(a: PixelBuffer, b: PixelBuffer) -> bool {
    exists|k: int| 0 <= k < 8 && matches_trunc_g(a.grid(), #[trigger] orbit_grid(b, k))
}

/// How many of the first `j` silhouettes other than the `i`-th have an
/// orbit member equal to the `i`-th silhouette: one per index, however
/// many of its orbit members match.
pub open spec fn count_hits(s: Seq<PixelBuffer>, i: int, j: int) -> int
    decreases j,
{
    if j <= 0 {
        0
    } else {
        count_hits(s, i, j - 1) + if j - 1 != i && orbit_hit(s[i], s[j - 1]) {
            1int
        } else {
            0int
        }
    }
}

/// The match count of the `i`-th silhouette: for each other silhouette,
/// generate its orbit and test whether any member equals the `i`-th one;
/// count at most one hit per other silhouette. This is the unit of work
/// that a driver — sequential or data-parallel — runs once per span; the
/// result depends only on the silhouette list and the index.
pub fn match_count_for(silhs: &Vec<PixelBuffer>, i: usize) -> (c: usize)
    requires
        forall|k: int| 0 <= k < silhs@.len() ==> (#[trigger] silhs@[k]).wf(),
        i < silhs@.len(),
    ensures
        c as int == count_hits(silhs@, i as int, silhs@.len() as int),
{
    let n = silhs.len();
    let mut c: usize = 0;
    for j in 0..n
        invariant
            forall|k: int| 0 <= k < silhs@.len() ==> (#[trigger] silhs@[k]).wf(),
            i < n,
            n == silhs@.len(),
            c as int == count_hits(silhs@, i as int, j as int),
            c <= j,
    {
        if j != i {
            let members = orbit(&silhs[j]);
            let mut hit = false;
            for k in 0..8
                invariant
                    forall|kk: int| 0 <= kk < silhs@.len() ==> (#[trigger] silhs@[kk]).wf(),
                    i < n,
                    j < n,
                    n == silhs@.len(),
                    members@.len() == 8,
                    forall|kk: int|
                        0 <= kk < 8 ==> (#[trigger] members@[kk]).wf() && members@[kk].grid()
                            == orbit_grid(silhs@[j as int], kk),
                    hit == exists|kk: int|
                        0 <= kk < k as int && matches_trunc_g(
                            silhs@[i as int].grid(),
                            #[trigger] orbit_grid(silhs@[j as int], kk),
                        ),
            {
                if !hit && equal(&silhs[i], &members[k]) {
                    hit = true;
                    proof {
                        assert(matches_trunc_g(
                            silhs@[i as int].grid(),
                            orbit_grid(silhs@[j as int], k as int),
                        ));
                    }
                }
            }
            proof {
                assert(hit == orbit_hit(silhs@[i as int], silhs@[j as int]));
            }
            if hit {
                c = c + 1;
            }
        }
    }
    c
}

/// The match counts of all silhouettes, computed sequentially in span
/// order.
pub fn match_counts(silhs: &Vec<PixelBuffer>) -> (v: Vec<usize>)
    requires
        forall|k: int| 0 <= k < silhs@.len() ==> (#[trigger] silhs@[k]).wf(),
    ensures
        v@.len() == silhs@.len(),
        forall|i: int|
            0 <= i < silhs@.len() ==> (#[trigger] v@[i]) as int == count_hits(
                silhs@,
                i,
                silhs@.len() as int,
            ),
{
    let n = silhs.len();
    let mut v: Vec<usize> = Vec::new();
    for i in 0..n
        invariant
            forall|k: int| 0 <= k < silhs@.len() ==> (#[trigger] silhs@[k]).wf(),
            n == silhs@.len(),
            v@.len() == i as int,
            forall|j: int|
                0 <= j < i as int ==> (#[trigger] v@[j]) as int == count_hits(
                    silhs@,
                    j,
                    silhs@.len() as int,
                ),
    {
        let c = match_count_for(silhs, i);
        v.push(c);
    }
    v
}

/// `idx` points at the first minimum of `counts`: no count is smaller,
/// and every earlier count is strictly larger.
pub open spec fn is_first_min(counts: Seq<usize>, idx: int) -> bool {
    &&& 0 <= idx < counts.len()
    &&& forall|j: int| 0 <= j < counts.len() ==> counts[idx] <= #[trigger] counts[j]
    &&& forall|j: int| 0 <= j < idx ==> counts[idx] < #[trigger] counts[j]
}

/// Scan the counts in span order and keep the first index whose count is
/// strictly smaller than everything seen before: the earliest minimum.
pub fn first_min_index(counts: &Vec<usize>) -> (idx: usize)
    requires
        counts@.len() >= 1,
    ensures
        is_first_min(counts@, idx as int),
{
    let mut idx: usize = 0;
    let n = counts.len();
    for j in 1..n
        invariant
            n == counts@.len(),
            idx < j,
            1 <= j <= n,
            forall|k: int| 0 <= k < j as int ==> counts@[idx as int] <= #[trigger] counts@[k],
            forall|k: int| 0 <= k < idx as int ==> counts@[idx as int] < #[trigger] counts@[k],
    {
        if counts[j] < counts[idx] {
            idx = j;
        }
    }
    idx
}

/// Pick the outlier among the spans, given one match count per span: the
/// span with the earliest minimal count.
pub fn select_outlier(spans: &Vec<Icon>, counts: &Vec<usize>) -> (r: Icon)
    requires
        spans@.len() == counts@.len(),
        spans@.len() >= 1,
    ensures
        exists|idx: int| is_first_min(counts@, idx) && r == spans@[idx],
{
    let idx = first_min_index(counts);
    let r = spans[idx];
    proof {
        assert(is_first_min(counts@, idx as int) && r == spans@[idx as int]);
    }
    r
}

/// Whether an orbit member of `b` matches `a` depends only on the grids
/// and dimensions involved, not on how the buffers are stored.
proof fn lemma_orbit_hit_congruent(a1: PixelBuffer, a2: PixelBuffer, b1: PixelBuffer, b2: PixelBuffer)
    requires
        a1.grid() == a2.grid(),
        b1.grid() == b2.grid(),
        b1.width == b2.width,
        b1.height == b2.height,
    ensures
        orbit_hit(a1, b1) == orbit_hit(a2, b2),
{
    assert forall|k: int| 0 <= k < 8 implies #[trigger] orbit_grid(b1, k) == orbit_grid(b2, k) by {}
    if orbit_hit(a1, b1) {
        let k = choose|k: int| 0 <= k < 8 && matches_trunc_g(a1.grid(), #[trigger] orbit_grid(b1, k));
        assert(matches_trunc_g(a2.grid(), orbit_grid(b2, k)));
    }
    if orbit_hit(a2, b2) {
        let k = choose|k: int| 0 <= k < 8 && matches_trunc_g(a2.grid(), #[trigger] orbit_grid(b2, k));
        assert(matches_trunc_g(a1.grid(), orbit_grid(b1, k)));
    }
}

/// Match counts depend only on the silhouettes' grids and dimensions: two
/// silhouette lists that agree pointwise on those induce the same counts.
pub proof fn lemma_count_hits_congruent(s1: Seq<PixelBuffer>, s2: Seq<PixelBuffer>, i: int, j: int)
    requires
        s1.len() == s2.len(),
        0 <= i < s1.len(),
        0 <= j <= s1.len(),
        forall|k: int|
            0 <= k < s1.len() ==> (#[trigger] s1[k]).grid() == s2[k].grid() && s1[k].width
                == s2[k].width && s1[k].height == s2[k].height,
    ensures
        count_hits(s1, i, j) == count_hits(s2, i, j),
    decreases j,
{
    if j > 0 {
        lemma_count_hits_congruent(s1, s2, i, j - 1);
        lemma_orbit_hit_congruent(s1[i], s2[i], s1[j - 1], s2[j - 1]);
    }
}

/// The match-count vector is a function of the silhouette list alone: any
/// two count vectors that satisfy the per-index contract — however their
/// entries were scheduled, sequentially or in parallel — are identical.
pub proof fn lemma_match_counts_deterministic(s: Seq<PixelBuffer>, c1: Seq<usize>, c2: Seq<usize>)
    requires
        c1.len() == s.len(),
        c2.len() == s.len(),
        forall|i: int| 0 <= i < s.len() ==> (#[trigger] c1[i]) as int == count_hits(s, i, s.len() as int),
        forall|i: int| 0 <= i < s.len() ==> (#[trigger] c2[i]) as int == count_hits(s, i, s.len() as int),
    ensures
        c1 == c2,
{
    assert(c1 =~= c2);
}

/// The selected outlier is a function of the counts alone: the first
/// minimum of a count vector is unique.
pub proof fn lemma_first_min_unique(counts: Seq<usize>, i1: int, i2: int)
    requires
        is_first_min(counts, i1),
        is_first_min(counts, i2),
    ensures
        i1 == i2,
{
    if i1 < i2 {
        assert(counts[i2] < counts[i1]);
        assert(counts[i1] <= counts[i2]);
    } else if i2 < i1 {
        assert(counts[i1] < counts[i2]);
        assert(counts[i2] <= counts[i1]);
    }
}

} // verus!
