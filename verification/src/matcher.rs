//! Matcher: exact alpha-channel comparison of two silhouettes, walking
//! both pixel streams in raster order.

use vstd::prelude::*;

use crate::pixel::Pixel;
use crate::pixel::PixelBuffer;

verus! {

/// A grid's pixels in raster order: the rows concatenated.
pub open spec fn raster(g: Seq<Seq<Pixel>>) -> Seq<Pixel>
    decreases g.len(),
{
    if g.len() == 0 {
        Seq::empty()
    } else {
        raster(g.drop_last()) + g.last()
    }
}

/// Whether the two grids agree on the alpha channel wherever both raster
/// streams are defined: the comparison covers only the shorter stream's
/// length. Grids with different pixel counts are never rejected for that
/// alone; see `equal` for why this truncating behavior is kept.
pub open spec fn matches_trunc_g(ga: Seq<Seq<Pixel>>, gb: Seq<Seq<Pixel>>) -> bool {
    let fa = raster(ga);
    let fb = raster(gb);
    let n = if fa.len() <= fb.len() {
        fa.len() as int
    } else {
        fb.len() as int
    };
    forall|i: int| 0 <= i < n ==> (#[trigger] fa[i]).a == (#[trigger] fb[i]).a
}

/// Whether two silhouettes are structurally equal under the matcher.
pub open spec fn matches_trunc(a: PixelBuffer, b: PixelBuffer) -> bool {
    matches_trunc_g(a.grid(), b.grid())
}

/// The pixels of a silhouette in raster order, as one flat vector.
fn flatten(s: &PixelBuffer) -> (v: Vec<Pixel>)
    requires
        s.wf(),
    ensures
        v@ == raster(s.grid()),
{
    let mut v: Vec<Pixel> = Vec::new();
    let h = s.height;
    let w = s.width;
    for y in 0..h
        invariant
            s.wf(),
            w == s.width,
            h == s.height,
            v@ == raster(s.grid().subrange(0, y as int)),
    {
        for x in 0..w
            invariant
                s.wf(),
                w == s.width,
                h == s.height,
                y < h,
                v@ == raster(s.grid().subrange(0, y as int)) + s.grid()[y as int].subrange(
                    0,
                    x as int,
                ),
        {
            v.push(s.get(x, y));
            proof {
                assert(s.grid()[y as int].subrange(0, x as int).push(s.pix(x as int, y as int))
                    =~= s.grid()[y as int].subrange(0, x as int + 1));
                assert(v@ =~= raster(s.grid().subrange(0, y as int)) + s.grid()[
                    y as int].subrange(0, x as int + 1));
            }
        }
        proof {
            let cur = s.grid().subrange(0, y as int + 1);
            assert(cur.drop_last() =~= s.grid().subrange(0, y as int));
            assert(cur.last() =~= s.grid()[y as int].subrange(0, w as int));
            assert(raster(cur) == raster(cur.drop_last()) + cur.last());
            assert(v@ =~= raster(cur));
        }
    }
    proof {
        assert(s.grid().subrange(0, s.height as int) =~= s.grid());
    }
    v
}

/// Matcher: walk both silhouettes' pixels in raster order as parallel
/// streams and compare only the alpha channels; the silhouettes are equal
/// exactly when no pair differs.
///
/// When the silhouettes hold different pixel counts, the comparison covers
/// only the shorter stream's length and never reports the size difference
/// itself as an inequality. This truncating behavior is kept deliberately
/// for fixture compatibility; a dimension precondition would change which
/// icon scores as the outlier on real strips.
pub fn equal(a: &PixelBuffer, b: &PixelBuffer) -> (r: bool)
    requires
        a.wf(),
        b.wf(),
    ensures
        r == matches_trunc(*a, *b),
{
    let fa = flatten(a);
    let fb = flatten(b);
    let n = if fa.len() <= fb.len() {
        fa.len()
    } else {
        fb.len()
    };
    for i in 0..n
        invariant
            fa@ == raster(a.grid()),
            fb@ == raster(b.grid()),
            n <= fa@.len() && n <= fb@.len(),
            n == if fa@.len() <= fb@.len() {
                fa@.len() as int
            } else {
                fb@.len() as int
            },
            forall|j: int| 0 <= j < i as int ==> (#[trigger] fa@[j]).a == (#[trigger] fb@[j]).a,
    {
        if fa[i].a != fb[i].a {
            proof {
                assert(!matches_trunc(*a, *b));
            }
            return false;
        }
    }
    true
}

/// The matcher is reflexive: every silhouette equals itself.
pub proof fn lemma_equal_reflexive(a: PixelBuffer)
    ensures
        matches_trunc(a, a),
{
}

/// The matcher is symmetric on silhouettes of equal dimensions: comparing
/// in either order gives the same verdict.
pub proof fn lemma_equal_symmetric(a: PixelBuffer, b: PixelBuffer)
    requires
        a.width == b.width,
        a.height == b.height,
    ensures
        matches_trunc(a, b) == matches_trunc(b, a),
{
}

} // verus!
