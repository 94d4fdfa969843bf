//! Segmenter: scans the image's top row for delimiter-colored pixels and
//! derives one column span (with its center coordinates) per icon.

use vstd::prelude::*;

use crate::error::CaptchaError;
use crate::pixel::Pixel;
use crate::pixel::PixelBuffer;

verus! {

/// One icon's place in the strip: its 1-based ordinal among the spans in
/// scan order, its column span in the source image, and the coordinates of
/// its center.
#[derive(Clone, Copy, Debug, PartialEq, Eq, Structural)]
pub struct Icon {
    pub position: u32,
    pub start: u32,
    pub end: u32,
    pub center_x: u32,
    pub center_y: u32,
}

/// A pixel marks a delimiter column when its RGB is exactly the gray
/// `(64,64,64)` or the near-white `(240,240,240)`; alpha is ignored.
pub open spec fn is_delimiter(p: Pixel) -> bool {
    ||| (p.r == 64 && p.g == 64 && p.b == 64)
    ||| (p.r == 240 && p.g == 240 && p.b == 240)
}

/// The delimiter columns among the first `n` columns of the image's top
/// row, in ascending order.
pub open spec fn delim_cols_up_to(img: PixelBuffer, n: int) -> Seq<int>
    decreases n,
{
    if n <= 0 {
        Seq::empty()
    } else if is_delimiter(img.pix(n - 1, 0)) {
        delim_cols_up_to(img, n - 1).push(n - 1)
    } else {
        delim_cols_up_to(img, n - 1)
    }
}

/// How many delimiter columns the image has.
pub open spec fn delim_count(img: PixelBuffer) -> int {
    delim_cols_up_to(img, img.width as int).len() as int
}

/// The delimiter columns bracketed by the synthetic boundaries `0` and
/// `width`; consecutive pairs of this list delimit the spans.
pub open spec fn boundaries(img: PixelBuffer) -> Seq<int> {
    seq![0int] + delim_cols_up_to(img, img.width as int) + seq![img.width as int]
}

/// The consecutive boundary pair `(b[i], b[i+1])` leaves room for an icon
/// span: at least four columns apart, so that the span is non-empty and the
/// center arithmetic cannot underflow.
pub open spec fn gap_at(img: PixelBuffer, i: int) -> bool {
    boundaries(img)[i] + 4 <= boundaries(img)[i + 1]
}

/// Every consecutive pair of boundaries leaves room for an icon span.
pub open spec fn gap_ok(img: PixelBuffer) -> bool {
    forall|i: int| 0 <= i < boundaries(img).len() - 1 ==> #[trigger] gap_at(img, i)
}

/// The span derived from the consecutive boundary pair `(b[i], b[i+1])`:
/// the columns strictly between the two boundaries, with the center at the
/// midpoint of the interior region that excludes a further one-pixel border
/// on each side.
pub open spec fn span_at(img: PixelBuffer, i: int) -> Icon {
    let d0 = boundaries(img)[i];
    let d1 = boundaries(img)[i + 1];
    Icon {
        position: (i + 1) as u32,
        start: (d0 + 1) as u32,
        end: (d1 - 1) as u32,
        center_x: ((d1 - d0 - 4) / 2 + d0 + 1) as u32,
        center_y: (img.height as int / 2) as u32,
    }
}

/// All spans of the image, one per consecutive boundary pair.
pub open spec fn spans_spec(img: PixelBuffer) -> Seq<Icon> {
    Seq::new((boundaries(img).len() - 1) as nat, |i: int| span_at(img, i))
}

/// The delimiter-column list is ascending, lies within `[0, n)`, and holds
/// exactly the delimiter columns below `n`.
pub proof fn lemma_delim_cols(img: PixelBuffer, n: int)
    ensures
        forall|k: int|
            0 <= k < delim_cols_up_to(img, n).len() ==> 0 <= #[trigger] delim_cols_up_to(img, n)[k]
                < n,
        forall|k1: int, k2: int|
            0 <= k1 < k2 < delim_cols_up_to(img, n).len() ==> delim_cols_up_to(img, n)[k1]
                < delim_cols_up_to(img, n)[k2],
        forall|c: int|
            delim_cols_up_to(img, n).contains(c) <==> (0 <= c < n && is_delimiter(
                #[trigger] img.pix(c, 0),
            )),
    decreases n,
{
    if n <= 0 {
    } else {
        lemma_delim_cols(img, n - 1);
        let prev = delim_cols_up_to(img, n - 1);
        let cur = delim_cols_up_to(img, n);
        if is_delimiter(img.pix(n - 1, 0)) {
            assert(cur == prev.push(n - 1));
            assert forall|c: int| #[trigger]
                cur.contains(c) implies (0 <= c < n && is_delimiter(img.pix(c, 0))) by {
                let k = choose|k: int| 0 <= k < cur.len() && cur[k] == c;
                if k < prev.len() {
                    assert(prev.contains(c));
                } else {
                    assert(c == n - 1);
                }
            }
            assert forall|c: int| 0 <= c < n && is_delimiter(img.pix(c, 0)) implies cur.contains(
                c,
            ) by {
                if c < n - 1 {
                    assert(prev.contains(c));
                    let k = choose|k: int| 0 <= k < prev.len() && prev[k] == c;
                    assert(cur[k] == c);
                } else {
                    assert(cur[cur.len() - 1] == c);
                }
            }
        } else {
            assert(cur == prev);
            assert forall|c: int| #[trigger]
                cur.contains(c) implies (0 <= c < n && is_delimiter(img.pix(c, 0))) by {
                assert(prev.contains(c));
            }
            assert forall|c: int| 0 <= c < n && is_delimiter(img.pix(c, 0)) implies cur.contains(
                c,
            ) by {
                assert(c != n - 1);
                assert(prev.contains(c));
            }
        }
    }
}

/// Under `gap_ok`, boundaries grow by at least four columns per step.
pub proof fn lemma_gap_chain(img: PixelBuffer, i: int, j: int)
    requires
        gap_ok(img),
        0 <= i <= j < boundaries(img).len(),
    ensures
        boundaries(img)[i] + 4 * (j - i) <= boundaries(img)[j],
    decreases j - i,
{
    if i < j {
        lemma_gap_chain(img, i, j - 1);
        assert(gap_at(img, j - 1));
    }
}

/// Boundaries are sorted, whatever the image holds.
pub proof fn lemma_boundaries_sorted(img: PixelBuffer)
    ensures
        boundaries(img).len() == delim_count(img) + 2,
        boundaries(img)[0] == 0,
        boundaries(img)[boundaries(img).len() - 1] == img.width as int,
        forall|i: int, j: int|
            0 <= i <= j < boundaries(img).len() ==> #[trigger] boundaries(img)[i]
                <= #[trigger] boundaries(img)[j],
        forall|i: int|
            1 <= i <= delim_count(img) ==> #[trigger] boundaries(img)[i] == delim_cols_up_to(
                img,
                img.width as int,
            )[i - 1],
{
    let w = img.width as int;
    lemma_delim_cols(img, w);
    let cols = delim_cols_up_to(img, w);
    assert forall|i: int, j: int|
        0 <= i <= j < boundaries(img).len() implies #[trigger] boundaries(img)[i]
        <= #[trigger] boundaries(img)[j] by {
        let b = boundaries(img);
        if i == j {
        } else {
            if 1 <= j <= cols.len() {
                assert(b[j] == cols[j - 1]);
                assert(cols.contains(cols[j - 1]));
            }
            if 1 <= i <= cols.len() {
                assert(b[i] == cols[i - 1]);
                assert(cols.contains(cols[i - 1]));
            }
            if i == 0 {
                assert(b[0] == 0);
                if j <= cols.len() {
                    assert(0 <= b[j]);
                } else {
                    assert(b[j] == w);
                }
            } else if j == b.len() - 1 {
                assert(b[j] == w);
                if 1 <= i <= cols.len() {
                    assert(b[i] < w);
                }
            } else {
                assert(cols[i - 1] < cols[j - 1]);
            }
        }
    }
}

/// In a sorted list, every value between the first and last element falls
/// between some consecutive pair.
proof fn lemma_sorted_interval(b: Seq<int>, v: int)
    requires
        b.len() >= 2,
        forall|k1: int, k2: int| 0 <= k1 <= k2 < b.len() ==> #[trigger] b[k1] <= #[trigger] b[k2],
        b[0] <= v < b[b.len() - 1],
    ensures
        exists|i: int| 0 <= i < b.len() - 1 && #[trigger] b[i] <= v < b[i + 1],
    decreases b.len(),
{
    if b.len() == 2 {
        assert(b[0int] <= v < b[1int]);
    } else if v < b[b.len() - 2] {
        let bp = b.drop_last();
        lemma_sorted_interval(bp, v);
        let i = choose|i: int| 0 <= i < bp.len() - 1 && #[trigger] bp[i] <= v < bp[i + 1];
        assert(b[i] <= v < b[i + 1]);
    } else {
        assert(b[b.len() - 2] <= v < b[(b.len() - 2) + 1]);
    }
}

/// Whether column `x` of the image lies inside one of the segmenter's
/// spans.
pub open spec fn in_some_span(img: PixelBuffer, x: int) -> bool {
    exists|i: int|
        0 <= i < spans_spec(img).len() && (#[trigger] spans_spec(img)[i]).start as int <= x
            <= spans_spec(img)[i].end as int
}

/// The fields of one span, under `gap_ok`.
proof fn lemma_span_fields(img: PixelBuffer, i: int)
    requires
        img.wf(),
        img.height >= 1,
        gap_ok(img),
        0 <= i < spans_spec(img).len(),
    ensures
        ({
            let s = spans_spec(img)[i];
            let b = boundaries(img);
            &&& s.position as int == i + 1
            &&& s.start as int == b[i] + 1
            &&& s.end as int == b[i + 1] - 1
            &&& s.start < s.end
            &&& s.start <= s.center_x <= s.end
            &&& s.center_y as int == img.height as int / 2
        }),
{
    let w = img.width as int;
    let b = boundaries(img);
    lemma_boundaries_sorted(img);
    lemma_gap_chain(img, 0, i);
    lemma_gap_chain(img, i, i + 1);
    lemma_gap_chain(img, i + 1, b.len() - 1);
    let d0 = b[i];
    let d1 = b[i + 1];
    let g = d1 - d0;
    assert(0 <= (g - 4) / 2 <= g - 4) by (nonlinear_arith)
        requires
            g >= 4,
    ;
    assert(4 * (i + 1) <= w);
}

/// What segmentation guarantees when every boundary gap is wide enough:
/// one span per consecutive boundary pair (so `delimiter count + 1` spans),
/// each span non-empty with its center inside it, spans sorted ascending
/// and pairwise disjoint, adjacent spans separated by exactly one delimiter
/// column, and the spans covering `[0, width)` up to one-column gaps: a
/// column of `[1, width)` lies in a span exactly when it is not a
/// delimiter column, and column `0` borders the synthetic boundary.
#[verifier::rlimit(100)]
pub proof fn lemma_spans_partition(img: PixelBuffer)
    requires
        img.wf(),
        img.height >= 1,
        gap_ok(img),
    ensures
        spans_spec(img).len() == delim_count(img) + 1,
        forall|i: int|
            0 <= i < spans_spec(img).len() ==> {
                let s = #[trigger] spans_spec(img)[i];
                &&& s.position as int == i + 1
                &&& s.start as int == boundaries(img)[i] + 1
                &&& s.end as int == boundaries(img)[i + 1] - 1
                &&& s.start < s.end
                &&& s.start <= s.center_x <= s.end
                &&& s.center_y as int == img.height as int / 2
            },
        spans_spec(img)[0].start == 1,
        spans_spec(img)[spans_spec(img).len() - 1].end as int == img.width as int - 1,
        forall|i: int|
            0 <= i < spans_spec(img).len() - 1 ==> {
                let s = #[trigger] spans_spec(img)[i];
                let t = spans_spec(img)[i + 1];
                &&& t.start as int == s.end as int + 2
                &&& is_delimiter(img.pix(s.end as int + 1, 0))
            },
        forall|i: int, j: int|
            0 <= i < j < spans_spec(img).len() ==> (#[trigger] spans_spec(img)[i]).end
                < (#[trigger] spans_spec(img)[j]).start,
        forall|x: int|
            1 <= x < img.width as int && !is_delimiter(#[trigger] img.pix(x, 0)) ==> in_some_span(
                img,
                x,
            ),
        forall|x: int|
            1 <= x < img.width as int && in_some_span(img, x) ==> !is_delimiter(
                #[trigger] img.pix(x, 0),
            ),
{
    let w = img.width as int;
    let b = boundaries(img);
    let cols = delim_cols_up_to(img, w);
    let spans = spans_spec(img);
    let len = spans.len() as int;
    lemma_delim_cols(img, w);
    lemma_boundaries_sorted(img);

    assert forall|i: int| 0 <= i < len implies {
        let s = #[trigger] spans[i];
        &&& s.position as int == i + 1
        &&& s.start as int == b[i] + 1
        &&& s.end as int == b[i + 1] - 1
        &&& s.start < s.end
        &&& s.start <= s.center_x <= s.end
        &&& s.center_y as int == img.height as int / 2
    } by {
        lemma_span_fields(img, i);
    }

    assert forall|i: int, j: int| 0 <= i < j < len implies (#[trigger] spans[i]).end
        < (#[trigger] spans[j]).start by {
        lemma_span_fields(img, i);
        lemma_span_fields(img, j);
        lemma_gap_chain(img, i + 1, j);
    }

    assert forall|i: int| 0 <= i < len - 1 implies {
        let s = #[trigger] spans[i];
        let t = spans[i + 1];
        &&& t.start as int == s.end as int + 2
        &&& is_delimiter(img.pix(s.end as int + 1, 0))
    } by {
        assert(b[i + 1] == cols[i]);
        assert(cols.contains(cols[i]));
    }

    assert forall|x: int|
        1 <= x < w && !is_delimiter(#[trigger] img.pix(x, 0)) implies in_some_span(img, x) by {
        lemma_sorted_interval(b, x);
        let i = choose|i: int| 0 <= i < b.len() - 1 && #[trigger] b[i] <= x < b[i + 1];
        lemma_span_fields(img, i);
        if 1 <= i <= cols.len() {
            assert(b[i] == cols[i - 1]);
            assert(cols.contains(cols[i - 1]));
            assert(is_delimiter(img.pix(b[i], 0)));
        }
        assert(b[i] < x);
        assert((#[trigger] spans_spec(img)[i]).start as int <= x <= spans_spec(img)[i].end as int);
    }

    assert forall|x: int|
        1 <= x < w && in_some_span(img, x) implies !is_delimiter(#[trigger] img.pix(x, 0)) by {
        let i = choose|i: int|
            0 <= i < spans_spec(img).len() && (#[trigger] spans_spec(img)[i]).start as int <= x
                <= spans_spec(img)[i].end as int;
        lemma_span_fields(img, i);
        assert(b[i] < x < b[i + 1]);
        if is_delimiter(img.pix(x, 0)) {
            assert(cols.contains(x));
            let k = choose|k: int| 0 <= k < cols.len() && cols[k] == x;
            assert(b[k + 1] == x);
            if k + 1 <= i {
                lemma_gap_chain(img, k + 1, i);
            } else {
                lemma_gap_chain(img, i + 1, k + 1);
            }
        }
    }
}

/// Under `gap_ok`, every span is a valid column range of the image.
pub proof fn lemma_spans_in_range(img: PixelBuffer)
    requires
        img.wf(),
        img.height >= 1,
        gap_ok(img),
    ensures
        forall|i: int|
            0 <= i < spans_spec(img).len() ==> (#[trigger] spans_spec(img)[i]).start
                <= spans_spec(img)[i].end && spans_spec(img)[i].end <= img.width,
{
    lemma_boundaries_sorted(img);
    assert forall|i: int| 0 <= i < spans_spec(img).len() implies (#[trigger] spans_spec(
        img,
    )[i]).start <= spans_spec(img)[i].end && spans_spec(img)[i].end <= img.width by {
        lemma_span_fields(img, i);
        assert(boundaries(img)[i + 1] <= boundaries(img)[boundaries(img).len() - 1]);
    }
}

/// Segmenter: examine row `0` of the image; every column whose pixel has
/// the delimiter color splits the strip. Each pair of consecutive
/// delimiters (together with the synthetic boundaries at `0` and `width`)
/// yields one span. An image without delimiter pixels yields a single span.
///
/// Fails with `MalformedCaptcha` exactly when two consecutive boundaries
/// are closer than four columns, which would leave no room for a span and
/// would make the center arithmetic underflow.
#[verifier::rlimit(30)]
pub fn find_spans(img: &PixelBuffer) -> (r: Result<Vec<Icon>, CaptchaError>)
    requires
        img.wf(),
        img.height >= 1,
    ensures
        match r {
            Ok(spans) => gap_ok(*img) && spans@ == spans_spec(*img),
            Err(e) => e == CaptchaError::MalformedCaptcha && !gap_ok(*img),
        },
{
    let width = img.width;
    let mut delims: Vec<u32> = Vec::new();
    delims.push(0);
    for x in 0..width
        invariant
            img.wf(),
            img.height >= 1,
            width == img.width,
            delims@.map_values(|v: u32| v as int) == seq![0int] + delim_cols_up_to(
                *img,
                x as int,
            ),
    {
        let ghost pre = delims@;
        let p = img.get(x, 0);
        if (p.r == 64 && p.g == 64 && p.b == 64) || (p.r == 240 && p.g == 240 && p.b == 240) {
            delims.push(x);
            proof {
                assert(is_delimiter(img.pix(x as int, 0)));
                assert(delims@.map_values(|v: u32| v as int) =~= pre.map_values(|v: u32| v as int)
                    + seq![x as int]);
                assert(delims@.map_values(|v: u32| v as int) =~= seq![0int] + delim_cols_up_to(
                    *img,
                    x as int + 1,
                ));
            }
        } else {
            proof {
                assert(!is_delimiter(img.pix(x as int, 0)));
                assert(delim_cols_up_to(*img, x as int + 1) == delim_cols_up_to(*img, x as int));
            }
        }
    }
    delims.push(width);
    proof {
        assert(delims@.map_values(|v: u32| v as int) =~= boundaries(*img));
        lemma_boundaries_sorted(*img);
    }
    let ghost b = boundaries(*img);

    let n = delims.len();
    let mut spans: Vec<Icon> = Vec::new();
    for i in 0..n - 1
        invariant
            img.wf(),
            n == delims@.len(),
            n >= 2,
            delims@.map_values(|v: u32| v as int) == b,
            b == boundaries(*img),
            b[0] == 0,
            b[b.len() - 1] == img.width as int,
            forall|k1: int, k2: int|
                0 <= k1 <= k2 < b.len() ==> #[trigger] b[k1] <= #[trigger] b[k2],
            forall|k: int| 0 <= k < i ==> #[trigger] gap_at(*img, k),
            spans@ == spans_spec(*img).subrange(0, i as int),
    {
        let d0 = delims[i];
        let d1 = delims[i + 1];
        proof {
            assert(d0 as int == b[i as int]);
            assert(d1 as int == b[i as int + 1]);
        }
        if d1 - d0 < 4 {
            proof {
                assert(!gap_at(*img, i as int));
            }
            return Err(CaptchaError::MalformedCaptcha);
        }
        proof {
            assert(gap_at(*img, i as int));
        }
        let g = d1 - d0;
        proof {
            assert((g - 4) / 2 <= g - 4) by (nonlinear_arith)
                requires
                    g >= 4,
            ;
        }
        let center = (g - 4) / 2 + d0 + 1;
        let icon = Icon {
            position: (i + 1) as u32,
            start: d0 + 1,
            end: d1 - 1,
            center_x: center,
            center_y: img.height / 2,
        };
        proof {
            assert(icon == span_at(*img, i as int));
            assert(spans@.push(icon) =~= spans_spec(*img).subrange(0, i as int + 1));
        }
        spans.push(icon);
    }
    proof {
        assert(spans@ =~= spans_spec(*img));
    }
    Ok(spans)
}

} // verus!
