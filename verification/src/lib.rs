//! Solver for icon-strip captchas: within a strip of icon glyphs separated
//! by solid delimiter-colored columns, it finds the one icon whose
//! silhouette has no rotated or mirrored duplicate among the others, and
//! reports that icon's column span and center coordinates.
//!
//! The solver works on a plain in-memory RGBA pixel buffer; decoding an
//! image container (from a file, a base64 string, or raw bytes) into that
//! buffer is a caller's concern.

pub mod error;
pub mod extract;
pub mod matcher;
pub mod orbit;
pub mod pixel;
pub mod segment;
pub mod select;

use vstd::prelude::*;

use crate::error::CaptchaError;
use crate::extract::extract_all;
use crate::extract::extracts_to;
use crate::extract::has_opaque;
use crate::extract::lemma_extraction_unique;
use crate::extract::span_crop;
use crate::extract::CROP_HEIGHT;
use crate::orbit::mirror;
use crate::orbit::mirror_grid;
use crate::orbit::orbit;
use crate::orbit::orbit_grid;
use crate::orbit::orbit_height;
use crate::orbit::orbit_width;
use crate::pixel::PixelBuffer;
use crate::segment::delim_count;
use crate::segment::find_spans;
use crate::segment::gap_ok;
use crate::segment::lemma_boundaries_sorted;
use crate::segment::lemma_spans_in_range;
use crate::segment::spans_spec;
use crate::segment::Icon;
use crate::select::count_hits;
use crate::select::is_first_min;
use crate::select::lemma_count_hits_congruent;
use crate::select::lemma_first_min_unique;
use crate::select::match_counts;
use crate::select::select_outlier;

pub use crate::pixel::Pixel;

verus! {

/// The image has at least one pixel, so its top row exists.
pub open spec fn well_sized(img: PixelBuffer) -> bool {
    img.width >= 1 && img.height >= 1
}

/// Segmentation succeeds and is non-degenerate: every boundary gap leaves
/// room for a span, and at least two delimiter columns were found, so the
/// strip holds at least three icon spans.
pub open spec fn segmentable(img: PixelBuffer) -> bool {
    &&& well_sized(img)
    &&& gap_ok(img)
    &&& delim_count(img) >= 2
}

/// Every span's crop region holds at least one opaque pixel, so every
/// silhouette exists.
pub open spec fn all_spans_opaque(img: PixelBuffer) -> bool {
    forall|i: int|
        0 <= i < spans_spec(img).len() ==> has_opaque(
            span_crop(img, #[trigger] spans_spec(img)[i], CROP_HEIGHT),
        )
}

/// The inputs on which solving succeeds.
pub open spec fn solvable(img: PixelBuffer) -> bool {
    segmentable(img) && all_spans_opaque(img)
}

/// The match counts that one list of silhouettes induces, one per span.
pub open spec fn counts_of(silhs: Seq<PixelBuffer>) -> Seq<usize> {
    Seq::new(silhs.len(), |i: int| count_hits(silhs, i, silhs.len() as int) as usize)
}

/// `icon` is the solver's answer for `img`, witnessed by the list
/// `silhs` of per-span silhouettes: with one match count per span, the
/// answer is the span with the earliest minimal count.
pub open spec fn witnesses_solution(img: PixelBuffer, icon: Icon, silhs: Seq<PixelBuffer>) -> bool {
    let spans = spans_spec(img);
    &&& silhs.len() == spans.len()
    &&& (forall|i: int|
        0 <= i < spans.len() ==> extracts_to(
            span_crop(img, #[trigger] spans[i], CROP_HEIGHT),
            silhs[i],
        ))
    &&& (exists|idx: int| is_first_min(counts_of(silhs), idx) && icon == spans[idx])
}

/// `icon` is the solver's answer for `img`: among the segmenter's spans,
/// with one silhouette extracted per span and one match count per span,
/// it is the span with the earliest minimal count. The witnesses are
/// unique where it matters, so this pins the answer: see
/// `lemma_solution_unique`.
pub open spec fn solution_of(img: PixelBuffer, icon: Icon) -> bool {
    exists|silhs: Seq<PixelBuffer>| #[trigger] witnesses_solution(img, icon, silhs)
}

/// The solver's answer is a function of the image alone: whatever
/// silhouette lists witness the two solutions, extraction and scoring are
/// deterministic, so the answers coincide.
pub proof fn lemma_solution_unique(img: PixelBuffer, a: Icon, b: Icon)
    requires
        solution_of(img, a),
        solution_of(img, b),
    ensures
        a == b,
{
    let spans = spans_spec(img);
    let s1 = choose|s: Seq<PixelBuffer>| #[trigger] witnesses_solution(img, a, s);
    let s2 = choose|s: Seq<PixelBuffer>| #[trigger] witnesses_solution(img, b, s);
    assert forall|k: int|
        0 <= k < spans.len() implies (#[trigger] s1[k]).grid() == s2[k].grid() && s1[k].width
        == s2[k].width && s1[k].height == s2[k].height by {
        lemma_extraction_unique(span_crop(img, spans[k], CROP_HEIGHT), s1[k], s2[k]);
    }
    let c1 = counts_of(s1);
    let c2 = counts_of(s2);
    assert forall|i: int| 0 <= i < spans.len() implies c1[i] == c2[i] by {
        lemma_count_hits_congruent(s1, s2, i, spans.len() as int);
    }
    assert(c1 =~= c2);
    let i1 = choose|idx: int| is_first_min(c1, idx) && a == spans[idx];
    let i2 = choose|idx: int| is_first_min(c2, idx) && b == spans[idx];
    assert(is_first_min(c1, i2));
    lemma_first_min_unique(c1, i1, i2);
}

/// One captcha image, held as the canonical pixel buffer.
pub struct IconCaptcha {
    pub img: PixelBuffer,
}

impl IconCaptcha {
    /// Wrap a decoded pixel buffer.
    pub fn new(img: PixelBuffer) -> (r: Self)
        ensures
            r.img == img,
    {
        IconCaptcha { img }
    }

    /// The segmenter's spans for this image, in scan order.
    pub fn get_positions(&self) -> (r: Result<Vec<Icon>, CaptchaError>)
        requires
            self.img.wf(),
            self.img.height >= 1,
        ensures
            match r {
                Ok(spans) => gap_ok(self.img) && spans@ == spans_spec(self.img),
                Err(e) => e == CaptchaError::MalformedCaptcha && !gap_ok(self.img),
            },
    {
        find_spans(&self.img)
    }

    /// One silhouette per span: each span's crop region reduced to its
    /// minimal opaque-pixel bounding box, translated to the origin.
    pub fn cropped(&self, icons_positions: &Vec<Icon>) -> (r: Result<
        Vec<PixelBuffer>,
        CaptchaError,
    >)
        requires
            self.img.wf(),
            forall|i: int|
                0 <= i < icons_positions@.len() ==> (#[trigger] icons_positions@[i]).start
                    <= icons_positions@[i].end && icons_positions@[i].end <= self.img.width,
        ensures
            match r {
                Ok(v) => {
                    &&& v@.len() == icons_positions@.len()
                    &&& forall|i: int| 0 <= i < icons_positions@.len() ==> (#[trigger] v@[i]).wf()
                    &&& forall|i: int|
                        0 <= i < icons_positions@.len() ==> extracts_to(
                            span_crop(self.img, #[trigger] icons_positions@[i], CROP_HEIGHT),
                            v@[i],
                        )
                    &&& forall|i: int|
                        0 <= i < icons_positions@.len() ==> has_opaque(
                            span_crop(self.img, #[trigger] icons_positions@[i], CROP_HEIGHT),
                        )
                },
                Err(e) => {
                    &&& e == CaptchaError::EmptySilhouette
                    &&& exists|i: int|
                        0 <= i < icons_positions@.len() && !has_opaque(
                            span_crop(self.img, #[trigger] icons_positions@[i], CROP_HEIGHT),
                        )
                },
            },
    {
        extract_all(&self.img, icons_positions, CROP_HEIGHT)
    }

    /// The horizontal mirror of each given silhouette, in order.
    pub fn reflect_image(&self, imgs: Vec<PixelBuffer>) -> (r: Vec<PixelBuffer>)
        requires
            forall|i: int| 0 <= i < imgs@.len() ==> (#[trigger] imgs@[i]).wf(),
        ensures
            r@.len() == imgs@.len(),
            forall|i: int|
                0 <= i < imgs@.len() ==> {
                    let m = #[trigger] r@[i];
                    &&& m.wf()
                    &&& m.width == imgs@[i].width
                    &&& m.height == imgs@[i].height
                    &&& m.grid() == mirror_grid(
                        imgs@[i].grid(),
                        imgs@[i].width as int,
                        imgs@[i].height as int,
                    )
                },
    {
        let mut out: Vec<PixelBuffer> = Vec::new();
        let n = imgs.len();
        for i in 0..n
            invariant
                n == imgs@.len(),
                forall|j: int| 0 <= j < imgs@.len() ==> (#[trigger] imgs@[j]).wf(),
                out@.len() == i as int,
                forall|j: int|
                    0 <= j < i as int ==> {
                        let m = #[trigger] out@[j];
                        &&& m.wf()
                        &&& m.width == imgs@[j].width
                        &&& m.height == imgs@[j].height
                        &&& m.grid() == mirror_grid(
                            imgs@[j].grid(),
                            imgs@[j].width as int,
                            imgs@[j].height as int,
                        )
                    },
        {
            let m = mirror(&imgs[i]);
            out.push(m);
        }
        out
    }

    /// The eight rotation/reflection orbit members of one silhouette, in
    /// the fixed order identity, rotate 90, rotate 180, rotate 270, then
    /// the horizontal mirror of each.
    pub fn rotate(&self, image: &PixelBuffer) -> (r: Vec<PixelBuffer>)
        requires
            image.wf(),
        ensures
            r@.len() == 8,
            forall|k: int|
                0 <= k < 8 ==> {
                    let m = #[trigger] r@[k];
                    &&& m.wf()
                    &&& m.width as int == orbit_width(*image, k)
                    &&& m.height as int == orbit_height(*image, k)
                    &&& m.grid() == orbit_grid(*image, k)
                },
    {
        orbit(image)
    }

    /// Solve the captcha: segment the strip, extract one silhouette per
    /// span, score every span by how many other spans hold a rotated or
    /// mirrored duplicate of its silhouette, and return the span with the
    /// earliest minimal score.
    ///
    /// Fails with `MalformedCaptcha` when the image is empty, a boundary
    /// gap is too narrow for a span, or fewer than two delimiter columns
    /// were found; fails with `EmptySilhouette` when a span's crop region
    /// holds no opaque pixel.
    pub fn solve(self) -> (r: Result<Icon, CaptchaError>)
        requires
            self.img.wf(),
        ensures
            r is Ok <==> solvable(self.img),
            match r {
                Ok(icon) => solution_of(self.img, icon),
                Err(e) => {
                    &&& (e == CaptchaError::MalformedCaptcha <==> !segmentable(self.img))
                    &&& (e == CaptchaError::EmptySilhouette <==> segmentable(self.img)
                        && !all_spans_opaque(self.img))
                },
            },
    {
        if self.img.width < 1 || self.img.height < 1 {
            return Err(CaptchaError::MalformedCaptcha);
        }
        let spans = match self.get_positions() {
            Ok(s) => s,
            Err(_) => {
                return Err(CaptchaError::MalformedCaptcha);
            },
        };
        proof {
            lemma_boundaries_sorted(self.img);
        }
        if spans.len() < 3 {
            return Err(CaptchaError::MalformedCaptcha);
        }
        proof {
            lemma_spans_in_range(self.img);
        }
        let silhs = match self.cropped(&spans) {
            Ok(v) => v,
            Err(_) => {
                return Err(CaptchaError::EmptySilhouette);
            },
        };
        let counts = match_counts(&silhs);
        let icon = select_outlier(&spans, &counts);
        proof {
            let spansq = spans_spec(self.img);
            assert(counts@ =~= counts_of(silhs@));
            let idx = choose|idx: int| is_first_min(counts@, idx) && icon == spans@[idx];
            assert(is_first_min(counts_of(silhs@), idx) && icon == spansq[idx]);
            assert(witnesses_solution(self.img, icon, silhs@));
        }
        Ok(icon)
    }
}

} // verus!
