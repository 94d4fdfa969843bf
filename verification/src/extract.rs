//! SilhouetteExtractor: crops a span to the fixed-height icon region and
//! reduces it to its minimal opaque-pixel bounding box, translated to the
//! origin.

use vstd::prelude::*;

use crate::error::CaptchaError;
use crate::pixel::transparent;
use crate::pixel::Pixel;
use crate::pixel::PixelBuffer;
use crate::segment::Icon;

verus! {

/// The fixed row height of the icon artwork in the strip: only the topmost
/// `CROP_HEIGHT` rows of a span are examined for the silhouette. A
/// configuration value of the captcha image format, not a property of the
/// algorithm; `extract` takes it as a parameter.
pub const CROP_HEIGHT: u32 = 50;

/// A rectangular grid of the given dimensions.
pub open spec fn grid_wf(g: Seq<Seq<Pixel>>, w: int, h: int) -> bool {
    &&& g.len() == h
    &&& forall|y: int| 0 <= y < h ==> (#[trigger] g[y]).len() == w
}

/// The `w`-column-wide, `h`-row-high rectangle of `g` that starts at
/// column `x0` of row `0`.
pub open spec fn crop_grid(g: Seq<Seq<Pixel>>, x0: int, w: int, h: int) -> Seq<Seq<Pixel>> {
    Seq::new(h as nat, |y: int| g[y].subrange(x0, x0 + w))
}

/// Whether the pixel at `(x, y)` of `g` has non-zero alpha.
pub open spec fn opaque_at(g: Seq<Seq<Pixel>>, x: int, y: int) -> bool {
    g[y][x].a != 0
}

/// Whether any pixel of `g` has non-zero alpha.
pub open spec fn has_opaque(g: Seq<Seq<Pixel>>) -> bool {
    exists|x: int, y: int|
        0 <= y < g.len() && 0 <= x < g[y].len() && #[trigger] opaque_at(g, x, y)
}

/// The `w` by `h` box of `g` with top-left corner `(dx, dy)`, translated
/// to the origin, keeping opaque pixels and defaulting all others to fully
/// transparent.
pub open spec fn masked_box(g: Seq<Seq<Pixel>>, dx: int, dy: int, w: int, h: int) -> Seq<
    Seq<Pixel>,
> {
    Seq::new(
        h as nat,
        |y: int|
            Seq::new(
                w as nat,
                |x: int|
                    if opaque_at(g, dx + x, dy + y) {
                        g[dy + y][dx + x]
                    } else {
                        transparent()
                    },
            ),
    )
}

/// `out` is the silhouette of `g` for the bounding box with top-left
/// corner `(dx, dy)`: the box lies within `g`, contains every opaque pixel
/// of `g`, touches an opaque pixel with each of its four edges (so it is
/// minimal), and `out` is that box translated to the origin with
/// non-opaque pixels defaulted to fully transparent.
pub open spec fn extracts_at(g: Seq<Seq<Pixel>>, dx: int, dy: int, out: PixelBuffer) -> bool {
    let w = out.width as int;
    let h = out.height as int;
    &&& out.wf()
    &&& 1 <= w
    &&& 1 <= h
    &&& 0 <= dx
    &&& 0 <= dy
    &&& dy + h <= g.len()
    &&& forall|y: int| dy <= y < dy + h ==> dx + w <= (#[trigger] g[y]).len()
    &&& forall|x: int, y: int|
        0 <= y < g.len() && 0 <= x < g[y].len() && #[trigger] opaque_at(g, x, y) ==> dx <= x < dx
            + w && dy <= y < dy + h
    &&& exists|y: int| dy <= y < dy + h && #[trigger] opaque_at(g, dx, y)
    &&& exists|y: int| dy <= y < dy + h && #[trigger] opaque_at(g, dx + w - 1, y)
    &&& exists|x: int| dx <= x < dx + w && #[trigger] opaque_at(g, x, dy)
    &&& exists|x: int| dx <= x < dx + w && #[trigger] opaque_at(g, x, dy + h - 1)
    &&& out.grid() == masked_box(g, dx, dy, w, h)
}

/// `out` is the silhouette of `g`: the minimal bounding box of `g`'s
/// opaque pixels, translated to the origin.
pub open spec fn extracts_to(g: Seq<Seq<Pixel>>, out: PixelBuffer) -> bool {
    exists|dx: int, dy: int| #[trigger] extracts_at(g, dx, dy, out)
}

/// The crop region of one span: the columns `[start, end)` by the topmost
/// `crop_height` rows, clipped to the image height.
pub open spec fn span_crop(img: PixelBuffer, s: Icon, crop_height: u32) -> Seq<Seq<Pixel>> {
    let ch = if crop_height as int <= img.height as int {
        crop_height as int
    } else {
        img.height as int
    };
    crop_grid(img.grid(), s.start as int, s.end as int - s.start as int, ch)
}

/// A grid has at most one silhouette: the minimal bounding box of its
/// opaque pixels is unique, and so is the translated, masked copy.
pub proof fn lemma_extraction_unique(g: Seq<Seq<Pixel>>, a: PixelBuffer, b: PixelBuffer)
    requires
        extracts_to(g, a),
        extracts_to(g, b),
    ensures
        a.width == b.width,
        a.height == b.height,
        a.grid() == b.grid(),
{
    let (dxa, dya): (int, int) = choose|dx: int, dy: int| #[trigger] extracts_at(g, dx, dy, a);
    let (dxb, dyb): (int, int) = choose|dx: int, dy: int| #[trigger] extracts_at(g, dx, dy, b);
    let wa = a.width as int;
    let ha = a.height as int;
    let wb = b.width as int;
    let hb = b.height as int;

    let yl = choose|y: int| dyb <= y < dyb + hb && #[trigger] opaque_at(g, dxb, y);
    assert(dxa <= dxb);
    let yl2 = choose|y: int| dya <= y < dya + ha && #[trigger] opaque_at(g, dxa, y);
    assert(dxb <= dxa);
    let yr = choose|y: int| dyb <= y < dyb + hb && #[trigger] opaque_at(g, dxb + wb - 1, y);
    assert(dxb + wb - 1 <= dxa + wa - 1);
    let yr2 = choose|y: int| dya <= y < dya + ha && #[trigger] opaque_at(g, dxa + wa - 1, y);
    assert(dxa + wa - 1 <= dxb + wb - 1);
    let xt = choose|x: int| dxb <= x < dxb + wb && #[trigger] opaque_at(g, x, dyb);
    assert(dya <= dyb);
    let xt2 = choose|x: int| dxa <= x < dxa + wa && #[trigger] opaque_at(g, x, dya);
    assert(dyb <= dya);
    let xb = choose|x: int| dxb <= x < dxb + wb && #[trigger] opaque_at(g, x, dyb + hb - 1);
    assert(dyb + hb - 1 <= dya + ha - 1);
    let xb2 = choose|x: int| dxa <= x < dxa + wa && #[trigger] opaque_at(g, x, dya + ha - 1);
    assert(dya + ha - 1 <= dyb + hb - 1);

    assert(dxa == dxb && dya == dyb && wa == wb && ha == hb);
    assert(a.grid() == masked_box(g, dxa, dya, wa, ha));
    assert(b.grid() == masked_box(g, dxa, dya, wa, ha));
}

/// In a silhouette, a pixel is either opaque or exactly the fully
/// transparent pixel.
proof fn lemma_masked_box_self(g: Seq<Seq<Pixel>>, dx: int, dy: int, s: PixelBuffer)
    requires
        extracts_at(g, dx, dy, s),
    ensures
        s.grid() == masked_box(s.grid(), 0, 0, s.width as int, s.height as int),
{
    let w = s.width as int;
    let h = s.height as int;
    let g1 = s.grid();
    let own = masked_box(g1, 0, 0, w, h);
    assert forall|y: int| 0 <= y < h implies #[trigger] own[y] =~= g1[y] by {
        assert forall|x: int| 0 <= x < w implies #[trigger] own[y][x] == g1[y][x] by {
            assert(s.pix(x, y) == masked_box(g, dx, dy, w, h)[y][x]);
            if !opaque_at(g1, x, y) {
                assert(s.pix(x, y) == transparent());
            }
        }
    }
    assert(g1 =~= own);
}

/// A silhouette is its own silhouette: its bounding box is its full
/// extent, and masking changes none of its pixels.
proof fn lemma_silhouette_self(g: Seq<Seq<Pixel>>, dx: int, dy: int, s: PixelBuffer)
    requires
        extracts_at(g, dx, dy, s),
    ensures
        extracts_at(s.grid(), 0, 0, s),
{
    let w = s.width as int;
    let h = s.height as int;
    let g1 = s.grid();
    lemma_masked_box_self(g, dx, dy, s);
    let yl = choose|y: int| dy <= y < dy + h && #[trigger] opaque_at(g, dx, y);
    assert(s.pix(0, yl - dy) == g[yl][dx]);
    assert(opaque_at(g1, 0, yl - dy));
    let yr = choose|y: int| dy <= y < dy + h && #[trigger] opaque_at(g, dx + w - 1, y);
    assert(s.pix(w - 1, yr - dy) == g[yr][dx + w - 1]);
    assert(opaque_at(g1, w - 1, yr - dy));
    let xt = choose|x: int| dx <= x < dx + w && #[trigger] opaque_at(g, x, dy);
    assert(s.pix(xt - dx, 0) == g[dy][xt]);
    assert(opaque_at(g1, xt - dx, 0));
    let xb = choose|x: int| dx <= x < dx + w && #[trigger] opaque_at(g, x, dy + h - 1);
    assert(s.pix(xb - dx, h - 1) == g[dy + h - 1][xb]);
    assert(opaque_at(g1, xb - dx, h - 1));
    assert(forall|y: int| 0 <= y < h ==> (#[trigger] g1[y]).len() == w);
}

/// Extraction is idempotent: a silhouette's own bounding box is its full
/// extent, so extracting again from a silhouette reproduces it exactly.
pub proof fn lemma_extract_idempotent(g: Seq<Seq<Pixel>>, s1: PixelBuffer, s2: PixelBuffer)
    requires
        extracts_to(g, s1),
        extracts_to(s1.grid(), s2),
    ensures
        s2.width == s1.width,
        s2.height == s1.height,
        s2.grid() == s1.grid(),
{
    let (dx, dy): (int, int) = choose|dx0: int, dy0: int| #[trigger] extracts_at(g, dx0, dy0, s1);
    lemma_silhouette_self(g, dx, dy, s1);
    assert(extracts_to(s1.grid(), s1));
    lemma_extraction_unique(s1.grid(), s1, s2);
}

/// Extract the silhouette of the crop region `[start, end) x [0,
/// crop_height)` of the image (clipped to the image height): scan the
/// region for pixels with non-zero alpha, take their minimal bounding box,
/// and copy it to a fresh buffer translated to the origin, leaving
/// non-opaque pixels fully transparent.
///
/// Fails with `EmptySilhouette` exactly when the region holds no opaque
/// pixel; the bounding-box arithmetic is reached only when one exists, so
/// it cannot underflow.
#[verifier::rlimit(60)]
pub fn extract(img: &PixelBuffer, start: u32, end: u32, crop_height: u32) -> (r: Result<
    PixelBuffer,
    CaptchaError,
>)
    requires
        img.wf(),
        start <= end,
        end <= img.width,
    ensures
        ({
            let cg = crop_grid(
                img.grid(),
                start as int,
                end as int - start as int,
                if crop_height as int <= img.height as int {
                    crop_height as int
                } else {
                    img.height as int
                },
            );
            match r {
                Ok(s) => s.wf() && extracts_to(cg, s) && has_opaque(cg),
                Err(e) => e == CaptchaError::EmptySilhouette && !has_opaque(cg),
            }
        }),
{
    let cw = end - start;
    let ch = if crop_height < img.height {
        crop_height
    } else {
        img.height
    };
    let ghost cg = crop_grid(img.grid(), start as int, cw as int, ch as int);
    proof {
        assert(grid_wf(cg, cw as int, ch as int)) by {
            assert forall|y: int| 0 <= y < ch as int implies (#[trigger] cg[y]).len()
                == cw as int by {
                assert(img.grid()[y].len() == img.width as int);
            }
        }
    }

    let mut found = false;
    let mut min_x: u32 = 0;
    let mut min_y: u32 = 0;
    let mut max_x: u32 = 0;
    let mut max_y: u32 = 0;

    for y in 0..ch
        invariant
            img.wf(),
            cw == end - start,
            start <= end <= img.width,
            ch <= img.height,
            cg == crop_grid(img.grid(), start as int, cw as int, ch as int),
            grid_wf(cg, cw as int, ch as int),
            !found ==> forall|xx: int, yy: int|
                0 <= xx < cw as int && 0 <= yy < y as int ==> !(#[trigger] opaque_at(cg, xx, yy)),
            found ==> min_x <= max_x < cw && min_y <= max_y && (max_y as int) < y as int,
            found ==> forall|xx: int, yy: int|
                0 <= xx < cw as int && 0 <= yy < y as int && #[trigger] opaque_at(cg, xx, yy)
                    ==> min_x as int <= xx <= max_x as int && min_y as int <= yy <= max_y as int,
            found ==> exists|yy: int|
                0 <= yy < y as int && #[trigger] opaque_at(cg, min_x as int, yy),
            found ==> exists|yy: int|
                0 <= yy < y as int && #[trigger] opaque_at(cg, max_x as int, yy),
            found ==> exists|xx: int|
                0 <= xx < cw as int && #[trigger] opaque_at(cg, xx, min_y as int),
            found ==> exists|xx: int|
                0 <= xx < cw as int && #[trigger] opaque_at(cg, xx, max_y as int),
    {
        for x in 0..cw
            invariant
                img.wf(),
                cw == end - start,
                start <= end <= img.width,
                ch <= img.height,
                y < ch,
                cg == crop_grid(img.grid(), start as int, cw as int, ch as int),
                grid_wf(cg, cw as int, ch as int),
                !found ==> forall|xx: int, yy: int|
                    0 <= xx < cw as int && 0 <= yy < y as int ==> !(#[trigger] opaque_at(
                        cg,
                        xx,
                        yy,
                    )),
                !found ==> forall|xx: int|
                    0 <= xx < x as int ==> !(#[trigger] opaque_at(cg, xx, y as int)),
                found ==> min_x <= max_x < cw && min_y <= max_y && max_y <= y,
                found && max_y == y ==> x > 0,
                found ==> forall|xx: int, yy: int|
                    (0 <= xx < cw as int && 0 <= yy < y as int && #[trigger] opaque_at(
                        cg,
                        xx,
                        yy,
                    )) ==> min_x as int <= xx <= max_x as int && min_y as int <= yy
                        <= max_y as int,
                found ==> forall|xx: int|
                    0 <= xx < x as int && #[trigger] opaque_at(cg, xx, y as int) ==> min_x as int
                        <= xx <= max_x as int && min_y as int <= y as int <= max_y as int,
                found ==> exists|yy: int|
                    0 <= yy <= y as int && #[trigger] opaque_at(cg, min_x as int, yy),
                found ==> exists|yy: int|
                    0 <= yy <= y as int && #[trigger] opaque_at(cg, max_x as int, yy),
                found ==> exists|xx: int|
                    0 <= xx < cw as int && #[trigger] opaque_at(cg, xx, min_y as int),
                found ==> exists|xx: int|
                    0 <= xx < cw as int && #[trigger] opaque_at(cg, xx, max_y as int),
        {
            let p = img.get(start + x, y);
            proof {
                assert(cg[y as int][x as int] == img.pix(start as int + x as int, y as int));
            }
            if p.a != 0 {
                proof {
                    assert(opaque_at(cg, x as int, y as int));
                }
                if !found {
                    found = true;
                    min_x = x;
                    max_x = x;
                    min_y = y;
                    max_y = y;
                } else {
                    if x < min_x {
                        min_x = x;
                    }
                    if x > max_x {
                        max_x = x;
                    }
                    if y < min_y {
                        min_y = y;
                    }
                    if y > max_y {
                        max_y = y;
                    }
                }
            }
        }
    }

    if !found {
        proof {
            assert(!has_opaque(cg));
        }
        return Err(CaptchaError::EmptySilhouette);
    }

    let w = max_x - min_x + 1;
    let h = max_y - min_y + 1;
    let ghost mb = masked_box(cg, min_x as int, min_y as int, w as int, h as int);
    let mut out_rows: Vec<Vec<Pixel>> = Vec::new();
    for y in 0..h
        invariant
            img.wf(),
            cw == end - start,
            start <= end <= img.width,
            ch <= img.height,
            cg == crop_grid(img.grid(), start as int, cw as int, ch as int),
            grid_wf(cg, cw as int, ch as int),
            min_x <= max_x < cw,
            min_y <= max_y < ch,
            w == max_x - min_x + 1,
            h == max_y - min_y + 1,
            mb == masked_box(cg, min_x as int, min_y as int, w as int, h as int),
            out_rows@.len() == y as int,
            forall|yy: int| 0 <= yy < y as int ==> (#[trigger] out_rows@[yy])@ == mb[yy],
    {
        let mut row: Vec<Pixel> = Vec::new();
        for x in 0..w
            invariant
                img.wf(),
                cw == end - start,
                start <= end <= img.width,
                ch <= img.height,
                y < h,
                cg == crop_grid(img.grid(), start as int, cw as int, ch as int),
                grid_wf(cg, cw as int, ch as int),
                min_x <= max_x < cw,
                min_y <= max_y < ch,
                w == max_x - min_x + 1,
                h == max_y - min_y + 1,
                mb == masked_box(cg, min_x as int, min_y as int, w as int, h as int),
                row@.len() == x as int,
                forall|xx: int| 0 <= xx < x as int ==> #[trigger] row@[xx] == mb[y as int][xx],
        {
            let p = img.get(start + min_x + x, min_y + y);
            proof {
                assert(cg[min_y as int + y as int][min_x as int + x as int] == img.pix(
                    start as int + min_x as int + x as int,
                    min_y as int + y as int,
                ));
            }
            let cell = if p.a != 0 {
                p
            } else {
                Pixel { r: 0, g: 0, b: 0, a: 0 }
            };
            row.push(cell);
            proof {
                assert(row@[x as int] == mb[y as int][x as int]);
            }
        }
        proof {
            assert(row@ =~= mb[y as int]);
        }
        out_rows.push(row);
    }
    let out = PixelBuffer { width: w, height: h, rows: out_rows };
    proof {
        assert forall|yy: int| 0 <= yy < h as int implies #[trigger] out.grid()[yy] == mb[yy] by {
            assert(out.grid()[yy] == out_rows@[yy]@);
        }
        assert(out.grid() =~= mb);
        assert(out.wf());
        assert(extracts_at(cg, min_x as int, min_y as int, out)) by {
            let dx = min_x as int;
            let dy = min_y as int;
            let yy1 = choose|yy: int| 0 <= yy < ch as int && #[trigger] opaque_at(cg, dx, yy);
            assert(dy <= yy1 < dy + h as int && opaque_at(cg, dx, yy1));
            let yy2 = choose|yy: int|
                0 <= yy < ch as int && #[trigger] opaque_at(cg, max_x as int, yy);
            assert(dy <= yy2 < dy + h as int && opaque_at(cg, dx + w as int - 1, yy2));
            let xx1 = choose|xx: int| 0 <= xx < cw as int && #[trigger] opaque_at(cg, xx, dy);
            assert(dx <= xx1 < dx + w as int && opaque_at(cg, xx1, dy));
            let xx2 = choose|xx: int|
                0 <= xx < cw as int && #[trigger] opaque_at(cg, xx, max_y as int);
            assert(dx <= xx2 < dx + w as int && opaque_at(cg, xx2, dy + h as int - 1));
        }
        assert(has_opaque(cg));
    }
    Ok(out)
}

/// Extract one silhouette per span. Fails with `EmptySilhouette` exactly
/// when at least one span's crop region holds no opaque pixel.
pub fn extract_all(img: &PixelBuffer, spans: &Vec<Icon>, crop_height: u32) -> (r: Result<
    Vec<PixelBuffer>,
    CaptchaError,
>)
    requires
        img.wf(),
        forall|i: int|
            0 <= i < spans@.len() ==> (#[trigger] spans@[i]).start <= spans@[i].end && spans@[i].end
                <= img.width,
    ensures
        match r {
            Ok(v) => {
                &&& v@.len() == spans@.len()
                &&& forall|i: int| 0 <= i < spans@.len() ==> (#[trigger] v@[i]).wf()
                &&& forall|i: int|
                    0 <= i < spans@.len() ==> extracts_to(
                        span_crop(*img, #[trigger] spans@[i], crop_height),
                        v@[i],
                    )
                &&& forall|i: int|
                    0 <= i < spans@.len() ==> has_opaque(
                        span_crop(*img, #[trigger] spans@[i], crop_height),
                    )
            },
            Err(e) => {
                &&& e == CaptchaError::EmptySilhouette
                &&& exists|i: int|
                    0 <= i < spans@.len() && !has_opaque(
                        span_crop(*img, #[trigger] spans@[i], crop_height),
                    )
            },
        },
{
    let mut out: Vec<PixelBuffer> = Vec::new();
    let n = spans.len();
    for i in 0..n
        invariant
            img.wf(),
            n == spans@.len(),
            forall|j: int|
                0 <= j < spans@.len() ==> (#[trigger] spans@[j]).start <= spans@[j].end
                    && spans@[j].end <= img.width,
            out@.len() == i as int,
            forall|j: int| 0 <= j < i as int ==> (#[trigger] out@[j]).wf(),
            forall|j: int|
                0 <= j < i as int ==> extracts_to(
                    span_crop(*img, #[trigger] spans@[j], crop_height),
                    out@[j],
                ),
            forall|j: int|
                0 <= j < i as int ==> has_opaque(
                    span_crop(*img, #[trigger] spans@[j], crop_height),
                ),
    {
        let s = &spans[i];
        match extract(img, s.start, s.end, crop_height) {
            Ok(sil) => {
                out.push(sil);
            },
            Err(_) => {
                proof {
                    assert(!has_opaque(span_crop(*img, spans@[i as int], crop_height)));
                }
                return Err(CaptchaError::EmptySilhouette);
            },
        }
    }
    Ok(out)
}

} // verus!
