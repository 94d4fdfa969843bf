//! OrbitGenerator: the eight rotation/reflection variants of a silhouette
//! (the dihedral group of order eight), in the fixed order identity,
//! rotate 90, rotate 180, rotate 270, then the horizontal mirror of each.

use vstd::prelude::*;

use crate::pixel::Pixel;
use crate::pixel::PixelBuffer;

verus! {

/// The horizontal mirror of a `w` by `h` grid: the pixel at `(x, y)` moves
/// to `(w - 1 - x, y)`.
pub open spec fn mirror_grid(g: Seq<Seq<Pixel>>, w: int, h: int) -> Seq<Seq<Pixel>> {
    Seq::new(h as nat, |y: int| Seq::new(w as nat, |x: int| g[y][w - 1 - x]))
}

/// A `w` by `h` grid rotated a quarter turn clockwise: the result is `h`
/// wide and `w` high, and its pixel at `(x, y)` is the source pixel at
/// `(y, h - 1 - x)`.
pub open spec fn rot90_grid(g: Seq<Seq<Pixel>>, w: int, h: int) -> Seq<Seq<Pixel>> {
    Seq::new(w as nat, |y: int| Seq::new(h as nat, |x: int| g[h - 1 - x][y]))
}

/// A `w` by `h` grid rotated a half turn: the pixel at `(x, y)` is the
/// source pixel at `(w - 1 - x, h - 1 - y)`.
pub open spec fn rot180_grid(g: Seq<Seq<Pixel>>, w: int, h: int) -> Seq<Seq<Pixel>> {
    Seq::new(h as nat, |y: int| Seq::new(w as nat, |x: int| g[h - 1 - y][w - 1 - x]))
}

/// A `w` by `h` grid rotated a quarter turn counterclockwise: the result
/// is `h` wide and `w` high, and its pixel at `(x, y)` is the source pixel
/// at `(w - 1 - y, x)`.
pub open spec fn rot270_grid(g: Seq<Seq<Pixel>>, w: int, h: int) -> Seq<Seq<Pixel>> {
    Seq::new(w as nat, |y: int| Seq::new(h as nat, |x: int| g[x][w - 1 - y]))
}

/// Mirror a silhouette horizontally.
pub fn mirror(s: &PixelBuffer) -> (r: PixelBuffer)
    requires
        s.wf(),
    ensures
        r.wf(),
        r.width == s.width,
        r.height == s.height,
        r.grid() == mirror_grid(s.grid(), s.width as int, s.height as int),
{
    let w = s.width;
    let h = s.height;
    let ghost mg = mirror_grid(s.grid(), w as int, h as int);
    let mut rows: Vec<Vec<Pixel>> = Vec::new();
    for y in 0..h
        invariant
            s.wf(),
            w == s.width,
            h == s.height,
            mg == mirror_grid(s.grid(), w as int, h as int),
            rows@.len() == y as int,
            forall|yy: int| 0 <= yy < y as int ==> (#[trigger] rows@[yy])@ == mg[yy],
    {
        let mut row: Vec<Pixel> = Vec::new();
        for x in 0..w
            invariant
                s.wf(),
                w == s.width,
                h == s.height,
                y < h,
                mg == mirror_grid(s.grid(), w as int, h as int),
                row@.len() == x as int,
                forall|xx: int| 0 <= xx < x as int ==> #[trigger] row@[xx] == mg[y as int][xx],
        {
            row.push(s.get(w - 1 - x, y));
        }
        proof {
            assert(row@ =~= mg[y as int]);
        }
        rows.push(row);
    }
    let r = PixelBuffer { width: w, height: h, rows };
    proof {
        assert forall|yy: int| 0 <= yy < h as int implies #[trigger] r.grid()[yy] == mg[yy] by {
            assert(r.grid()[yy] == r.rows@[yy]@);
        }
        assert(r.grid() =~= mg);
    }
    r
}

/// Rotate a silhouette a quarter turn clockwise; width and height swap.
pub fn rotate90(s: &PixelBuffer) -> (r: PixelBuffer)
    requires
        s.wf(),
    ensures
        r.wf(),
        r.width == s.height,
        r.height == s.width,
        r.grid() == rot90_grid(s.grid(), s.width as int, s.height as int),
{
    let w = s.width;
    let h = s.height;
    let ghost rg = rot90_grid(s.grid(), w as int, h as int);
    let mut rows: Vec<Vec<Pixel>> = Vec::new();
    for y in 0..w
        invariant
            s.wf(),
            w == s.width,
            h == s.height,
            rg == rot90_grid(s.grid(), w as int, h as int),
            rows@.len() == y as int,
            forall|yy: int| 0 <= yy < y as int ==> (#[trigger] rows@[yy])@ == rg[yy],
    {
        let mut row: Vec<Pixel> = Vec::new();
        for x in 0..h
            invariant
                s.wf(),
                w == s.width,
                h == s.height,
                y < w,
                rg == rot90_grid(s.grid(), w as int, h as int),
                row@.len() == x as int,
                forall|xx: int| 0 <= xx < x as int ==> #[trigger] row@[xx] == rg[y as int][xx],
        {
            row.push(s.get(y, h - 1 - x));
        }
        proof {
            assert(row@ =~= rg[y as int]);
        }
        rows.push(row);
    }
    let r = PixelBuffer { width: h, height: w, rows };
    proof {
        assert forall|yy: int| 0 <= yy < w as int implies #[trigger] r.grid()[yy] == rg[yy] by {
            assert(r.grid()[yy] == r.rows@[yy]@);
        }
        assert(r.grid() =~= rg);
    }
    r
}

/// Rotate a silhouette a half turn; width and height stay.
pub fn rotate180(s: &PixelBuffer) -> (r: PixelBuffer)
    requires
        s.wf(),
    ensures
        r.wf(),
        r.width == s.width,
        r.height == s.height,
        r.grid() == rot180_grid(s.grid(), s.width as int, s.height as int),
{
    let w = s.width;
    let h = s.height;
    let ghost rg = rot180_grid(s.grid(), w as int, h as int);
    let mut rows: Vec<Vec<Pixel>> = Vec::new();
    for y in 0..h
        invariant
            s.wf(),
            w == s.width,
            h == s.height,
            rg == rot180_grid(s.grid(), w as int, h as int),
            rows@.len() == y as int,
            forall|yy: int| 0 <= yy < y as int ==> (#[trigger] rows@[yy])@ == rg[yy],
    {
        let mut row: Vec<Pixel> = Vec::new();
        for x in 0..w
            invariant
                s.wf(),
                w == s.width,
                h == s.height,
                y < h,
                rg == rot180_grid(s.grid(), w as int, h as int),
                row@.len() == x as int,
                forall|xx: int| 0 <= xx < x as int ==> #[trigger] row@[xx] == rg[y as int][xx],
        {
            row.push(s.get(w - 1 - x, h - 1 - y));
        }
        proof {
            assert(row@ =~= rg[y as int]);
        }
        rows.push(row);
    }
    let r = PixelBuffer { width: w, height: h, rows };
    proof {
        assert forall|yy: int| 0 <= yy < h as int implies #[trigger] r.grid()[yy] == rg[yy] by {
            assert(r.grid()[yy] == r.rows@[yy]@);
        }
        assert(r.grid() =~= rg);
    }
    r
}

/// Rotate a silhouette a quarter turn counterclockwise; width and height
/// swap.
pub fn rotate270(s: &PixelBuffer) -> (r: PixelBuffer)
    requires
        s.wf(),
    ensures
        r.wf(),
        r.width == s.height,
        r.height == s.width,
        r.grid() == rot270_grid(s.grid(), s.width as int, s.height as int),
{
    let w = s.width;
    let h = s.height;
    let ghost rg = rot270_grid(s.grid(), w as int, h as int);
    let mut rows: Vec<Vec<Pixel>> = Vec::new();
    for y in 0..w
        invariant
            s.wf(),
            w == s.width,
            h == s.height,
            rg == rot270_grid(s.grid(), w as int, h as int),
            rows@.len() == y as int,
            forall|yy: int| 0 <= yy < y as int ==> (#[trigger] rows@[yy])@ == rg[yy],
    {
        let mut row: Vec<Pixel> = Vec::new();
        for x in 0..h
            invariant
                s.wf(),
                w == s.width,
                h == s.height,
                y < w,
                rg == rot270_grid(s.grid(), w as int, h as int),
                row@.len() == x as int,
                forall|xx: int| 0 <= xx < x as int ==> #[trigger] row@[xx] == rg[y as int][xx],
        {
            row.push(s.get(w - 1 - y, x));
        }
        proof {
            assert(row@ =~= rg[y as int]);
        }
        rows.push(row);
    }
    let r = PixelBuffer { width: h, height: w, rows };
    proof {
        assert forall|yy: int| 0 <= yy < w as int implies #[trigger] r.grid()[yy] == rg[yy] by {
            assert(r.grid()[yy] == r.rows@[yy]@);
        }
        assert(r.grid() =~= rg);
    }
    r
}

/// An exact copy of a silhouette (the identity member of the orbit).
pub fn duplicate(s: &PixelBuffer) -> (r: PixelBuffer)
    requires
        s.wf(),
    ensures
        r.wf(),
        r.width == s.width,
        r.height == s.height,
        r.grid() == s.grid(),
{
    let w = s.width;
    let h = s.height;
    let mut rows: Vec<Vec<Pixel>> = Vec::new();
    for y in 0..h
        invariant
            s.wf(),
            w == s.width,
            h == s.height,
            rows@.len() == y as int,
            forall|yy: int| 0 <= yy < y as int ==> (#[trigger] rows@[yy])@ == s.grid()[yy],
    {
        let mut row: Vec<Pixel> = Vec::new();
        for x in 0..w
            invariant
                s.wf(),
                w == s.width,
                h == s.height,
                y < h,
                row@.len() == x as int,
                forall|xx: int| 0 <= xx < x as int ==> #[trigger] row@[xx] == s.grid()[y as int][xx],
        {
            row.push(s.get(x, y));
        }
        proof {
            assert(row@ =~= s.grid()[y as int]);
        }
        rows.push(row);
    }
    let r = PixelBuffer { width: w, height: h, rows };
    proof {
        assert forall|yy: int| 0 <= yy < h as int implies #[trigger] r.grid()[yy] == s.grid()[yy] by {
            assert(r.grid()[yy] == r.rows@[yy]@);
        }
        assert(r.grid() =~= s.grid());
    }
    r
}

/// The width of the `k`-th orbit member: quarter-turn rotations swap the
/// dimensions, mirroring keeps them.
pub open spec fn orbit_width(s: PixelBuffer, k: int) -> int {
    if k == 0 || k == 2 || k == 4 || k == 6 {
        s.width as int
    } else {
        s.height as int
    }
}

/// The height of the `k`-th orbit member.
pub open spec fn orbit_height(s: PixelBuffer, k: int) -> int {
    if k == 0 || k == 2 || k == 4 || k == 6 {
        s.height as int
    } else {
        s.width as int
    }
}

/// The grid of the `k`-th orbit member, in the fixed order: identity, the
/// three rotations, then the horizontal mirror of each of those four.
pub open spec fn orbit_grid(s: PixelBuffer, k: int) -> Seq<Seq<Pixel>> {
    let g = s.grid();
    let w = s.width as int;
    let h = s.height as int;
    if k == 0 {
        g
    } else if k == 1 {
        rot90_grid(g, w, h)
    } else if k == 2 {
        rot180_grid(g, w, h)
    } else if k == 3 {
        rot270_grid(g, w, h)
    } else if k == 4 {
        mirror_grid(g, w, h)
    } else if k == 5 {
        mirror_grid(rot90_grid(g, w, h), h, w)
    } else if k == 6 {
        mirror_grid(rot180_grid(g, w, h), w, h)
    } else {
        mirror_grid(rot270_grid(g, w, h), h, w)
    }
}

/// The eight orbit members of a silhouette, in the fixed order identity,
/// rotate 90, rotate 180, rotate 270, then the horizontal mirror of each
/// of those four.
pub fn orbit(s: &PixelBuffer) -> (r: Vec<PixelBuffer>)
    requires
        s.wf(),
    ensures
        r@.len() == 8,
        forall|k: int|
            0 <= k < 8 ==> {
                let m = #[trigger] r@[k];
                &&& m.wf()
                &&& m.width as int == orbit_width(*s, k)
                &&& m.height as int == orbit_height(*s, k)
                &&& m.grid() == orbit_grid(*s, k)
            },
{
    let r0 = duplicate(s);
    let r90 = rotate90(s);
    let r180 = rotate180(s);
    let r270 = rotate270(s);
    let m0 = mirror(&r0);
    let m90 = mirror(&r90);
    let m180 = mirror(&r180);
    let m270 = mirror(&r270);
    let mut v: Vec<PixelBuffer> = Vec::new();
    v.push(r0);
    v.push(r90);
    v.push(r180);
    v.push(r270);
    v.push(m0);
    v.push(m90);
    v.push(m180);
    v.push(m270);
    v
}

/// Mirroring twice reproduces the silhouette exactly, pixel for pixel.
pub proof fn lemma_mirror_involution(a: PixelBuffer, b: PixelBuffer, c: PixelBuffer)
    requires
        a.wf(),
        b.width == a.width,
        b.height == a.height,
        b.grid() == mirror_grid(a.grid(), a.width as int, a.height as int),
        c.width == b.width,
        c.height == b.height,
        c.grid() == mirror_grid(b.grid(), b.width as int, b.height as int),
    ensures
        c.width == a.width,
        c.height == a.height,
        c.grid() == a.grid(),
{
    let w = a.width as int;
    let h = a.height as int;
    assert forall|y: int| 0 <= y < h implies #[trigger] c.grid()[y] =~= a.grid()[y] by {
        assert forall|x: int| 0 <= x < w implies #[trigger] c.grid()[y][x] == a.grid()[y][x] by {
            assert(c.grid()[y][x] == b.grid()[y][w - 1 - x]);
            assert(b.grid()[y][w - 1 - x] == a.grid()[y][w - 1 - (w - 1 - x)]);
        }
    }
    assert(c.grid() =~= a.grid());
}

/// Four quarter-turn rotations in sequence reproduce the silhouette
/// exactly, pixel for pixel.
pub proof fn lemma_rotation_cycle(
    a: PixelBuffer,
    b: PixelBuffer,
    c: PixelBuffer,
    d: PixelBuffer,
    e: PixelBuffer,
)
    requires
        a.wf(),
        b.width == a.height && b.height == a.width,
        b.grid() == rot90_grid(a.grid(), a.width as int, a.height as int),
        c.width == b.height && c.height == b.width,
        c.grid() == rot90_grid(b.grid(), b.width as int, b.height as int),
        d.width == c.height && d.height == c.width,
        d.grid() == rot90_grid(c.grid(), c.width as int, c.height as int),
        e.width == d.height && e.height == d.width,
        e.grid() == rot90_grid(d.grid(), d.width as int, d.height as int),
    ensures
        e.width == a.width,
        e.height == a.height,
        e.grid() == a.grid(),
{
    let w = a.width as int;
    let h = a.height as int;
    assert forall|y: int, x: int|
        0 <= y < h && 0 <= x < w implies #[trigger] c.grid()[y][x] == a.grid()[h - 1 - y][w - 1
        - x] by {
        assert(c.grid()[y][x] == b.grid()[w - 1 - x][y]);
        assert(b.grid()[w - 1 - x][y] == a.grid()[h - 1 - y][w - 1 - x]);
    }
    assert forall|y: int, x: int|
        0 <= y < w && 0 <= x < h implies #[trigger] d.grid()[y][x] == a.grid()[x][w - 1 - y] by {
        assert(d.grid()[y][x] == c.grid()[h - 1 - x][y]);
        assert(c.grid()[h - 1 - x][y] == a.grid()[h - 1 - (h - 1 - x)][w - 1 - y]);
    }
    assert forall|y: int| 0 <= y < h implies #[trigger] e.grid()[y] =~= a.grid()[y] by {
        assert forall|x: int| 0 <= x < w implies #[trigger] e.grid()[y][x] == a.grid()[y][x] by {
            assert(e.grid()[y][x] == d.grid()[w - 1 - x][y]);
            assert(d.grid()[w - 1 - x][y] == a.grid()[y][w - 1 - (w - 1 - x)]);
        }
    }
    assert(e.grid() =~= a.grid());
}

} // verus!
