//! The whole-number side of drawing with the CPU: textures, clip boxes and packed colours.

use vstd::prelude::*;

verus! {

/// A texture, its pixels row by row.
pub struct Texture {
    pub w: usize,
    pub h: usize,
    pub px: Vec<u32>,
}

impl Texture {
    pub open spec fn wf(&self) -> bool {
        self.px@.len() == self.w * self.h
    }

    /// The pixel in column `x` of row `y`.
    pub open spec fn at(&self, x: int, y: int) -> u32 {
        self.px@[y * self.w + x]
    }

    pub fn new(w: usize, h: usize, px: Vec<u32>) -> (t: Texture)
        requires
            px@.len() == w * h,
        ensures
            t.wf(),
            t.w == w && t.h == h && t.px == px,
    {
        Texture { w, h, px }
    }

    pub fn pixel(&self, x: usize, y: usize) -> (p: u32)
        requires
            self.wf(),
            x < self.w,
            y < self.h,
        ensures
            p == self.at(x as int, y as int),
    {
        proof {
            lemma_inside(self.w as int, self.h as int, x as int, y as int);
        }
        let n = self.px.len();
        assert(y * self.w + x < n);
        assert(y * self.w <= n) by (nonlinear_arith)
            requires
                y * self.w + x < n,
                x >= 0,
        ;
        self.px[y * self.w + x]
    }

    /// Puts a smaller image into the texture with its corner at `ox`, `oy`; what would lie
    /// outside is cut off.
    pub fn patch(&mut self, ox: usize, oy: usize, w: usize, h: usize, px: &Vec<u32>)
        requires
            old(self).wf(),
            px@.len() == w * h,
        ensures
            final(self).wf(),
            final(self).w == old(self).w,
            final(self).h == old(self).h,
            forall|x: int, y: int|
                0 <= x < old(self).w && 0 <= y < old(self).h ==> #[trigger] final(self).at(x, y)
                    == patched(old(self).at(x, y), ox as int, oy as int, w as int, h as int, px@, x, y),
    {
        let ghost before = *self;
        let mut row: usize = 0;
        while row < h && oy < self.h && row < self.h - oy
            invariant
                row <= h,
                self.wf(),
                before.wf(),
                self.w == before.w,
                self.h == before.h,
                px@.len() == w * h,
                oy < self.h ==> row <= self.h - oy,
                forall|x: int, y: int|
                    0 <= x < before.w && 0 <= y < before.h ==> #[trigger] self.at(x, y) == (if ox
                        <= x < ox + w && oy <= y < oy + row {
                        px@[(y - oy) * w + (x - ox)]
                    } else {
                        before.at(x, y)
                    }),
            decreases h - row,
        {
            let mut col: usize = 0;
            while col < w && ox < self.w && col < self.w - ox
                invariant
                    row < h,
                    col <= w,
                    self.wf(),
                    before.wf(),
                    self.w == before.w,
                    self.h == before.h,
                    px@.len() == w * h,
                    oy < self.h,
                    row < self.h - oy,
                    ox < self.w ==> col <= self.w - ox,
                    forall|x: int, y: int|
                        0 <= x < before.w && 0 <= y < before.h ==> #[trigger] self.at(x, y) == (if (
                        ox <= x < ox + w && oy <= y < oy + row) || (y == oy + row && ox <= x < ox
                            + col) {
                            px@[(y - oy) * w + (x - ox)]
                        } else {
                            before.at(x, y)
                        }),
                decreases w - col,
            {
                let dx: usize = ox + col;
                let dy: usize = oy + row;
                proof {
                    lemma_inside(w as int, h as int, col as int, row as int);
                    lemma_inside(self.w as int, self.h as int, dx as int, dy as int);
                }
                let n = self.px.len();
                let m = px.len();
                assert(dy * self.w <= n) by (nonlinear_arith)
                    requires
                        dy * self.w + dx < n,
                        dx >= 0,
                ;
                assert(row * w <= m) by (nonlinear_arith)
                    requires
                        row * w + col < m,
                        col >= 0,
                ;
                let at: usize = dy * self.w + dx;
                let v: u32 = px[row * w + col];
                let ghost mid = *self;
                self.px.set(at, v);
                proof {
                    assert forall|x: int, y: int|
                        0 <= x < before.w && 0 <= y < before.h implies #[trigger] self.at(x, y) == (
                    if (ox <= x < ox + w && oy <= y < oy + row) || (y == oy + row && ox <= x < ox
                        + (col + 1)) {
                        px@[(y - oy) * w + (x - ox)]
                    } else {
                        before.at(x, y)
                    }) by {
                        lemma_inside(self.w as int, self.h as int, x, y);
                        if x != dx || y != dy {
                            lemma_distinct(self.w as int, x, y, dx as int, dy as int);
                            assert(self.at(x, y) == mid.at(x, y));
                        }
                    }
                }
                col += 1;
            }
            row += 1;
        }
    }
}

/// A pixel of a `w` by `h` image lies in its pixels.
proof fn lemma_inside(w: int, h: int, x: int, y: int)
    by (nonlinear_arith)
    requires
        0 <= x < w,
        0 <= y < h,
    ensures
        0 <= y * w + x < w * h,
{
}

/// Different pixels lie at different places.
proof fn lemma_distinct(w: int, x: int, y: int, a: int, b: int)
    by (nonlinear_arith)
    requires
        0 <= x < w,
        0 <= a < w,
        x != a || y != b,
    ensures
        y * w + x != b * w + a,
{
}

/// The pixel in column `x` of row `y` once a `w` by `h` image is put at `ox`, `oy`.
pub open spec fn patched(
    before: u32,
    ox: int,
    oy: int,
    w: int,
    h: int,
    px: Seq<u32>,
    x: int,
    y: int,
) -> u32 {
    if ox <= x < ox + w && oy <= y < oy + h {
        px[(y - oy) * w + (x - ox)]
    } else {
        before
    }
}

/// Each pixel of the image lands as far from its corner as it lay in the image, and no pixel
/// beside the image changes.
pub proof fn law_where_a_patch_lands(
    before: u32,
    ox: int,
    oy: int,
    w: int,
    h: int,
    px: Seq<u32>,
    i: int,
    j: int,
)
    ensures
        0 <= i < w && 0 <= j < h ==> patched(before, ox, oy, w, h, px, ox + i, oy + j) == px[j * w
            + i],
        i < 0 || i >= w || j < 0 || j >= h ==> patched(before, ox, oy, w, h, px, ox + i, oy + j)
            == before,
{
}

/// A box of pixels: from the first corner up to, not with, the second.
pub struct ClipBox {
    pub x0: usize,
    pub y0: usize,
    pub x1: usize,
    pub y1: usize,
}

impl ClipBox {
    pub fn is_empty(&self) -> (r: bool)
        ensures
            r == !(exists|x: int, y: int|
                #![trigger self.holds(x, y)]
                self.holds(x, y)),
    {
        let r = self.x0 >= self.x1 || self.y0 >= self.y1;
        proof {
            if !r {
                assert(self.holds(self.x0 as int, self.y0 as int));
            }
        }
        r
    }

    /// The pixel lies in the box.
    pub open spec fn holds(&self, x: int, y: int) -> bool {
        self.x0 <= x < self.x1 && self.y0 <= y < self.y1
    }
}

pub open spec fn larger(a: int, b: int) -> int {
    if a < b {
        b
    } else {
        a
    }
}

pub open spec fn smaller(a: int, b: int) -> int {
    if a < b {
        a
    } else {
        b
    }
}

/// What two ranges of pixels share, where they share anything.
pub open spec fn clipped(lo: int, hi: int, c0: int, c1: int) -> Option<(int, int)> {
    let from = larger(lo, c0);
    let to = smaller(hi, c1);
    if from < to {
        Some((from, to))
    } else {
        None
    }
}

/// The pixels from `lo` up to `hi` that lie between `c0` and `c1`, if there are any. A shape far
/// off the left edge has a negative end, which must not wrap.
pub fn span(lo: i64, hi: i64, c0: usize, c1: usize) -> (r: Option<(usize, usize)>)
    ensures
        match clipped(lo as int, hi as int, c0 as int, c1 as int) {
            Some(s) => match r {
                Some(t) => t.0 == s.0 && t.1 == s.1,
                None => false,
            },
            None => r is None,
        },
{
    let a: i128 = if (lo as i128) < c0 as i128 {
        c0 as i128
    } else {
        lo as i128
    };
    let b: i128 = if (hi as i128) > c1 as i128 {
        c1 as i128
    } else {
        hi as i128
    };
    if a >= b {
        None
    } else {
        Some((a as usize, b as usize))
    }
}

/// Of a shape just that is drawn which lies inside the clip box, and nothing is drawn where
/// that is nothing.
pub proof fn law_a_span_stays_inside(lo: int, hi: int, c0: int, c1: int, p: int)
    ensures
        match clipped(lo, hi, c0, c1) {
            Some(s) => s.0 < s.1 && (s.0 <= p < s.1 <==> lo <= p < hi && c0 <= p < c1),
            None => !(lo <= p < hi && c0 <= p < c1),
        },
{
}

/// Red, green and blue in one number, red in front.
pub open spec fn packed(r: u8, g: u8, b: u8) -> int {
    r * 65536 + g * 256 + b
}

/// Red, green and blue of a number.
pub open spec fn unpacked(c: int) -> (int, int, int) {
    (c / 65536 % 256, c / 256 % 256, c % 256)
}

/// Red, green and blue in one number, as a frame buffer takes them.
pub fn pack(r: u8, g: u8, b: u8) -> (c: u32)
    ensures
        c == packed(r, g, b),
{
    r as u32 * 65536 + g as u32 * 256 + b as u32
}

/// Red, green and blue of a packed colour.
pub fn unpack(c: u32) -> (r: (u8, u8, u8))
    ensures
        (r.0 as int, r.1 as int, r.2 as int) == unpacked(c as int),
{
    ((c / 65536 % 256) as u8, (c / 256 % 256) as u8, (c % 256) as u8)
}

/// Packing a colour loses nothing, and the three follow each other in the order in which a
/// colour is written, eight bits each.
pub proof fn law_packing_keeps_the_colour(r: u8, g: u8, b: u8)
    ensures
        unpacked(packed(r, g, b)) == (r as int, g as int, b as int),
        0 <= packed(r, g, b) <= 0xFF_FFFF,
        packed(r, 0, 0) == r * 0x1_0000,
        packed(0, g, 0) == g * 0x100,
        packed(0, 0, b) == b,
{
}

} // verus!
