//! A fixed-size pixel buffer of premultiplied ARGB pixels, with the two
//! painting primitives the dialog renderer needs: filling a rectangle with a
//! solid color and blitting a bitmap.
//!
//! Pixels are `u32` values laid out `0xAARRGGBB`. Premultiplication means
//! each of the red/green/blue channels is at most the alpha channel; every
//! painting operation preserves that invariant over the whole buffer.

use vstd::arithmetic::div_mod::{lemma_fundamental_div_mod, lemma_fundamental_div_mod_converse};
use vstd::prelude::*;

verus! {

/// A rectangle in pixel coordinates.
#[derive(Debug, Clone, Copy, PartialEq, Eq, Structural)]
pub struct Rect {
    pub x: u32,
    pub y: u32,
    pub w: u32,
    pub h: u32,
}

impl Rect {
    /// The rectangle contains the point `(x, y)`.
    pub open spec fn spec_contains(self, x: int, y: int) -> bool {
        &&& self.x <= x < self.x + self.w
        &&& self.y <= y < self.y + self.h
    }

    /// Whether a cursor position lies inside this rectangle.
    pub fn contains_pos(&self, px: i16, py: i16) -> (r: bool)
        ensures
            r == self.spec_contains(px as int, py as int),
    {
        px >= 0 && py >= 0 && self.x as u64 <= px as u64 && (px as u64) < self.x as u64
            + self.w as u64 && self.y as u64 <= py as u64 && (py as u64) < self.y as u64
            + self.h as u64
    }
}

/// The alpha channel of a pixel.
pub open spec fn alpha_of(p: u32) -> u32 {
    p >> 24
}

/// The red channel of a pixel.
pub open spec fn red_of(p: u32) -> u32 {
    (p >> 16) & 0xff
}

/// The green channel of a pixel.
pub open spec fn green_of(p: u32) -> u32 {
    (p >> 8) & 0xff
}

/// The blue channel of a pixel.
pub open spec fn blue_of(p: u32) -> u32 {
    p & 0xff
}

/// Alpha-premultiplication: every color channel is at most alpha.
pub open spec fn is_premul(p: u32) -> bool {
    red_of(p) <= alpha_of(p) && green_of(p) <= alpha_of(p) && blue_of(p) <= alpha_of(p)
}

/// Every pixel of the buffer is premultiplied.
pub open spec fn all_premul(s: Seq<u32>) -> bool {
    forall|k: int| 0 <= k < s.len() ==> is_premul(s[k])
}

/// A fully opaque pixel is always premultiplied.
pub proof fn lemma_opaque_premul(p: u32)
    requires
        p >> 24 == 0xffu32,
    ensures
        is_premul(p),
{
    assert(p >> 24 == 0xffu32 ==> ((p >> 16) & 0xff) <= (p >> 24) && ((p >> 8) & 0xff) <= (p >> 24)
        && (p & 0xff) <= (p >> 24)) by (bit_vector);
}

/// Linear pixel index `k` of a buffer of row width `w` falls inside `r`.
pub open spec fn covers(w: int, r: Rect, k: int) -> bool {
    r.spec_contains(k % w, k / w)
}

/// The buffer `base` with rectangle `r` filled with color `c`.
pub open spec fn painted(base: Seq<u32>, w: int, r: Rect, c: u32) -> Seq<u32> {
    Seq::new(
        base.len(),
        |k: int|
            if covers(w, r, k) {
                c
            } else {
                base[k]
            },
    )
}

/// The buffer `base` with the bitmap `src` (of width `r.w` and height `r.h`)
/// copied into rectangle `r`.
pub open spec fn blitted(base: Seq<u32>, w: int, r: Rect, src: Seq<u32>) -> Seq<u32> {
    Seq::new(
        base.len(),
        |k: int|
            if covers(w, r, k) {
                src[(k / w - r.y) * r.w + (k % w - r.x)]
            } else {
                base[k]
            },
    )
}

/// The buffer `base` with `r` filled with `c` up to (but not including)
/// row `y`, and row `y` itself filled up to column `x`.
pub open spec fn filled_upto(base: Seq<u32>, w: int, r: Rect, c: u32, y: int, x: int) -> Seq<u32> {
    Seq::new(
        base.len(),
        |k: int|
            if covers(w, r, k) && (k / w < y || (k / w == y && k % w < x)) {
                c
            } else {
                base[k]
            },
    )
}

/// The buffer `base` with `src` blitted into `r` up to (but not including)
/// row `y`, and row `y` itself up to column `x`.
pub open spec fn blitted_upto(
    base: Seq<u32>,
    w: int,
    r: Rect,
    src: Seq<u32>,
    y: int,
    x: int,
) -> Seq<u32> {
    Seq::new(
        base.len(),
        |k: int|
            if covers(w, r, k) && (k / w < y || (k / w == y && k % w < x)) {
                src[(k / w - r.y) * r.w + (k % w - r.x)]
            } else {
                base[k]
            },
    )
}

/// Filling with a premultiplied color preserves premultiplication.
pub proof fn lemma_painted_premul(base: Seq<u32>, w: int, r: Rect, c: u32)
    requires
        all_premul(base),
        is_premul(c),
    ensures
        all_premul(painted(base, w, r, c)),
{
}

/// Blitting a premultiplied bitmap preserves premultiplication.
pub proof fn lemma_blitted_premul(base: Seq<u32>, w: int, r: Rect, src: Seq<u32>)
    requires
        all_premul(base),
        all_premul(src),
        src.len() == r.w as int * r.h as int,
        w >= 1,
    ensures
        all_premul(blitted(base, w, r, src)),
{
    assert forall|k: int| 0 <= k < blitted(base, w, r, src).len() implies is_premul(
        blitted(base, w, r, src)[k],
    ) by {
        if covers(w, r, k) {
            let dy = k / w - r.y;
            let dx = k % w - r.x;
            assert(0 <= dy < r.h && 0 <= dx < r.w);
            assert(0 <= dy * r.w + dx < r.w as int * r.h as int) by (nonlinear_arith)
                requires
                    0 <= dy < r.h && 0 <= dx < r.w,
            ;
        }
    }
}

/// A width × height buffer of premultiplied `0xAARRGGBB` pixels, contiguous,
/// row-major.
pub struct Canvas {
    pub width: u32,
    pub height: u32,
    pub data: Vec<u32>,
}

impl Canvas {
    /// Well-formed: the buffer has exactly width·height pixels, dimensions
    /// are bounded so pixel addressing cannot overflow, and every pixel is
    /// premultiplied.
    pub open spec fn wf(self) -> bool {
        &&& self.data@.len() == self.width as int * self.height as int
        &&& 1 <= self.width <= 32768
        &&& 1 <= self.height <= 32768
        &&& all_premul(self.data@)
    }

    /// The width in pixels.
    pub open spec fn spec_width(&self) -> u32 {
        self.width
    }

    /// The height in pixels.
    pub open spec fn spec_height(&self) -> u32 {
        self.height
    }

    /// The pixel contents, row-major.
    pub open spec fn pixels(self) -> Seq<u32> {
        self.data@
    }

    /// The width in pixels.
    #[verifier::when_used_as_spec(spec_width)]
    pub fn width(&self) -> (r: u32)
        ensures
            r == self.width,
    {
        self.width
    }

    /// The height in pixels.
    #[verifier::when_used_as_spec(spec_height)]
    pub fn height(&self) -> (r: u32)
        ensures
            r == self.height,
    {
        self.height
    }

    /// Borrows the raw pixel buffer (for uploading to a window).
    pub fn data(&self) -> (r: &Vec<u32>)
        ensures
            r@ == self.pixels(),
    {
        &self.data
    }

    /// A fresh canvas filled with the color `c`.
    pub fn new(width: u32, height: u32, c: u32) -> (r: Canvas)
        requires
            1 <= width <= 32768,
            1 <= height <= 32768,
            is_premul(c),
        ensures
            r.wf(),
            r.spec_width() == width,
            r.spec_height() == height,
            r.pixels() == Seq::new((width as int * height as int) as nat, |k: int| c),
    {
        assert(width as int * height as int <= 0x40000000) by (nonlinear_arith)
            requires
                1 <= width <= 32768 && 1 <= height <= 32768,
        ;
        let n: usize = (width as usize) * (height as usize);
        let mut data: Vec<u32> = Vec::new();
        let mut k: usize = 0;
        while k < n
            invariant
                k <= n,
                n == width as int * height as int,
                data@.len() == k,
                forall|j: int| 0 <= j < k ==> data@[j] == c,
            decreases n - k,
        {
            data.push(c);
            k += 1;
        }
        let r = Canvas { width, height, data };
        assert(r.pixels() =~= Seq::new((width as int * height as int) as nat, |k: int| c));
        r
    }

    /// Fills rectangle `r` with the premultiplied color `c`.
    /// Fills rectangle `r` with the premultiplied color `c`.
    pub fn fill_rect(&mut self, r: Rect, c: u32)
        requires
            old(self).wf(),
            is_premul(c),
            r.x + r.w <= old(self).spec_width(),
            r.y + r.h <= old(self).spec_height(),
        ensures
            final(self).wf(),
            final(self).spec_width() == old(self).spec_width(),
            final(self).spec_height() == old(self).spec_height(),
            final(self).pixels() == painted(
                old(self).pixels(),
                old(self).spec_width() as int,
                r,
                c,
            ),
    {
        let ghost base = old(self).data@;
        let ghost wi = old(self).width as int;
        let w = self.width as usize;
        proof {
            assert forall|k: int| 0 <= k < base.len() implies base[k] == filled_upto(
                base,
                wi,
                r,
                c,
                r.y as int,
                r.x as int,
            )[k] by {}
            assert(self.data@ =~= filled_upto(base, wi, r, c, r.y as int, r.x as int));
        }
        let mut y: usize = r.y as usize;
        while y < (r.y as usize) + (r.h as usize)
            invariant
                r.y <= y <= r.y + r.h,
                r.x + r.w <= old(self).width,
                r.y + r.h <= old(self).height,
                w == wi,
                wi == old(self).width as int,
                old(self).wf(),
                is_premul(c),
                self.width == old(self).width,
                self.height == old(self).height,
                base == old(self).data@,
                self.data@ == filled_upto(base, wi, r, c, y as int, r.x as int),
            decreases r.y + r.h - y,
        {
            let mut x: usize = r.x as usize;
            while x < (r.x as usize) + (r.w as usize)
                invariant
                    r.x <= x <= r.x + r.w,
                    r.y <= y < r.y + r.h,
                    r.x + r.w <= old(self).width,
                    r.y + r.h <= old(self).height,
                    w == wi,
                    wi == old(self).width as int,
                    old(self).wf(),
                    is_premul(c),
                    self.width == old(self).width,
                    self.height == old(self).height,
                    base == old(self).data@,
                    self.data@ == filled_upto(base, wi, r, c, y as int, x as int),
                decreases r.x + r.w - x,
            {
                proof {
                    let hi = old(self).height as int;
                    assert(y * wi + x < wi * hi && wi * hi <= 0x40000000) by (nonlinear_arith)
                        requires
                            0 <= x < wi,
                            0 <= y < hi,
                            wi <= 32768,
                            hi <= 32768,
                    ;
                    assert(base.len() == wi * hi);
                    assert(y * wi == wi * y) by (nonlinear_arith);
                    assert(y * w == y * wi) by (nonlinear_arith)
                        requires
                            w == wi,
                    ;
                    lemma_fundamental_div_mod_converse(y * wi + x, wi, y as int, x as int);
                }
                let idx: usize = y * w + x;
                let ghost pre = self.data@;
                self.data[idx] = c;
                proof {
                    assert(pre == filled_upto(base, wi, r, c, y as int, x as int));
                    assert forall|k: int| 0 <= k < base.len() implies pre.update(idx as int, c)[k]
                        == filled_upto(base, wi, r, c, y as int, x as int + 1)[k] by {
                        lemma_fundamental_div_mod(k, wi);
                        if k == idx as int {
                            assert(pre.update(idx as int, c)[k] == c);
                            assert(covers(wi, r, k));
                            assert(filled_upto(base, wi, r, c, y as int, x as int + 1)[k] == c);
                        } else {
                            assert(pre.update(idx as int, c)[k] == pre[k]);
                            assert(pre[k] == filled_upto(base, wi, r, c, y as int, x as int)[k]);
                            if covers(wi, r, k) && k / wi == y && k % wi == x {
                                assert(k == wi * y + x);
                                assert(false);
                            }
                        }
                    }
                    assert(self.data@ =~= filled_upto(base, wi, r, c, y as int, x as int + 1));
                }
                x += 1;
            }
            proof {
                assert forall|k: int| 0 <= k < base.len() implies self.data@[k] == filled_upto(
                    base,
                    wi,
                    r,
                    c,
                    y as int + 1,
                    r.x as int,
                )[k] by {}
                assert(self.data@ =~= filled_upto(base, wi, r, c, y as int + 1, r.x as int));
            }
            y += 1;
        }
        proof {
            assert forall|k: int| 0 <= k < base.len() implies self.data@[k] == painted(
                base,
                wi,
                r,
                c,
            )[k] by {}
            assert(self.data@ =~= painted(base, wi, r, c));
            lemma_painted_premul(base, wi, r, c);
        }
    }

    /// Blits the bitmap `src` (row-major, `r.w` x `r.h`) into rectangle `r`.
    pub fn blit(&mut self, r: Rect, src: &Vec<u32>)
        requires
            old(self).wf(),
            all_premul(src@),
            src@.len() == r.w as int * r.h as int,
            r.x + r.w <= old(self).spec_width(),
            r.y + r.h <= old(self).spec_height(),
        ensures
            final(self).wf(),
            final(self).spec_width() == old(self).spec_width(),
            final(self).spec_height() == old(self).spec_height(),
            final(self).pixels() == blitted(
                old(self).pixels(),
                old(self).spec_width() as int,
                r,
                src@,
            ),
    {
        let ghost base = old(self).data@;
        let ghost wi = old(self).width as int;
        let w = self.width as usize;
        proof {
            assert forall|k: int| 0 <= k < base.len() implies base[k] == blitted_upto(
                base,
                wi,
                r,
                src@,
                r.y as int,
                r.x as int,
            )[k] by {}
            assert(self.data@ =~= blitted_upto(base, wi, r, src@, r.y as int, r.x as int));
        }
        let mut dy: usize = 0;
        while dy < r.h as usize
            invariant
                0 <= dy <= r.h,
                r.x + r.w <= old(self).width,
                r.y + r.h <= old(self).height,
                w == wi,
                wi == old(self).width as int,
                old(self).wf(),
                src@.len() == r.w as int * r.h as int,
                self.width == old(self).width,
                self.height == old(self).height,
                base == old(self).data@,
                self.data@ == blitted_upto(base, wi, r, src@, r.y + dy, r.x as int),
            decreases r.h - dy,
        {
            let mut dx: usize = 0;
            while dx < r.w as usize
                invariant
                    0 <= dx <= r.w,
                    0 <= dy < r.h,
                    r.x + r.w <= old(self).width,
                    r.y + r.h <= old(self).height,
                    w == wi,
                    wi == old(self).width as int,
                    old(self).wf(),
                    src@.len() == r.w as int * r.h as int,
                    self.width == old(self).width,
                    self.height == old(self).height,
                    base == old(self).data@,
                    self.data@ == blitted_upto(base, wi, r, src@, r.y + dy, r.x + dx),
                decreases r.w - dx,
            {
                let y: usize = (r.y as usize) + dy;
                let x: usize = (r.x as usize) + dx;
                proof {
                    let hi = old(self).height as int;
                    assert(y * wi + x < wi * hi && wi * hi <= 0x40000000) by (nonlinear_arith)
                        requires
                            0 <= x < wi,
                            0 <= y < hi,
                            wi <= 32768,
                            hi <= 32768,
                    ;
                    assert(base.len() == wi * hi);
                    assert(y * wi == wi * y) by (nonlinear_arith);
                    assert(y * w == y * wi) by (nonlinear_arith)
                        requires
                            w == wi,
                    ;
                    lemma_fundamental_div_mod_converse(y * wi + x, wi, y as int, x as int);
                    assert(0 <= dy * r.w + dx < r.w as int * r.h as int) by (nonlinear_arith)
                        requires
                            0 <= dy < r.h,
                            0 <= dx < r.w,
                    ;
                    assert(dy * (r.w as usize) == dy * r.w) by (nonlinear_arith);
                }
                let slen: usize = src.len();
                let sidx: usize = dy * (r.w as usize) + dx;
                let idx: usize = y * w + x;
                let px = src[sidx];
                let ghost pre = self.data@;
                self.data[idx] = px;
                proof {
                    assert(idx as int / wi - r.y == dy && idx as int % wi - r.x == dx);
                    assert forall|k: int|
                        0 <= k < base.len() implies pre.update(idx as int, px)[k] == blitted_upto(
                        base,
                        wi,
                        r,
                        src@,
                        r.y + dy,
                        r.x + dx + 1,
                    )[k] by {
                        lemma_fundamental_div_mod(k, wi);
                    }
                    assert(self.data@ =~= blitted_upto(base, wi, r, src@, r.y + dy, r.x + dx + 1));
                }
                dx += 1;
            }
            proof {
                assert forall|k: int| 0 <= k < base.len() implies self.data@[k] == blitted_upto(
                    base,
                    wi,
                    r,
                    src@,
                    r.y + dy + 1,
                    r.x as int,
                )[k] by {}
                assert(self.data@ =~= blitted_upto(base, wi, r, src@, r.y + dy + 1, r.x as int));
            }
            dy += 1;
        }
        proof {
            assert forall|k: int| 0 <= k < base.len() implies self.data@[k] == blitted(
                base,
                wi,
                r,
                src@,
            )[k] by {}
            assert(self.data@ =~= blitted(base, wi, r, src@));
            lemma_blitted_premul(base, wi, r, src@);
        }
    }
}

} // verus!
