//! Target sizes and crop boxes for image derivatives.
use vstd::prelude::*;

verus! {

/// `num / den` rounded to the nearest whole number, halves up.
pub open spec fn rounded(num: nat, den: nat) -> nat
    recommends
        den > 0,
{
    (2 * num + den) / (2 * den)
}

fn scaled(a: u32, b: u32, den: u32) -> (r: u64)
    requires
        den > 0,
    ensures
        r as nat == rounded(a as nat * b as nat, den as nat),
{
    proof {
        lemma_product_bound(a as int, b as int);
    }
    let num: u128 = (a as u128) * (b as u128);
    let d: u128 = den as u128;
    let q: u128 = (2 * num + d) / (2 * d);
    proof {
        lemma_quotient_bound(num as int, d as int);
    }
    q as u64
}

proof fn lemma_product_bound(a: int, b: int)
    requires
        0 <= a <= 0xffff_ffff,
        0 <= b <= 0xffff_ffff,
    ensures
        0 <= a * b <= 0xffff_fffe_0000_0001,
{
    assert(0 <= a * b <= 0xffff_ffff * 0xffff_ffff) by (nonlinear_arith)
        requires
            0 <= a <= 0xffff_ffff,
            0 <= b <= 0xffff_ffff,
    ;
}

proof fn lemma_quotient_bound(n: int, d: int)
    requires
        0 <= n <= 0xffff_fffe_0000_0001,
        1 <= d <= 0xffff_ffff,
    ensures
        (2 * n + d) / (2 * d) <= n + d,
{
    let q = (2 * n + d) / (2 * d);
    assert(q * (2 * d) <= 2 * n + d) by (nonlinear_arith)
        requires
            q == (2 * n + d) / (2 * d),
            d >= 1,
            n >= 0,
    ;
    assert(q <= n + d) by (nonlinear_arith)
        requires
            q * (2 * d) <= 2 * n + d,
            d >= 1,
            n >= 0,
    ;
}

/// The size of a fitted image: a square source takes the bounds as they are;
/// any other keeps its aspect ratio with its width pinned to `bound_w` (the
/// height bound plays no part there).
pub fn fit_dimensions(w: u32, h: u32, bound_w: u32, bound_h: u32) -> (r: (u64, u64))
    requires
        w > 0 || w == h,
    ensures
        r == if w == h {
            (bound_w as u64, bound_h as u64)
        } else {
            (bound_w as u64, rounded(h as nat * bound_w as nat, w as nat) as u64)
        },
{
    if w == h {
        (bound_w as u64, bound_h as u64)
    } else {
        (bound_w as u64, scaled(h, bound_w, w))
    }
}

/// The size that fills a `bound` square: the shorter side becomes `bound`,
/// the longer one keeps the aspect ratio, so that a centred `bound` square
/// can then be cut out.
pub fn square_fit(w: u32, h: u32, bound: u32) -> (r: (u64, u64))
    requires
        w > 0,
        h > 0,
    ensures
        r == if w <= h {
            (bound as u64, rounded(h as nat * bound as nat, w as nat) as u64)
        } else {
            (rounded(w as nat * bound as nat, h as nat) as u64, bound as u64)
        },
        r.0 >= bound && r.1 >= bound,
{
    if w <= h {
        let t = scaled(h, bound, w);
        assert(t >= bound) by (nonlinear_arith)
            requires
                t as nat == rounded(h as nat * bound as nat, w as nat),
                w <= h,
                w > 0,
        ;
        (bound as u64, t)
    } else {
        let t = scaled(w, bound, h);
        assert(t >= bound) by (nonlinear_arith)
            requires
                t as nat == rounded(w as nat * bound as nat, h as nat),
                h < w,
                h > 0,
        ;
        (t, bound as u64)
    }
}

/// A `bound` square centred in a `w` by `h` image,
/// with `x = w/2 - bound/2` and `y = h/2 - bound/2`, halves rounded down.
pub fn center_crop(w: u64, h: u64, bound: u64) -> (r: CropBox)
    ensures
        r.x == (w / 2) as int - (bound / 2) as int,
        r.y == (h / 2) as int - (bound / 2) as int,
        r.width == bound,
        r.height == bound,
{
    let x = (w / 2) as i64 - (bound / 2) as i64;
    let y = (h / 2) as i64 - (bound / 2) as i64;
    CropBox { x, y, width: bound, height: bound }
}

/// A rectangle cut out of an image, from its top-left corner.
#[derive(Clone, Copy, Debug, PartialEq, Eq)]
pub struct CropBox {
    pub x: i64,
    pub y: i64,
    pub width: u64,
    pub height: u64,
}

/// Size, and crop box where one is needed, of a square derivative.
#[derive(Clone, Copy, Debug, PartialEq, Eq)]
pub struct ThumbnailSpec {
    pub width: u64,
    pub height: u64,
    pub crop: Option<CropBox>,
}

/// The square derivative of a `w` by `h` image: scaled to fill a `bound`
/// square, then cut to it around the centre unless the source was square.
pub fn square_thumbnail(w: u32, h: u32, bound: u32) -> (r: ThumbnailSpec)
    requires
        w > 0,
        h > 0,
    ensures
        (r.width, r.height) == (if w <= h {
            (bound as u64, rounded(h as nat * bound as nat, w as nat) as u64)
        } else {
            (rounded(w as nat * bound as nat, h as nat) as u64, bound as u64)
        }),
        match r.crop {
            None => w == h,
            Some(c) => w != h && c.x == (r.width / 2) as int - (bound / 2) as int && c.y == (
            r.height / 2) as int - (bound / 2) as int && c.width == bound && c.height == bound,
        },
{
    let (fw, fh) = square_fit(w, h, bound);
    let crop = if w == h {
        None
    } else {
        Some(center_crop(fw, fh, bound as u64))
    };
    ThumbnailSpec { width: fw, height: fh, crop }
}

} // verus!
